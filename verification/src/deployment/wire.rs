//! The small vocabularies the deployment service stores as text and sends as
//! enumerations, and the checks on registration fields.
use vstd::prelude::*;
use crate::error::{Error, Fault};
use crate::text::str_eq;
use crate::text::{blank, is_blank};
use crate::model::Driver;

verus! {

/// How an agent's threads run: on the gateway or on its own sidecars.
#[derive(Clone, Copy, PartialEq, Eq, Debug, Structural)]
pub enum DeploymentMode {
    Gateway,
    Sidecar,
}

/// Where a deployment runs.
#[derive(Clone, Copy, PartialEq, Eq, Debug, Structural)]
pub enum DeploymentTarget {
    Direct,
    Sidecar,
    AwsLambda,
}

/// Who registered a deployment.
#[derive(Clone, Copy, PartialEq, Eq, Debug, Structural)]
pub enum DeploymentSource {
    Manual,
    Ci,
}

/// A request to register a deployment of an agent.
#[derive(Debug)]
pub struct RegisterDeployment {
    pub source: DeploymentSource,
    pub target: DeploymentTarget,
    pub endpoint_url: Option<String>,
    pub target_reference: Option<String>,
    pub repository: Option<String>,
    pub commit_sha: Option<String>,
    pub external_id: Option<String>,
    pub label: Option<String>,
}

/// One change of a replicated row: its new value, or that it was deleted.
#[derive(Debug)]
pub struct Change<T> {
    pub value: T,
    pub deleted: bool,
}

/// The stored name of the sidecar mode and target.
pub open spec fn sidecar_name() -> Seq<char> {
    "sidecar"@
}

/// The mode a stored mode name stands for: anything but `sidecar` is the gateway.
pub fn mode_wire(mode: &str) -> (r: DeploymentMode)
    ensures
        r == (if mode@ == "sidecar"@ { DeploymentMode::Sidecar } else { DeploymentMode::Gateway }),
{
    if str_eq(mode, "sidecar") {
        DeploymentMode::Sidecar
    } else {
        DeploymentMode::Gateway
    }
}

/// The target a stored target name stands for; unknown names are direct.
pub fn target_wire(target: &str) -> (r: DeploymentTarget)
    ensures
        r == (if target@ == "sidecar"@ {
            DeploymentTarget::Sidecar
        } else if target@ == "aws_lambda"@ {
            DeploymentTarget::AwsLambda
        } else {
            DeploymentTarget::Direct
        }),
{
    if str_eq(target, "sidecar") {
        DeploymentTarget::Sidecar
    } else if str_eq(target, "aws_lambda") {
        DeploymentTarget::AwsLambda
    } else {
        DeploymentTarget::Direct
    }
}

/// The deployment target new threads of an agent in `mode` route to.
pub fn target_for_mode(mode: &str) -> (r: &'static str)
    ensures
        r@ == (if mode@ == "sidecar"@ { "sidecar"@ } else { "direct"@ }),
{
    if str_eq(mode, "sidecar") {
        "sidecar"
    } else {
        "direct"
    }
}

/// An agent in sidecar mode routes new threads to its sidecars, and an agent in
/// any other mode to direct deployments: the target named for a mode is the
/// one that mode runs on.
pub proof fn law_mode_routes_to_its_target(mode: Seq<char>)
    ensures
        (if mode == "sidecar"@ { "sidecar"@ } else { "direct"@ }) == "sidecar"@
            <==> mode == "sidecar"@,
{
    reveal_strlit("sidecar");
    reveal_strlit("direct");
    assert("direct"@[0] != "sidecar"@[0]);
}

/// The stored name of a source.
pub fn source_name(source: DeploymentSource) -> (r: &'static str)
    ensures
        r@ == match source {
            DeploymentSource::Manual => "manual"@,
            DeploymentSource::Ci => "ci"@,
        },
{
    match source {
        DeploymentSource::Manual => "manual",
        DeploymentSource::Ci => "ci",
    }
}

/// The source a stored name stands for: `ci`, or else manual.
pub fn source_wire(source: &str) -> (r: DeploymentSource)
    ensures
        r == (if source@ == "ci"@ { DeploymentSource::Ci } else { DeploymentSource::Manual }),
{
    if str_eq(source, "ci") {
        DeploymentSource::Ci
    } else {
        DeploymentSource::Manual
    }
}

/// The longest text a registration field may hold, in characters.
pub const FIELD_LIMIT: usize = 512;

/// What `short` makes of an optional registration field.
pub open spec fn short_result(value: Option<Seq<char>>, name: Seq<char>) -> Result<Option<Seq<char>>, Fault> {
    match value {
        Some(v) => if v.len() > FIELD_LIMIT {
            Err(Fault::Invalid(name + " is too long"@))
        } else if blank(v) {
            Ok(None)
        } else {
            Ok(Some(v))
        },
        None => Ok(None),
    }
}

/// An optional registration field: refused past 512 characters, absent when blank.
pub fn short(value: Option<String>, name: &str) -> (r: Result<Option<String>, Error>)
    ensures
        match r {
            Ok(v) => short_result(crate::address::opt_view(value), name@) == Ok::<Option<Seq<char>>, Fault>(
                crate::address::opt_view(v),
            ),
            Err(e) => short_result(crate::address::opt_view(value), name@) == Err::<Option<Seq<char>>, Fault>(e@),
        },
{
    match value {
        Some(v) => {
            if v.as_str().unicode_len() > FIELD_LIMIT {
                let mut message = name.to_owned();
                message.append(" is too long");
                Err(Error::Invalid(message))
            } else if is_blank(v.as_str()) {
                Ok(None)
            } else {
                Ok(Some(v))
            }
        },
        None => Ok(None),
    }
}

/// The number a driver has on the wire.
pub fn driver_number(driver: Driver) -> (r: i32)
    ensures
        r == match driver {
            Driver::Static => 1i32,
            Driver::OAuthCode => 2i32,
            Driver::OAuthClientCredentials => 3i32,
            Driver::OAuthJwtBearer => 4i32,
            Driver::Custom => 5i32,
        },
{
    match driver {
        Driver::Static => 1,
        Driver::OAuthCode => 2,
        Driver::OAuthClientCredentials => 3,
        Driver::OAuthJwtBearer => 4,
        Driver::Custom => 5,
    }
}

/// Distinct drivers have distinct numbers on the wire.
pub proof fn law_driver_numbers_distinct(a: Driver, b: Driver)
    requires
        a != b,
    ensures
        (match a {
            Driver::Static => 1i32,
            Driver::OAuthCode => 2i32,
            Driver::OAuthClientCredentials => 3i32,
            Driver::OAuthJwtBearer => 4i32,
            Driver::Custom => 5i32,
        }) != (match b {
            Driver::Static => 1i32,
            Driver::OAuthCode => 2i32,
            Driver::OAuthClientCredentials => 3i32,
            Driver::OAuthJwtBearer => 4i32,
            Driver::Custom => 5i32,
        }),
{
}

/// Errors of the chat runtime that a sidecar answers for.
#[derive(Debug)]
pub enum ChatError {
    Invalid(String),
    NotFound,
    Denied,
    Conflict,
    Transport,
}

/// The HTTP status a sidecar answers a provider call with: done, refused for a
/// conversation another replica owns, unknown, or unavailable.
pub fn status_result(outcome: Result<(), ChatError>) -> (r: u16)
    ensures
        r == match outcome {
            Ok(()) => 204u16,
            Err(ChatError::Denied) => 409u16,
            Err(ChatError::NotFound) => 404u16,
            Err(_) => 503u16,
        },
{
    match outcome {
        Ok(()) => 204,
        Err(ChatError::Denied) => 409,
        Err(ChatError::NotFound) => 404,
        Err(_) => 503,
    }
}

} // verus!
