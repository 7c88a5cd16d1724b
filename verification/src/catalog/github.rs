//! The GitHub catalog entry: a GitHub App created from a manifest or connected
//! from an existing installation.
use vstd::prelude::*;
use vstd::string::*;
use super::{CATEGORY_DEVELOPER_TOOLS, builtin_provider, custom_channel_type, input, input_fault};
use crate::error::{Error, Fault, fault_of, invalid};
use crate::model::{
    Capability, CredentialSource, Provider, ProviderKind, Values, lookup, optional, value,
};
use crate::text::str_eq;

verus! {

/// `definition()`: the built-in GitHub provider.
pub fn definition() -> (r: Provider)
    ensures
        r.id@ == "github"@,
        r.name@ == "GitHub"@,
        r.kind == ProviderKind::BuiltIn,
        r.categories@.len() == 1 && r.categories@[0]@ == "developer_tools"@,
        r.connection_types@.len() == 1,
        r.connection_types@[0].id@ == "github_app"@,
        r.connection_types@[0].name@ == "GitHub App"@,
        r.connection_types@[0].capabilities@ == seq![Capability::Channel],
        r.connection_types@[0].credential_source == CredentialSource::Custom,
{
    builtin_provider(
        "github",
        "GitHub",
        CATEGORY_DEVELOPER_TOOLS,
        custom_channel_type("github_app", "GitHub App"),
        Some("https://cdn.jsdelivr.net/gh/glincker/thesvg@main/public/icons/github/default.svg"),
        Some("Create a GitHub App or connect an existing installation to receive repository conversations."),
        Some("GitHub account"),
    )
}

/// A present, non-empty parameter.
pub open spec fn given(parameters: Seq<(String, String)>, key: Seq<char>) -> bool {
    lookup(parameters, key) matches Some(v) && v.len() > 0
}

/// Whether a GitHub callback fits the step it arrives at: a manifest code
/// without installation, or an installation without code; a denial always fits.
pub open spec fn github_accepts(step: Seq<char>, parameters: Seq<(String, String)>, denied: bool) -> bool {
    let code = given(parameters, "code"@);
    let installation = given(parameters, "installation_id"@);
    if step == "github_manifest"@ {
        denied || (code && !installation)
    } else if step == "github_install"@ {
        denied || (installation && !code)
    } else {
        false
    }
}

/// `accepts_callback(step, parameters, denied)` of the GitHub adapter.
pub fn accepts_callback(step: &str, parameters: &Values, denied: bool) -> (r: bool)
    ensures
        r == github_accepts(step@, parameters@, denied),
{
    let code = optional(parameters, "code").is_some();
    let installation = optional(parameters, "installation_id").is_some();
    if str_eq(step, "github_manifest") {
        denied || (code && !installation)
    } else if str_eq(step, "github_install") {
        denied || (installation && !code)
    } else {
        false
    }
}

/// The setup path a form chose: create a new app or connect an existing one.
pub open spec fn setup_path_ok(values: Seq<(String, String)>) -> bool {
    lookup(values, "setup_path"@) matches Some(v) && (v == "create"@ || v == "existing"@)
}

/// `validate_input(typ, step, values)` of an adapter whose form first asks for
/// a setup path and then the fields of that path (GitHub and Slack).
pub open spec fn path_input_fault(
    step: Seq<char>,
    values: Seq<(String, String)>,
    prefix: Seq<char>,
    create_required: Seq<&str>,
    create_optional: Seq<&str>,
    existing_required: Seq<&str>,
) -> Option<Fault> {
    if step == "fields"@ {
        match input_fault(values, seq!["setup_path"], seq![]) {
            Some(f) => Some(f),
            None => if setup_path_ok(values) {
                None
            } else {
                Some(Fault::Invalid("Invalid setup path"@))
            },
        }
    } else if step == prefix + "_create"@ {
        input_fault(values, create_required, create_optional)
    } else if step == prefix + "_existing"@ {
        input_fault(values, existing_required, seq![])
    } else {
        Some(Fault::Invalid("This step requires a provider callback"@))
    }
}

/// Check the setup-path choice of the first form.
pub(crate) fn check_setup_path(values: &Values) -> (r: Result<(), Error>)
    ensures
        fault_of(r) == (match input_fault(values@, seq!["setup_path"], seq![]) {
            Some(f) => Some(f),
            None => if setup_path_ok(values@) {
                None
            } else {
                Some(Fault::Invalid("Invalid setup path"@))
            },
        }),
{
    let required: [&str; 1] = ["setup_path"];
    let none: [&str; 0] = [];
    proof {
        assert(required@ =~= seq!["setup_path"]);
        assert(none@ =~= Seq::<&str>::empty());
    }
    input(values, &required, &none)?;
    let path = value(values, "setup_path")?;
    if !(str_eq(path, "create") || str_eq(path, "existing")) {
        return Err(invalid("Invalid setup path"));
    }
    Ok(())
}

/// `validate_input(typ, step, values)` of the GitHub adapter.
pub fn validate_input(step: &str, values: &Values) -> (r: Result<(), Error>)
    ensures
        fault_of(r) == path_input_fault(
            step@,
            values@,
            "github"@,
            seq!["app_name", "owner_type"],
            seq!["account"],
            seq!["app_id", "private_key", "installation_id", "webhook_secret"],
        ),
{
    proof {
        reveal_strlit("github");
        reveal_strlit("_create");
        reveal_strlit("_existing");
        reveal_strlit("github_create");
        reveal_strlit("github_existing");
        assert("github"@ + "_create"@ =~= "github_create"@);
        assert("github"@ + "_existing"@ =~= "github_existing"@);
    }
    if str_eq(step, "fields") {
        check_setup_path(values)
    } else if str_eq(step, "github_create") {
        let required: [&str; 2] = ["app_name", "owner_type"];
        let optional_keys: [&str; 1] = ["account"];
        proof {
            assert(required@ =~= seq!["app_name", "owner_type"]);
            assert(optional_keys@ =~= seq!["account"]);
        }
        input(values, &required, &optional_keys)
    } else if str_eq(step, "github_existing") {
        let required: [&str; 4] = ["app_id", "private_key", "installation_id", "webhook_secret"];
        let none: [&str; 0] = [];
        proof {
            assert(required@ =~= seq!["app_id", "private_key", "installation_id", "webhook_secret"]);
            assert(none@ =~= Seq::<&str>::empty());
        }
        input(values, &required, &none)
    } else {
        Err(invalid("This step requires a provider callback"))
    }
}

/// A GitHub organization name: letters, digits and hyphens.
pub open spec fn organization_name(name: Seq<u8>) -> bool {
    forall|i: int|
        0 <= i < name.len() ==> {
            let b = #[trigger] name[i];
            (48 <= b <= 57) || (65 <= b <= 90) || (97 <= b <= 122) || b == 45
        }
}

/// Where on GitHub a new app is created for the chosen owner.
#[derive(Debug)]
pub enum AppOwner {
    /// `organizations/{account}/settings/apps/new`.
    Organization(String),
    /// `settings/apps/new`.
    User,
}

/// The owner of the app to create, from the create form: an organization with
/// a valid name, or the signed-in user.
pub fn app_owner(values: &Values) -> (r: Result<AppOwner, Error>)
    ensures
        match r {
            Ok(AppOwner::Organization(account)) => lookup(values@, "owner_type"@) == Some(
                "organization"@,
            ) && lookup(values@, "account"@) == Some(account@) && organization_name(
                vstd::utf8::encode_utf8(account@),
            ),
            Ok(AppOwner::User) => lookup(values@, "owner_type"@) == Some("user"@),
            Err(e) => e@ is Invalid,
        },
{
    let kind = value(values, "owner_type")?;
    if str_eq(kind, "organization") {
        let account = value(values, "account")?;
        let b = account.as_bytes();
        let mut i: usize = 0;
        while i < b.len()
            invariant
                b@ == account.spec_bytes(),
                0 <= i <= b@.len(),
                forall|k: int|
                    0 <= k < i ==> {
                        let x = #[trigger] b@[k];
                        (48 <= x <= 57) || (65 <= x <= 90) || (97 <= x <= 122) || x == 45
                    },
            decreases b@.len() - i,
        {
            let x = b[i];
            if !((48 <= x && x <= 57) || (65 <= x && x <= 90) || (97 <= x && x <= 122) || x == 45) {
                return Err(invalid("Invalid GitHub organization name"));
            }
            i = i + 1;
        }
        let owned = account.to_owned();
        Ok(AppOwner::Organization(owned))
    } else if str_eq(kind, "user") {
        Ok(AppOwner::User)
    } else {
        Err(invalid("Invalid GitHub app owner"))
    }
}


/// GitHub's callback after creating an app from the manifest carries a code
/// and no installation, and fits the manifest step; one after installing
/// carries an installation and no code, and fits the install step. Each
/// shape is refused at the other step unless the user denied.
pub proof fn law_callback_shapes(parameters: Seq<(String, String)>, denied: bool)
    ensures
        given(parameters, "code"@) && !given(parameters, "installation_id"@) ==> {
            &&& github_accepts("github_manifest"@, parameters, denied)
            &&& github_accepts("github_install"@, parameters, denied) == denied
        },
        given(parameters, "installation_id"@) && !given(parameters, "code"@) ==> {
            &&& github_accepts("github_install"@, parameters, denied)
            &&& github_accepts("github_manifest"@, parameters, denied) == denied
        },
        denied ==> github_accepts("github_manifest"@, parameters, denied) && github_accepts("github_install"@, parameters, denied),
{
    reveal_strlit("github_manifest");
    reveal_strlit("github_install");
    assert("github_manifest"@[7] != "github_install"@[7]);
}

} // verus!
