//! Registering deployments and setting an agent's deployment mode: what a
//! request must hold, and what a change of mode demands.
use vstd::prelude::*;
use crate::deployment::wire::{DeploymentMode, DeploymentSource, DeploymentTarget, RegisterDeployment, short, short_result};
use crate::error::{Error, Fault};
use crate::text::{blank, is_blank, str_eq};
use crate::address::opt_view;
use crate::crypto::{sha256, sha256_digest};
use vstd::utf8::encode_utf8;

verus! {

/// A registration request that passed its checks: the stored names of its
/// source and target and its fields as they are recorded.
#[derive(Debug)]
pub struct Registration {
    pub source: &'static str,
    pub target: &'static str,
    /// The endpoint of a direct deployment, still to pass the agent endpoint check.
    pub endpoint: Option<String>,
    pub reference: Option<String>,
    pub repository: Option<String>,
    pub commit: Option<String>,
    pub external: Option<String>,
    pub label: String,
}

/// The stored name of a registrable source.
pub open spec fn source_text(s: DeploymentSource) -> Option<Seq<char>> {
    match s {
        DeploymentSource::Ci => Some("ci"@),
        DeploymentSource::Manual => Some("manual"@),
    }
}

/// The stored name of a registrable target.
pub open spec fn target_text(t: DeploymentTarget) -> Seq<char> {
    match t {
        DeploymentTarget::Direct => "direct"@,
        DeploymentTarget::Sidecar => "sidecar"@,
        DeploymentTarget::AwsLambda => "aws_lambda"@,
    }
}

/// An optional field that is present and not blank.
pub open spec fn given(v: Option<Seq<char>>) -> Option<Seq<char>> {
    match v {
        Some(s) => if blank(s) { None } else { Some(s) },
        None => None,
    }
}

/// Whether every character is a hexadecimal digit.
pub open spec fn hex_text(s: Seq<char>) -> bool {
    forall|i: int| 0 <= i < s.len() ==> {
        let c = #[trigger] s[i];
        ('0' <= c <= '9') || ('a' <= c <= 'f') || ('A' <= c <= 'F')
    }
}

/// The refusal a field check came to, if any.
pub open spec fn err_of(r: Result<Option<Seq<char>>, Fault>) -> Option<Fault> {
    match r {
        Err(f) => Some(f),
        Ok(_) => None,
    }
}

/// Why a registration is refused, checked in this order: an endpoint that only
/// a direct deployment has and must have, a function reference (of at most
/// 2048 bytes) that only a Lambda deployment has and must have, fields over 512
/// characters, and a commit that is no hexadecimal SHA.
pub open spec fn registration_fault(r: RegisterDeployment) -> Option<Fault> {
    let direct = r.target == DeploymentTarget::Direct;
    let lambda = r.target == DeploymentTarget::AwsLambda;
    let endpoint = given(opt_view(r.endpoint_url));
    let reference = given(opt_view(r.target_reference));
    if direct && endpoint is None {
        Some(Fault::Invalid("A direct deployment requires an endpoint URL"@))
    } else if !direct && endpoint is Some {
        Some(Fault::Invalid("Only direct deployments take an endpoint URL"@))
    } else if lambda && !(reference matches Some(v) && crate::text::blen(v) <= 2048) {
        Some(Fault::Invalid("A Lambda deployment requires a function reference"@))
    } else if !lambda && reference is Some {
        Some(Fault::Invalid("Only Lambda deployments take a target reference"@))
    } else if err_of(short_result(opt_view(r.repository), "Repository"@)) is Some {
        err_of(short_result(opt_view(r.repository), "Repository"@))
    } else if err_of(short_result(opt_view(r.commit_sha), "Commit"@)) is Some {
        err_of(short_result(opt_view(r.commit_sha), "Commit"@))
    } else if (short_result(opt_view(r.commit_sha), "Commit"@) matches Ok(Some(c)) && !hex_text(c)) {
        Some(Fault::Invalid("Commit must be a hex SHA"@))
    } else if err_of(short_result(opt_view(r.external_id), "External ID"@)) is Some {
        err_of(short_result(opt_view(r.external_id), "External ID"@))
    } else if err_of(short_result(opt_view(r.label), "Label"@)) is Some {
        err_of(short_result(opt_view(r.label), "Label"@))
    } else {
        None
    }
}

/// A present, non-blank field.
fn given_field(v: Option<String>) -> (r: Option<String>)
    ensures
        opt_view(r) == given(opt_view(v)),
{
    match v {
        Some(s) => if is_blank(s.as_str()) { None } else { Some(s) },
        None => None,
    }
}

/// Whether text is a hexadecimal SHA.
fn is_hex(s: &str) -> (r: bool)
    ensures
        r == hex_text(s@),
{
    let n = s.unicode_len();
    let mut i: usize = 0;
    while i < n
        invariant
            n == s@.len(),
            0 <= i <= n,
            forall|k: int| 0 <= k < i ==> {
                let c = #[trigger] s@[k];
                ('0' <= c <= '9') || ('a' <= c <= 'f') || ('A' <= c <= 'F')
            },
        decreases n - i,
    {
        let c = s.get_char(i);
        if !(('0' <= c && c <= '9') || ('a' <= c && c <= 'f') || ('A' <= c && c <= 'F')) {
            return false;
        }
        i = i + 1;
    }
    true
}

/// Checks a registration request and reads it into what is stored.
pub fn check_registration(r: RegisterDeployment) -> (out: Result<Registration, Error>)
    ensures
        match out {
            Ok(reg) => {
                &&& registration_fault(r) is None
                &&& Some(reg.source@) == source_text(r.source)
                &&& reg.target@ == target_text(r.target)
                &&& opt_view(reg.endpoint) == given(opt_view(r.endpoint_url))
                &&& opt_view(reg.reference) == given(opt_view(r.target_reference))
                &&& short_result(opt_view(r.repository), "Repository"@) == Ok::<Option<Seq<char>>, Fault>(opt_view(reg.repository))
                &&& short_result(opt_view(r.commit_sha), "Commit"@) == Ok::<Option<Seq<char>>, Fault>(opt_view(reg.commit))
                &&& short_result(opt_view(r.external_id), "External ID"@) == Ok::<Option<Seq<char>>, Fault>(opt_view(reg.external))
                &&& match short_result(opt_view(r.label), "Label"@) {
                    Ok(Some(l)) => reg.label@ == l,
                    _ => reg.label@.len() == 0,
                }
            },
            Err(e) => registration_fault(r) == Some(e@),
        },
{
    let ghost initial = r;
    let RegisterDeployment { source, target, endpoint_url, target_reference, repository, commit_sha, external_id, label } = r;
    let source_name: &'static str = match source {
        DeploymentSource::Ci => "ci",
        DeploymentSource::Manual => "manual",
    };
    let target_name: &'static str = match target {
        DeploymentTarget::Direct => "direct",
        DeploymentTarget::Sidecar => "sidecar",
        DeploymentTarget::AwsLambda => "aws_lambda",
    };
    let direct = target == DeploymentTarget::Direct;
    let lambda = target == DeploymentTarget::AwsLambda;
    let endpoint = given_field(endpoint_url);
    if direct && endpoint.is_none() {
        return Err(Error::Invalid("A direct deployment requires an endpoint URL".to_owned()));
    }
    if !direct && endpoint.is_some() {
        return Err(Error::Invalid("Only direct deployments take an endpoint URL".to_owned()));
    }
    let reference = given_field(target_reference);
    if lambda {
        let fits = match &reference {
            Some(v) => crate::text::byte_len(v.as_str()) <= 2048,
            None => false,
        };
        if !fits {
            return Err(Error::Invalid("A Lambda deployment requires a function reference".to_owned()));
        }
    } else if reference.is_some() {
        return Err(Error::Invalid("Only Lambda deployments take a target reference".to_owned()));
    }
    let repository = match short(repository, "Repository") {
        Ok(v) => v,
        Err(e) => return Err(e),
    };
    let commit = match short(commit_sha, "Commit") {
        Ok(v) => v,
        Err(e) => return Err(e),
    };
    let hex = match &commit {
        Some(c) => is_hex(c.as_str()),
        None => true,
    };
    if !hex {
        return Err(Error::Invalid("Commit must be a hex SHA".to_owned()));
    }
    let external = match short(external_id, "External ID") {
        Ok(v) => v,
        Err(e) => return Err(e),
    };
    let label = match short(label, "Label") {
        Ok(Some(l)) => l,
        Ok(None) => String::new(),
        Err(e) => return Err(e),
    };
    Ok(Registration {
        source: source_name,
        target: target_name,
        endpoint,
        reference,
        repository,
        commit,
        external,
        label,
    })
}

/// What a sidecar does when its replica fails.
#[derive(Clone, Copy, PartialEq, Eq, Debug, Structural)]
pub enum FailureMode {
    Unspecified,
    Stop,
    Reassign,
}

/// Which deployment serves new threads.
#[derive(Clone, Copy, PartialEq, Eq, Debug, Structural)]
pub enum Routing {
    Unspecified,
    Manual,
    Latest,
}

/// The stored names of a deployment setting.
#[derive(Debug)]
pub struct Settings {
    pub mode: &'static str,
    pub failure: &'static str,
    pub routing: &'static str,
}

/// Reads the settings an owner chose, refusing an unselected mode or failure
/// policy; routing is manual only where chosen, latest otherwise.
pub fn settings(mode: Option<DeploymentMode>, failure: FailureMode, routing: Routing) -> (r: Result<Settings, Error>)
    ensures
        match r {
            Ok(s) => {
                &&& mode is Some && failure != FailureMode::Unspecified
                &&& s.mode@ == (if mode == Some(DeploymentMode::Sidecar) { "sidecar"@ } else { "gateway"@ })
                &&& s.failure@ == (if failure == FailureMode::Stop { "stop"@ } else { "reassign"@ })
                &&& s.routing@ == (if routing == Routing::Manual { "manual"@ } else { "latest"@ })
            },
            Err(e) => if mode is None {
                e@ == Fault::Invalid("Select gateway or sidecar deployment"@)
            } else {
                failure == FailureMode::Unspecified && e@ == Fault::Invalid("Select a failure policy"@)
            },
        },
{
    let mode: &'static str = match mode {
        Some(DeploymentMode::Gateway) => "gateway",
        Some(DeploymentMode::Sidecar) => "sidecar",
        None => return Err(Error::Invalid("Select gateway or sidecar deployment".to_owned())),
    };
    let failure: &'static str = match failure {
        FailureMode::Stop => "stop",
        FailureMode::Reassign => "reassign",
        FailureMode::Unspecified => return Err(Error::Invalid("Select a failure policy".to_owned())),
    };
    let routing: &'static str = match routing {
        Routing::Manual => "manual",
        _ => "latest",
    };
    Ok(Settings { mode, failure, routing })
}

/// A change of deployment mode needs the agent paused and its work stopped;
/// says whether the mode changes.
pub fn check_mode_change(current: &str, requested: &str, paused: bool, active_work: bool) -> (r: Result<bool, Error>)
    ensures
        match r {
            Ok(changed) => changed == (current@ != requested@) && (changed ==> paused && !active_work),
            Err(e) => current@ != requested@ && if !paused {
                e@ == Fault::AgentNotPaused
            } else {
                active_work && e@ == Fault::Invalid("Wait for active work to stop before changing deployment"@)
            },
        },
{
    if str_eq(current, requested) {
        return Ok(false);
    }
    if !paused {
        return Err(Error::AgentNotPaused);
    }
    if active_work {
        return Err(Error::Invalid("Wait for active work to stop before changing deployment".to_owned()));
    }
    Ok(true)
}

/// Under latest routing a new deployment that matches the agent's mode starts
/// serving new threads at once.
pub fn promotes_at_once(routing: &str, mode: &str, target: &str) -> (r: bool)
    ensures
        r == (routing@ == "latest"@ && target@ == (if mode@ == "sidecar"@ { "sidecar"@ } else { "direct"@ })),
{
    str_eq(routing, "latest") && str_eq(crate::deployment::wire::target_for_mode(mode), target)
}

/// A deployment of an agent as the mode change reads it.
#[derive(Debug)]
pub struct DeploymentRow {
    pub id: u128,
    pub target: String,
    /// When it was registered; a later one is newer.
    pub created: i64,
    pub retired: bool,
}

/// Whether a deployment may serve under a target.
pub open spec fn candidate(d: DeploymentRow, target: Seq<char>) -> bool {
    !d.retired && d.target@ == target
}

/// The position of the newest deployment that may serve under a target (the
/// first of those registered last).
pub open spec fn newest_at(rows: Seq<DeploymentRow>, target: Seq<char>, i: int) -> bool {
    &&& 0 <= i < rows.len()
    &&& candidate(rows[i], target)
    &&& forall|j: int| 0 <= j < rows.len() && candidate(#[trigger] rows[j], target) ==>
        rows[j].created < rows[i].created || (rows[j].created == rows[i].created && i <= j)
}

/// The target a mode serves through.
pub open spec fn mode_target(mode: Seq<char>) -> Seq<char> {
    if mode == "sidecar"@ { "sidecar"@ } else { "direct"@ }
}

/// The outcome of a mode change.
#[derive(Debug)]
pub struct ModeChange {
    /// Whether the mode changed.
    pub changed: bool,
    /// The deployment that serves afterwards.
    pub serving: Option<u128>,
}

/// Changes an agent's deployment mode under the same rules as
/// `check_mode_change`. The deployments are only read, so a change retires
/// none of them; the newest deployment of the new mode's target serves
/// afterwards, or none where there is no such deployment. Keeping the mode
/// keeps the serving deployment.
pub fn change_mode(
    current: &str,
    requested: &str,
    paused: bool,
    active_work: bool,
    serving: Option<u128>,
    rows: &Vec<DeploymentRow>,
) -> (r: Result<ModeChange, Error>)
    ensures
        match r {
            Ok(c) => {
                &&& c.changed == (current@ != requested@)
                &&& c.changed ==> paused && !active_work
                &&& !c.changed ==> c.serving == serving
                &&& c.changed ==> match c.serving {
                    Some(id) => exists|i: int| newest_at(rows@, mode_target(requested@), i) && rows@[i].id == id,
                    None => forall|j: int| 0 <= j < rows@.len() ==> !candidate(#[trigger] rows@[j], mode_target(requested@)),
                }
            },
            Err(e) => current@ != requested@ && if !paused {
                e@ == Fault::AgentNotPaused
            } else {
                active_work && e@ == Fault::Invalid("Wait for active work to stop before changing deployment"@)
            },
        },
{
    let changed = match check_mode_change(current, requested, paused, active_work) {
        Ok(c) => c,
        Err(e) => return Err(e),
    };
    if !changed {
        return Ok(ModeChange { changed, serving });
    }
    let target = crate::deployment::wire::target_for_mode(requested);
    let mut best: Option<usize> = None;
    let mut i: usize = 0;
    while i < rows.len()
        invariant
            target@ == mode_target(requested@),
            0 <= i <= rows@.len(),
            match best {
                Some(b) => {
                    &&& b < i
                    &&& candidate(rows@[b as int], target@)
                    &&& forall|j: int| 0 <= j < i && candidate(#[trigger] rows@[j], target@) ==>
                        rows@[j].created < rows@[b as int].created
                        || (rows@[j].created == rows@[b as int].created && b <= j)
                },
                None => forall|j: int| 0 <= j < i ==> !candidate(#[trigger] rows@[j], target@),
            },
        decreases rows@.len() - i,
    {
        let d = &rows[i];
        if !d.retired && str_eq(d.target.as_str(), target) {
            match best {
                Some(b) => {
                    if rows[b].created < d.created {
                        best = Some(i);
                    }
                },
                None => {
                    best = Some(i);
                },
            }
        }
        i = i + 1;
    }
    match best {
        Some(b) => {
            proof {
                assert(newest_at(rows@, mode_target(requested@), b as int));
            }
            Ok(ModeChange { changed, serving: Some(rows[b].id) })
        },
        None => Ok(ModeChange { changed, serving: None }),
    }
}

/// A deployment token as stored: the SHA-256 digest of the token, whose
/// deployment it is, and whether that deployment was retired.
#[derive(Debug)]
pub struct TokenRow {
    pub hash: Vec<u8>,
    pub agent: u128,
    pub deployment: u128,
    pub retired: bool,
}

/// Whether a stored token row authenticates a presented token: its
/// deployment is not retired and it holds the token's digest.
pub open spec fn authenticates(r: TokenRow, token: Seq<char>) -> bool {
    !r.retired && r.hash@ == sha256_digest(encode_utf8(token))
}

/// The agent and deployment a token belongs to: those of the first stored
/// row that authenticates it; any other token is refused.
pub fn authenticate(rows: &Vec<TokenRow>, token: &str) -> (r: Result<(u128, u128), Error>)
    ensures
        match r {
            Ok((agent, deployment)) => exists|i: int| 0 <= i < rows@.len() && #[trigger] authenticates(rows@[i], token@)
                && rows@[i].agent == agent && rows@[i].deployment == deployment,
            Err(e) => e@ == Fault::Denied && forall|i: int| 0 <= i < rows@.len() ==> !#[trigger] authenticates(rows@[i], token@),
        },
{
    let digest = sha256(token.as_bytes());
    let mut i: usize = 0;
    while i < rows.len()
        invariant
            digest@ == sha256_digest(encode_utf8(token@)),
            0 <= i <= rows@.len(),
            forall|j: int| 0 <= j < i ==> !#[trigger] authenticates(rows@[j], token@),
        decreases rows@.len() - i,
    {
        let row = &rows[i];
        if !row.retired && bytes_equal(row.hash.as_slice(), digest.as_slice()) {
            proof {
                assert(authenticates(rows@[i as int], token@));
            }
            return Ok((row.agent, row.deployment));
        }
        i = i + 1;
    }
    Err(Error::Denied)
}

/// Whether two byte strings are equal.
fn bytes_equal(a: &[u8], b: &[u8]) -> (r: bool)
    ensures
        r == (a@ == b@),
{
    if a.len() != b.len() {
        return false;
    }
    let mut i: usize = 0;
    while i < a.len()
        invariant
            a@.len() == b@.len(),
            0 <= i <= a@.len(),
            forall|j: int| 0 <= j < i ==> a@[j] == b@[j],
        decreases a@.len() - i,
    {
        if a[i] != b[i] {
            return false;
        }
        i = i + 1;
    }
    proof {
        assert(a@ =~= b@);
    }
    true
}

/// A retired deployment's token no longer authenticates.
pub proof fn law_retired_tokens_fail(r: TokenRow, token: Seq<char>)
    requires
        r.retired,
    ensures
        !authenticates(r, token),
{
}

/// A replica registered for an agent's deployment, with its addresses.
#[derive(Debug)]
pub struct Replica {
    pub agent: u128,
    pub instance: u128,
    pub deployment: u128,
    pub public_url: String,
    pub runtime_url: String,
}

/// What a replica registry holds, as plain values.
pub open spec fn replica_view(r: Replica) -> (u128, u128, u128, Seq<char>, Seq<char>) {
    (r.agent, r.instance, r.deployment, r.public_url@, r.runtime_url@)
}

/// The registry after a replica registers: the entry for the agent and
/// instance is replaced in place, or added at the end where there is none.
pub open spec fn registered(
    rs: Seq<(u128, u128, u128, Seq<char>, Seq<char>)>,
    e: (u128, u128, u128, Seq<char>, Seq<char>),
) -> Seq<(u128, u128, u128, Seq<char>, Seq<char>)> {
    if exists|i: int| 0 <= i < rs.len() && (#[trigger] rs[i]).0 == e.0 && rs[i].1 == e.1 {
        let i = choose|i: int| 0 <= i < rs.len() && (#[trigger] rs[i]).0 == e.0 && rs[i].1 == e.1;
        rs.update(i, e)
    } else {
        rs.push(e)
    }
}

/// Whether no agent and instance is registered twice.
pub open spec fn unique_keys(rs: Seq<(u128, u128, u128, Seq<char>, Seq<char>)>) -> bool {
    forall|i: int, j: int| 0 <= i < rs.len() && 0 <= j < rs.len() && i != j ==>
        !((#[trigger] rs[i]).0 == (#[trigger] rs[j]).0 && rs[i].1 == rs[j].1)
}

/// The replicas registered with the gateway.
#[derive(Debug)]
pub struct Registry {
    pub replicas: Vec<Replica>,
}

impl Registry {
    pub open spec fn entries(&self) -> Seq<(u128, u128, u128, Seq<char>, Seq<char>)> {
        self.replicas@.map_values(|r: Replica| replica_view(r))
    }

    /// Whether no agent and instance is registered twice.
    pub open spec fn wf(&self) -> bool {
        unique_keys(self.entries())
    }

    /// Registers replica `instance_id` of an agent's deployment with its
    /// addresses, replacing an earlier registration of the same replica;
    /// answers with the replica. An identifier that does not read is refused.
    #[verifier::loop_isolation(false)]
    pub fn register(
        &mut self,
        agent: u128,
        deployment: u128,
        instance_id: &str,
        public_url: &str,
        runtime_url: &str,
    ) -> (r: Result<u128, Error>)
        requires
            old(self).wf(),
        ensures
            final(self).wf(),
            match crate::ids::parsed_uuid(instance_id@) {
                None => (r matches Err(e) && e@ == Fault::Invalid("Invalid UUID"@)) && final(self).entries() == old(self).entries(),
                Some(instance) => r == Ok::<u128, Error>(instance) && final(self).entries()
                    == registered(old(self).entries(), (agent, instance, deployment, public_url@, runtime_url@)),
            },
    {
        let instance = match crate::ids::id(instance_id) {
            Ok(v) => v,
            Err(e) => return Err(e),
        };
        let entry = Replica {
            agent,
            instance,
            deployment,
            public_url: public_url.to_owned(),
            runtime_url: runtime_url.to_owned(),
        };
        let ghost e = replica_view(entry);
        let ghost rs = self.entries();
        let mut i: usize = 0;
        while i < self.replicas.len()
            invariant
                self.entries() == rs,
                self.wf(),
                0 <= i <= rs.len(),
                forall|j: int| 0 <= j < i ==> !((#[trigger] rs[j]).0 == agent && rs[j].1 == instance),
            decreases rs.len() - i,
        {
            if self.replicas[i].agent == agent && self.replicas[i].instance == instance {
                proof {
                    assert(rs[i as int] == replica_view(self.replicas@[i as int]));
                    assert(rs[i as int].0 == agent && rs[i as int].1 == instance);
                    let k = choose|k: int| 0 <= k < rs.len() && (#[trigger] rs[k]).0 == e.0 && rs[k].1 == e.1;
                    assert(k == i);
                }
                self.replicas.set(i, entry);
                proof {
                    assert(self.entries() =~= rs.update(i as int, e));
                }
                return Ok(instance);
            }
            i = i + 1;
        }
        self.replicas.push(entry);
        proof {
            assert(self.entries() =~= rs.push(e));
        }
        Ok(instance)
    }
}

/// Registering the same replica again with the same addresses changes
/// nothing: the registry is as after the first registration.
pub proof fn law_register_again(
    rs: Seq<(u128, u128, u128, Seq<char>, Seq<char>)>,
    e: (u128, u128, u128, Seq<char>, Seq<char>),
)
    requires
        unique_keys(rs),
    ensures
        registered(registered(rs, e), e) == registered(rs, e),
{
    let once = registered(rs, e);
    if exists|i: int| 0 <= i < rs.len() && (#[trigger] rs[i]).0 == e.0 && rs[i].1 == e.1 {
        let i = choose|i: int| 0 <= i < rs.len() && (#[trigger] rs[i]).0 == e.0 && rs[i].1 == e.1;
        assert(once[i] == e);
        assert(exists|k: int| 0 <= k < once.len() && (#[trigger] once[k]).0 == e.0 && once[k].1 == e.1);
        let k = choose|k: int| 0 <= k < once.len() && (#[trigger] once[k]).0 == e.0 && once[k].1 == e.1;
        if k != i {
            assert(once[k] == rs[k]);
            assert(rs[k].0 == rs[i].0 && rs[k].1 == rs[i].1);
        }
        assert(once.update(k, e) =~= once);
    } else {
        let n = rs.len() as int;
        assert(once[n] == e);
        assert(exists|k: int| 0 <= k < once.len() && (#[trigger] once[k]).0 == e.0 && once[k].1 == e.1);
        let k = choose|k: int| 0 <= k < once.len() && (#[trigger] once[k]).0 == e.0 && once[k].1 == e.1;
        if k != n {
            assert(once[k] == rs[k]);
        }
        assert(once.update(k, e) =~= once);
    }
}

} // verus!
