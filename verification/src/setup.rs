//! The rules of the connection service around a setup: the service's public
//! address, backend tokens of remote providers, what the setup broker shows,
//! and the links and checks of provider callbacks.
use vstd::prelude::*;
use crate::address::{UrlParts, parse_url, parsed_url, opt_view};
use crate::crypto::{base64, base64_url, constant_time_eq, sha256, sha256_digest};
use crate::error::{Error, Fault, invalid};
use crate::ids::{hyphenated, uuid_text};
use crate::model::{Action, ConnectionType, Driver, Provider, ProviderKind, Values, bounded, find, lookup, oversized, source_driver};
use crate::address::{endpoint, endpoint_fault};
use crate::json::{key_less, str_less};
use crate::text::{blank, is_blank, blen, byte_len, str_eq, strip_end, trim_end_char};
use vstd::string::*;
use vstd::utf8::*;

verus! {

// ---------------------------------------------------------------------------
// The public address

/// Why a public URL is refused, if it is.
pub open spec fn public_url_fault(raw: Seq<char>) -> Option<Fault> {
    match parsed_url(raw) {
        None => Some(Fault::Invalid("Invalid public URL"@)),
        Some(u) => if !(u.scheme == "http"@ || u.scheme == "https"@) || u.host is None
            || u.username.len() > 0 || u.password is Some || u.fragment is Some
        {
            Some(Fault::Invalid("Public URL must be HTTP(S) without credentials or fragment"@))
        } else if u.query is Some {
            Some(Fault::Invalid("Public URL cannot contain a query"@))
        } else {
            None
        },
    }
}

/// The base the service builds its links on: an HTTP(S) URL without
/// credentials, query or fragment, kept without trailing slashes.
pub fn public_base(raw: &str) -> (r: Result<String, Error>)
    ensures
        match r {
            Ok(b) => public_url_fault(raw@) is None && b@ == strip_end(raw@, '/'),
            Err(e) => public_url_fault(raw@) == Some(e@),
        },
{
    let url = match parse_url(raw) {
        Some(u) => u,
        None => return Err(invalid("Invalid public URL")),
    };
    let web = str_eq(url.scheme.as_str(), "http") || str_eq(url.scheme.as_str(), "https");
    if !web || url.host.is_none() || url.username.as_str().unicode_len() > 0 || url.password.is_some()
        || url.fragment.is_some()
    {
        return Err(invalid("Public URL must be HTTP(S) without credentials or fragment"));
    }
    if url.query.is_some() {
        return Err(invalid("Public URL cannot contain a query"));
    }
    Ok(trim_end_char(raw, '/').to_owned())
}

/// The path provider callbacks arrive on.
pub const CALLBACK_PATH: &'static str = "/connections/callback";

/// Where providers send a user back to.
pub fn callback_url(public: &str) -> (r: String)
    ensures
        r@ == public@ + "/connections/callback"@,
{
    let mut r = public.to_owned();
    r.append(CALLBACK_PATH);
    r
}

/// The link that opens the setup broker for a setup.
pub fn brokering_url(public: &str, setup: u128, token: &str) -> (r: String)
    ensures
        r@ == public@ + "/connections/broker/"@ + hyphenated(setup) + "?connection_setup_token="@ + token@,
{
    let mut r = public.to_owned();
    r.append("/connections/broker/");
    let id = uuid_text(setup);
    r.append(id.as_str());
    r.append("?connection_setup_token=");
    r.append(token);
    r
}

/// The state a provider callback carries back: the setup and its callback token.
pub fn callback_state(setup: u128, token: &str) -> (r: String)
    ensures
        r@ == hyphenated(setup) + "."@ + token@,
{
    let mut r = uuid_text(setup);
    r.append(".");
    r.append(token);
    r
}

/// Where a channel-capable connection receives provider webhooks.
pub fn webhook_url(public: &str, connection: u128, channel_capable: bool) -> (r: Option<String>)
    ensures
        channel_capable <==> r is Some,
        match r {
            Some(u) => u@ == public@ + "/connections/webhooks/"@ + hyphenated(connection),
            None => true,
        },
{
    if !channel_capable {
        return None;
    }
    let mut r = public.to_owned();
    r.append("/connections/webhooks/");
    let id = uuid_text(connection);
    r.append(id.as_str());
    Some(r)
}

// ---------------------------------------------------------------------------
// Registering providers

/// A backend token a remote provider may be registered with: 32 to 1024
/// bytes, each a visible ASCII character.
pub open spec fn acceptable_token(t: Seq<u8>) -> bool {
    &&& 32 <= t.len() <= 1024
    &&& forall|i: int| 0 <= i < t.len() ==> 0x21 <= #[trigger] t[i] <= 0x7e
}

/// Whether a provider offers a connection type with a custom driver.
pub open spec fn has_custom(types: Seq<ConnectionType>) -> bool {
    exists|i: int| 0 <= i < types.len() && source_driver((#[trigger] types[i]).credential_source) == Driver::Custom
}

/// Whether a registration seals a backend token, or why it is refused: a
/// remote provider brings an acceptable token, or none where it has no custom
/// setup to call; any other provider brings none.
pub open spec fn token_decision(remote: bool, custom: bool, token: Option<Seq<u8>>) -> Result<bool, Fault> {
    match token {
        Some(t) => if remote && acceptable_token(t) {
            Ok(true)
        } else {
            Err(Fault::Invalid("Remote providers require a backend token of at least 32 characters"@))
        },
        None => if !remote || !custom {
            Ok(false)
        } else {
            Err(Fault::Invalid("Remote providers require a backend token of at least 32 characters"@))
        },
    }
}

/// The byte view of an optional token.
pub open spec fn token_bytes(token: Option<&str>) -> Option<Seq<u8>> {
    match token {
        Some(t) => Some(t.spec_bytes()),
        None => None,
    }
}

/// Whether registering `provider` seals `token` as its backend authorization.
pub fn backend_authorization(provider: &Provider, token: Option<&str>) -> (r: Result<bool, Error>)
    ensures
        match r {
            Ok(seal) => token_decision(provider.kind is Remote, has_custom(provider.connection_types@),
                token_bytes(token)) == Ok::<bool, Fault>(seal),
            Err(e) => token_decision(provider.kind is Remote, has_custom(provider.connection_types@),
                token_bytes(token)) == Err::<bool, Fault>(e@),
        },
{
    let remote = provider.kind.remote().is_some();
    let mut custom = false;
    let mut i: usize = 0;
    while i < provider.connection_types.len()
        invariant
            0 <= i <= provider.connection_types@.len(),
            custom == exists|j: int| 0 <= j < i
                && source_driver((#[trigger] provider.connection_types@[j]).credential_source) == Driver::Custom,
        decreases provider.connection_types@.len() - i,
    {
        if provider.connection_types[i].driver() == Driver::Custom {
            custom = true;
        }
        proof {
            if source_driver(provider.connection_types@[i as int].credential_source) == Driver::Custom {
                assert(exists|j: int| 0 <= j < i + 1
                    && source_driver((#[trigger] provider.connection_types@[j]).credential_source) == Driver::Custom);
            }
        }
        i = i + 1;
    }
    match token {
        Some(t) => {
            let b = t.as_bytes();
            let mut ok = remote && b.len() >= 32 && b.len() <= 1024;
            let mut k: usize = 0;
            while ok && k < b.len()
                invariant
                    b@ == t.spec_bytes(),
                    0 <= k <= b@.len(),
                    ok ==> forall|j: int| 0 <= j < k ==> 0x21 <= #[trigger] b@[j] <= 0x7e,
                    ok ==> remote && 32 <= b@.len() <= 1024,
                    !ok ==> !(remote && acceptable_token(b@)),
                decreases b@.len() - k,
            {
                if b[k] < 0x21 || b[k] > 0x7e {
                    ok = false;
                }
                k = k + 1;
            }
            if ok {
                Ok(true)
            } else {
                Err(invalid("Remote providers require a backend token of at least 32 characters"))
            }
        },
        None => if !remote || !custom {
            Ok(false)
        } else {
            Err(invalid("Remote providers require a backend token of at least 32 characters"))
        },
    }
}

// ---------------------------------------------------------------------------
// Starting a connection

/// A connection name is required and at most 200 bytes.
pub open spec fn name_ok(name: Seq<char>) -> bool {
    !blank(name) && blen(name) <= 200
}

/// Checks the name a connection is started with.
pub fn check_connection_name(name: &str) -> (r: Result<(), Error>)
    ensures
        r is Ok <==> name_ok(name@),
        match r {
            Err(e) => e@ == Fault::Invalid("Connection name is required and at most 200 bytes"@),
            Ok(_) => true,
        },
{
    if is_blank(name) || byte_len(name) > 200 {
        Err(invalid("Connection name is required and at most 200 bytes"))
    } else {
        Ok(())
    }
}

/// Starting again with an existing identifier must repeat its parameters.
pub fn check_restart(
    stored: (&str, &str, &str),
    requested: (&str, &str, &str),
) -> (r: Result<(), Error>)
    ensures
        r is Ok <==> (stored.0@ == requested.0@ && stored.1@ == requested.1@ && stored.2@ == requested.2@),
        match r {
            Err(e) => e@ == Fault::Invalid("Connection ID already exists with different parameters"@),
            Ok(_) => true,
        },
{
    if !str_eq(stored.0, requested.0) || !str_eq(stored.1, requested.1) || !str_eq(stored.2, requested.2) {
        Err(invalid("Connection ID already exists with different parameters"))
    } else {
        Ok(())
    }
}

/// A stored connection: its identifier, name, provider and type.
pub type ConnectionRow = (u128, String, String, String);

/// What a stored connection holds, as text.
pub open spec fn row_view(r: ConnectionRow) -> (u128, Seq<char>, Seq<char>, Seq<char>) {
    (r.0, r.1@, r.2@, r.3@)
}

/// The first connection stored under `id`.
pub open spec fn connection_of(cs: Seq<(u128, Seq<char>, Seq<char>, Seq<char>)>, id: u128) -> Option<(u128, Seq<char>, Seq<char>, Seq<char>)>
    decreases cs.len(),
{
    if cs.len() == 0 {
        None
    } else {
        match connection_of(cs.drop_last(), id) {
            Some(r) => Some(r),
            None => if cs.last().0 == id { Some(cs.last()) } else { None },
        }
    }
}

/// The latest setup of connection `id`.
pub open spec fn latest_setup(ss: Seq<(u128, u128)>, id: u128) -> Option<u128>
    decreases ss.len(),
{
    if ss.len() == 0 {
        None
    } else if ss.last().0 == id {
        Some(ss.last().1)
    } else {
        latest_setup(ss.drop_last(), id)
    }
}

/// Connections and their setups, as `Connections::start` reads and writes them.
#[derive(Debug)]
pub struct ConnectionStore {
    pub connections: Vec<ConnectionRow>,
    /// Setups in the order they were made: the connection, then the setup.
    pub setups: Vec<(u128, u128)>,
}

impl ConnectionStore {
    pub open spec fn rows(&self) -> Seq<(u128, Seq<char>, Seq<char>, Seq<char>)> {
        self.connections@.map_values(|r: ConnectionRow| row_view(r))
    }
}

/// What starting connection `id` does to the stored connections and setups:
/// a name that is blank or over 200 bytes is refused; the connection is
/// created where `id` is new; an existing one must have the same name,
/// provider and type (else the start is refused and nothing is kept); its
/// latest setup is reused, and only where it has none does the setup
/// `fresh` begin. The answer is the setup the start continues.
pub open spec fn start_effect(
    cs: Seq<(u128, Seq<char>, Seq<char>, Seq<char>)>,
    ss: Seq<(u128, u128)>,
    id: u128,
    name: Seq<char>,
    provider: Seq<char>,
    type_id: Seq<char>,
    fresh: u128,
) -> (Result<u128, Fault>, Seq<(u128, Seq<char>, Seq<char>, Seq<char>)>, Seq<(u128, u128)>) {
    if !name_ok(name) {
        (Err(Fault::Invalid("Connection name is required and at most 200 bytes"@)), cs, ss)
    } else {
        let cs1 = match connection_of(cs, id) {
            None => cs.push((id, name, provider, type_id)),
            Some(_) => cs,
        };
        let row = connection_of(cs1, id).unwrap();
        if row.1 != name || row.2 != provider || row.3 != type_id {
            (Err(Fault::Invalid("Connection ID already exists with different parameters"@)), cs, ss)
        } else {
            match latest_setup(ss, id) {
                Some(setup) => (Ok(setup), cs1, ss),
                None => (Ok(fresh), cs1, ss.push((id, fresh))),
            }
        }
    }
}

proof fn lemma_connection_pushed(cs: Seq<(u128, Seq<char>, Seq<char>, Seq<char>)>, x: (u128, Seq<char>, Seq<char>, Seq<char>), id: u128)
    ensures
        connection_of(cs.push(x), id) == match connection_of(cs, id) {
            Some(r) => Some(r),
            None => if x.0 == id { Some(x) } else { None },
        },
{
    assert(cs.push(x).drop_last() =~= cs);
}

proof fn lemma_setup_pushed(ss: Seq<(u128, u128)>, x: (u128, u128), id: u128)
    ensures
        latest_setup(ss.push(x), id) == if x.0 == id { Some(x.1) } else { latest_setup(ss, id) },
{
    assert(ss.push(x).drop_last() =~= ss);
}

/// Starting a connection again with the same identifier and parameters
/// answers with the same setup and changes nothing more, whatever setup
/// identifier it would have begun: creation is safe to retry.
pub proof fn law_start_retry_safe(
    cs: Seq<(u128, Seq<char>, Seq<char>, Seq<char>)>,
    ss: Seq<(u128, u128)>,
    id: u128,
    name: Seq<char>,
    provider: Seq<char>,
    type_id: Seq<char>,
    fresh: u128,
    again: u128,
)
    requires
        start_effect(cs, ss, id, name, provider, type_id, fresh).0 is Ok,
    ensures
        ({
            let (r1, cs1, ss1) = start_effect(cs, ss, id, name, provider, type_id, fresh);
            start_effect(cs1, ss1, id, name, provider, type_id, again) == (r1, cs1, ss1)
        }),
{
    lemma_connection_pushed(cs, (id, name, provider, type_id), id);
    lemma_setup_pushed(ss, (id, fresh), id);
}

impl ConnectionStore {
    /// The first connection stored under `id`, by position.
    fn find_connection(&self, id: u128) -> (r: Option<usize>)
        ensures
            match r {
                Some(i) => i < self.connections@.len() && connection_of(self.rows(), id) == Some(self.rows()[i as int]),
                None => connection_of(self.rows(), id) is None,
            },
    {
        let mut i: usize = 0;
        while i < self.connections.len()
            invariant
                0 <= i <= self.connections@.len(),
                connection_of(self.rows().subrange(0, i as int), id) is None,
            decreases self.connections@.len() - i,
        {
            proof {
                assert(self.rows().subrange(0, i as int + 1).drop_last() =~= self.rows().subrange(0, i as int));
            }
            if self.connections[i].0 == id {
                proof {
                    lemma_connection_prefix(self.rows(), i as int + 1, id);
                }
                return Some(i);
            }
            i = i + 1;
        }
        proof {
            assert(self.rows().subrange(0, self.connections@.len() as int) =~= self.rows());
        }
        None
    }

    /// The latest setup of connection `id`.
    fn latest(&self, id: u128) -> (r: Option<u128>)
        ensures
            r == latest_setup(self.setups@, id),
    {
        let mut i: usize = self.setups.len();
        proof {
            assert(self.setups@.subrange(0, i as int) =~= self.setups@);
        }
        while i > 0
            invariant
                0 <= i <= self.setups@.len(),
                latest_setup(self.setups@, id) == latest_setup(self.setups@.subrange(0, i as int), id),
            decreases i,
        {
            proof {
                assert(self.setups@.subrange(0, i as int).drop_last() =~= self.setups@.subrange(0, i as int - 1));
            }
            if self.setups[i - 1].0 == id {
                return Some(self.setups[i - 1].1);
            }
            i = i - 1;
        }
        None
    }

    /// Starts connection `id` (see `start_effect`), beginning setup `fresh`
    /// where it has none; answers with the setup the start continues.
    pub fn start(&mut self, id: u128, name: &str, provider: &str, type_id: &str, fresh: u128) -> (r: Result<u128, Error>)
        ensures
            ({
                let (want, cs, ss) = start_effect(old(self).rows(), old(self).setups@, id, name@, provider@, type_id@, fresh);
                &&& final(self).rows() == cs
                &&& final(self).setups@ == ss
                &&& match r {
                    Ok(s) => want == Ok::<u128, Fault>(s),
                    Err(e) => want == Err::<u128, Fault>(e@),
                }
            }),
    {
        match check_connection_name(name) {
            Ok(()) => {},
            Err(e) => return Err(e),
        }
        let ghost cs0 = self.rows();
        let at = match self.find_connection(id) {
            Some(i) => i,
            None => self.connections.len(),
        };
        let existing = at < self.connections.len();
        if existing {
            let same = str_eq(self.connections[at].1.as_str(), name) && str_eq(self.connections[at].2.as_str(), provider)
                && str_eq(self.connections[at].3.as_str(), type_id);
            if !same {
                return Err(invalid("Connection ID already exists with different parameters"));
            }
        } else {
            self.connections.push((id, name.to_owned(), provider.to_owned(), type_id.to_owned()));
            proof {
                assert(self.rows() =~= cs0.push((id, name@, provider@, type_id@)));
                lemma_connection_pushed(cs0, (id, name@, provider@, type_id@), id);
            }
        }
        match self.latest(id) {
            Some(s) => Ok(s),
            None => {
                self.setups.push((id, fresh));
                Ok(fresh)
            },
        }
    }
}

/// The first connection under `id` among all is the one among the first
/// `k` where those hold one.
proof fn lemma_connection_prefix(cs: Seq<(u128, Seq<char>, Seq<char>, Seq<char>)>, k: int, id: u128)
    requires
        0 < k <= cs.len(),
        connection_of(cs.subrange(0, k - 1), id) is None,
        cs[k - 1].0 == id,
    ensures
        connection_of(cs, id) == Some(cs[k - 1]),
    decreases cs.len() - k,
{
    if k == cs.len() {
        assert(cs.drop_last() =~= cs.subrange(0, k - 1));
    } else {
        assert(cs.drop_last().subrange(0, k - 1) =~= cs.subrange(0, k - 1));
        lemma_connection_prefix(cs.drop_last(), k, id);
    }
}

/// A connection is started with at most one channel assignment.
pub fn check_assignments(count: usize) -> (r: Result<(), Error>)
    ensures
        r is Ok <==> count <= 1,
        match r {
            Err(e) => e@ == Fault::Invalid("Only one channel assignment is supported"@),
            Ok(_) => true,
        },
{
    if count > 1 {
        Err(invalid("Only one channel assignment is supported"))
    } else {
        Ok(())
    }
}

// ---------------------------------------------------------------------------
// What the broker shows

/// What the broker shows next, where the setup's own state decides it: `None`
/// where the provider's adapter decides.
pub enum Shown {
    Working,
    Complete,
    Cancelled,
    Failed,
    Redirect(Seq<char>),
    Form,
}

/// What the setup's state shows, or the refusal of a redirect step without a
/// redirect, or `None` where the adapter decides.
pub open spec fn shown(
    claimed: bool,
    step: Seq<char>,
    redirect: Option<Seq<char>>,
    remote_custom: bool,
) -> Result<Option<Shown>, Fault> {
    if claimed {
        Ok(Some(Shown::Working))
    } else if step == "complete"@ {
        Ok(Some(Shown::Complete))
    } else if step == "cancelled"@ {
        Ok(Some(Shown::Cancelled))
    } else if step == "failed"@ {
        Ok(Some(Shown::Failed))
    } else if step == "working"@ {
        Ok(Some(Shown::Working))
    } else if step == "provider_redirect"@ {
        match redirect {
            Some(u) => Ok(Some(Shown::Redirect(u))),
            None => Err(Fault::Invalid("Provider redirect missing"@)),
        }
    } else if remote_custom {
        Ok(Some(Shown::Form))
    } else {
        Ok(None)
    }
}

/// What an action shows.
pub open spec fn shows(a: Action) -> Option<Shown> {
    match a {
        Action::Working => Some(Shown::Working),
        Action::Complete => Some(Shown::Complete),
        Action::Cancelled => Some(Shown::Cancelled),
        Action::Failed => Some(Shown::Failed),
        Action::Redirect { url } => Some(Shown::Redirect(url@)),
        Action::Form => Some(Shown::Form),
        Action::FormPost { .. } => None,
    }
}

/// The broker's next action from the setup's state: a claimed setup is
/// working; a finished one shows how it ended; a redirect step sends the user
/// to the provider; a remote provider's custom setup shows its form; anything
/// else is the adapter's to decide (`None`).
pub fn projected_action(
    claimed: bool,
    step: &str,
    redirect: Option<&str>,
    remote_custom: bool,
) -> (r: Result<Option<Action>, Error>)
    ensures
        match r {
            Ok(Some(a)) => shown(claimed, step@, opt_str(redirect), remote_custom) == Ok::<Option<Shown>, Fault>(shows(a)),
            Ok(None) => shown(claimed, step@, opt_str(redirect), remote_custom) == Ok::<Option<Shown>, Fault>(None),
            Err(e) => shown(claimed, step@, opt_str(redirect), remote_custom) == Err::<Option<Shown>, Fault>(e@),
        },
{
    if claimed {
        Ok(Some(Action::Working))
    } else if str_eq(step, "complete") {
        Ok(Some(Action::Complete))
    } else if str_eq(step, "cancelled") {
        Ok(Some(Action::Cancelled))
    } else if str_eq(step, "failed") {
        Ok(Some(Action::Failed))
    } else if str_eq(step, "working") {
        Ok(Some(Action::Working))
    } else if str_eq(step, "provider_redirect") {
        match redirect {
            Some(u) => Ok(Some(Action::Redirect { url: u.to_owned() })),
            None => Err(invalid("Provider redirect missing")),
        }
    } else if remote_custom {
        Ok(Some(Action::Form))
    } else {
        Ok(None)
    }
}

/// The text of an optional string slice.
pub open spec fn opt_str(o: Option<&str>) -> Option<Seq<char>> {
    match o {
        Some(s) => Some(s@),
        None => None,
    }
}

/// The page of the setup UI a provider's custom setup uses: a remote
/// provider's own pages, found by its identifier in URL-safe base64, or the
/// built-in page of its adapter.
pub fn ui_path(provider: &Provider, local: &str) -> (r: String)
    ensures
        r@ == match provider.kind {
            ProviderKind::Remote(_) => "/connections/ui/remote/"@ + base64(encode_utf8(provider.id@), true, false)
                + "/index.html"@,
            _ => "/catalog/"@ + local@ + "/ui"@,
        },
{
    if provider.kind.remote().is_some() {
        let mut r = "/connections/ui/remote/".to_owned();
        let id = base64_url(provider.id.as_str().as_bytes());
        r.append(id.as_str());
        r.append("/index.html");
        r
    } else {
        let mut r = "/catalog/".to_owned();
        r.append(local);
        r.append("/ui");
        r
    }
}

/// The setup UI page the broker opens: a custom driver's own pages, or the
/// standard page otherwise.
pub fn broker_ui_path(driver: Driver, provider: &Provider, local: &str) -> (r: String)
    ensures
        r@ == if driver == Driver::Custom {
            match provider.kind {
                ProviderKind::Remote(_) => "/connections/ui/remote/"@ + base64(encode_utf8(provider.id@), true, false)
                    + "/index.html"@,
                _ => "/catalog/"@ + local@ + "/ui"@,
            }
        } else {
            "/catalog/_standard/ui"@
        },
{
    if driver == Driver::Custom {
        ui_path(provider, local)
    } else {
        "/catalog/_standard/ui".to_owned()
    }
}

// ---------------------------------------------------------------------------
// Provider callbacks

/// A callback is taken when the digest of its state is the setup's callback
/// hash and the setup has not expired.
pub open spec fn callback_valid(state: Seq<u8>, hash: Seq<u8>, expires_at: i64, now: i64) -> bool {
    sha256_digest(state) == hash && expires_at > now
}

/// Checks a provider callback's state, compared in constant time, and the
/// setup's expiry.
pub fn check_callback(state: &str, hash: &[u8], expires_at: i64, now: i64) -> (r: Result<(), Error>)
    ensures
        r is Ok <==> callback_valid(state.spec_bytes(), hash@, expires_at, now),
        match r {
            Err(e) => e@ == Fault::Invalid("Invalid or expired provider callback"@),
            Ok(_) => true,
        },
{
    let digest = sha256(state.as_bytes());
    if !constant_time_eq(digest.as_slice(), hash) || expires_at <= now {
        Err(invalid("Invalid or expired provider callback"))
    } else {
        Ok(())
    }
}

/// What a valid callback leads to.
#[derive(Clone, Copy, PartialEq, Eq, Debug, Structural)]
pub enum CallbackRoute {
    /// The setup already ended: the user only gets the broker link back.
    Finished,
    /// The remote provider's custom setup takes the callback.
    Remote,
    /// The provider's adapter takes the callback.
    Adapter,
    /// The parameters do not fit the setup's step.
    Unexpected,
}

/// Where a valid callback goes: nowhere once the setup ended; to the remote
/// provider while it redirected the user; to the adapter where it accepts the
/// parameters; refused otherwise.
pub open spec fn callback_route(terminal: bool, remote_custom: bool, step: Seq<char>, accepts: bool) -> CallbackRoute {
    if terminal {
        CallbackRoute::Finished
    } else if remote_custom && step == "provider_redirect"@ {
        CallbackRoute::Remote
    } else if accepts {
        if remote_custom { CallbackRoute::Remote } else { CallbackRoute::Adapter }
    } else {
        CallbackRoute::Unexpected
    }
}

/// Routes a valid callback.
pub fn route_callback(step: &str, remote_custom: bool, accepts: bool) -> (r: CallbackRoute)
    ensures
        r == callback_route(crate::model::is_terminal(step@), remote_custom, step@, accepts),
{
    if crate::model::terminal(step) {
        CallbackRoute::Finished
    } else if remote_custom && str_eq(step, "provider_redirect") {
        CallbackRoute::Remote
    } else if accepts {
        if remote_custom {
            CallbackRoute::Remote
        } else {
            CallbackRoute::Adapter
        }
    } else {
        CallbackRoute::Unexpected
    }
}

/// A setup action is taken only for the setup's current action and step.
pub fn check_claim(action: u128, current_action: u128, step: &str, current_step: &str) -> (r: Result<(), Error>)
    ensures
        r is Ok <==> (action == current_action && step@ == current_step@),
        match r {
            Err(e) => e@ == Fault::Invalid("Stale or unexpected setup action"@),
            Ok(_) => true,
        },
{
    if action != current_action || !str_eq(step, current_step) {
        Err(invalid("Stale or unexpected setup action"))
    } else {
        Ok(())
    }
}

// ---------------------------------------------------------------------------
// Remote setup results

/// Where a new key goes among values in key order.
pub open spec fn value_point(acc: Seq<(String, String)>, key: Seq<char>) -> nat
    decreases acc.len(),
{
    if acc.len() == 0 {
        0
    } else if key_less(acc[0].0@, key) {
        1 + value_point(acc.drop_first(), key)
    } else {
        0
    }
}

proof fn lemma_value_point(acc: Seq<(String, String)>, key: Seq<char>, i: int)
    requires
        0 <= i <= acc.len(),
        forall|k: int| 0 <= k < i ==> key_less(#[trigger] acc[k].0@, key),
        i < acc.len() ==> !key_less(acc[i].0@, key),
    ensures
        value_point(acc, key) == i,
    decreases acc.len(),
{
    if i > 0 {
        assert forall|k: int| 0 <= k < i - 1 implies key_less(#[trigger] acc.drop_first()[k].0@, key) by {
            assert(key_less(acc[k + 1].0@, key));
        }
        lemma_value_point(acc.drop_first(), key, i - 1);
    }
}

/// The values a provider hands back, gathered into a map in key order: nothing
/// where a key comes twice.
pub open spec fn collect(fields: Seq<(String, String)>) -> Option<Seq<(String, String)>>
    decreases fields.len(),
{
    if fields.len() == 0 {
        Some(Seq::empty())
    } else {
        match collect(fields.drop_last()) {
            None => None,
            Some(acc) => {
                let e = fields.last();
                if lookup(acc, e.0@) is Some {
                    None
                } else {
                    Some(acc.insert(value_point(acc, e.0@) as int, e))
                }
            },
        }
    }
}

/// A key that comes twice among the first fields comes twice among all of them.
proof fn lemma_collect_none(f: Seq<(String, String)>, j: int)
    requires
        0 <= j <= f.len(),
        collect(f.subrange(0, j)) is None,
    ensures
        collect(f) is None,
    decreases f.len(),
{
    if j == f.len() {
        assert(f.subrange(0, j) =~= f);
    } else {
        assert(f.drop_last().subrange(0, j) =~= f.subrange(0, j));
        lemma_collect_none(f.drop_last(), j);
    }
}

/// What `provider_values` makes of a provider's fields.
pub open spec fn provider_values_result(fields: Seq<(String, String)>) -> Result<Seq<(String, String)>, Fault> {
    match collect(fields) {
        None => Err(Fault::Invalid("Duplicate provider output key"@)),
        Some(v) => if oversized(v) {
            Err(Fault::Invalid("Too many or oversized setup values"@))
        } else {
            Ok(v)
        },
    }
}

/// Gathers fields into values in key order; nothing where a key comes twice.
#[verifier::loop_isolation(false)]
pub fn gather(fields: Vec<(String, String)>) -> (r: Option<Values>)
    ensures
        match r {
            Some(v) => collect(fields@) == Some(v@),
            None => collect(fields@) is None,
        },
{
    let ghost orig = fields@;
    let n = fields.len();
    let mut rest = fields;
    let mut out: Values = Vec::new();
    let mut i: usize = 0;
    proof {
        assert(orig.subrange(0, 0) =~= Seq::<(String, String)>::empty());
    }
    while rest.len() > 0
        invariant
            n == orig.len(),
            0 <= i <= n,
            rest@ == orig.subrange(i as int, n as int),
            collect(orig.subrange(0, i as int)) == Some(out@),
        decreases rest@.len(),
    {
        let e = rest.remove(0);
        proof {
            assert(rest@ =~= orig.subrange(i + 1, n as int));
            assert(orig.subrange(0, i + 1).drop_last() =~= orig.subrange(0, i as int));
            assert(orig.subrange(0, i + 1).last() == e);
        }
        if find(&out, e.0.as_str()).is_some() {
            proof {
                lemma_collect_none(orig, i + 1);
            }
            return None;
        }
        let mut p: usize = 0;
        while p < out.len() && str_less(out[p].0.as_str(), e.0.as_str())
            invariant
                0 <= p <= out@.len(),
                forall|k: int| 0 <= k < p ==> key_less(#[trigger] out@[k].0@, e.0@),
            decreases out@.len() - p,
        {
            p = p + 1;
        }
        proof {
            lemma_value_point(out@, e.0@, p as int);
        }
        out.insert(p, e);
        i = i + 1;
    }
    proof {
        assert(orig.subrange(0, n as int) =~= orig);
    }
    Some(out)
}

/// Gathers the fields a remote provider returns into credential values,
/// refusing a key that comes twice and too many or oversized values.
pub fn provider_values(fields: Vec<(String, String)>) -> (r: Result<Values, Error>)
    ensures
        match r {
            Ok(v) => provider_values_result(fields@) == Ok::<Seq<(String, String)>, Fault>(v@),
            Err(e) => provider_values_result(fields@) == Err::<Seq<(String, String)>, Fault>(e@),
        },
{
    let out = match gather(fields) {
        Some(v) => v,
        None => return Err(invalid("Duplicate provider output key")),
    };
    match bounded(&out) {
        Ok(()) => Ok(out),
        Err(e) => Err(e),
    }
}

/// The stored backend of a provider, checked before a setup step is sent
/// to it: the provider must still be remote and hold its endpoint, its
/// authorization identity and its sealed authorization, refused in that
/// order. What comes back is the endpoint, the identity and the sealed bytes.
pub fn remote_backend(
    kind: &str,
    endpoint: Option<String>,
    authorization_id: Option<u128>,
    authorization: Option<Vec<u8>>,
) -> (r: Result<(String, u128, Vec<u8>), Error>)
    ensures
        kind@ != "remote"@ ==> (r matches Err(e) && e@ == Fault::Invalid("Provider is no longer remote"@)),
        kind@ == "remote"@ ==> match (endpoint, authorization_id, authorization) {
            (None, _, _) => (r matches Err(e) && e@ == Fault::Invalid("Remote endpoint missing"@)),
            (Some(_), None, _) => (r matches Err(e) && e@ == Fault::Invalid("Provider authorization identity missing"@)),
            (Some(_), Some(_), None) => (r matches Err(e) && e@ == Fault::Invalid("Remote provider authorization missing"@)),
            (Some(u), Some(i), Some(a)) => (r matches Ok((u2, i2, a2)) && u2@ == u@ && i2 == i && a2@ == a@),
        },
{
    if !str_eq(kind, "remote") {
        return Err(invalid("Provider is no longer remote"));
    }
    let url = match endpoint {
        Some(u) => u,
        None => return Err(invalid("Remote endpoint missing")),
    };
    let id = match authorization_id {
        Some(i) => i,
        None => return Err(invalid("Provider authorization identity missing")),
    };
    match authorization {
        Some(a) => Ok((url, id, a)),
        None => Err(invalid("Remote provider authorization missing")),
    }
}

/// What a remote provider answers a setup step with.
#[derive(Debug)]
pub enum RemoteResult {
    /// More input is needed, possibly at the provider's own page.
    AwaitInput { redirect_url: Option<String> },
    /// The setup produced credentials.
    Complete { fields: Vec<(String, String)>, account_label: Option<String> },
}

/// What the service does after a remote setup step.
#[derive(Debug)]
pub enum RemoteNext {
    /// Move the setup to `step`, recording the provider's page where there is one.
    Transition { step: &'static str, redirect_url: Option<String> },
    /// Stage the credentials and complete the setup.
    Complete { credentials: Values, account_label: Option<String> },
}

/// What follows a remote provider's answer.
pub fn remote_next(result: Option<RemoteResult>) -> (r: Result<RemoteNext, Error>)
    ensures
        match result {
            None => (r matches Err(e) && e@ == Fault::Invalid("Remote provider returned no setup result"@)),
            Some(RemoteResult::AwaitInput { redirect_url: None }) => (r matches Ok(RemoteNext::Transition { step, redirect_url })
                && step@ == "fields"@ && redirect_url is None),
            Some(RemoteResult::AwaitInput { redirect_url: Some(u) }) => match endpoint_fault(u@) {
                Some(f) => (r matches Err(e) && e@ == f),
                None => (r matches Ok(RemoteNext::Transition { step, redirect_url })
                    && step@ == "provider_redirect"@ && redirect_url == Some(u)),
            },
            Some(RemoteResult::Complete { fields, account_label }) => match provider_values_result(fields@) {
                Err(f) => (r matches Err(e) && e@ == f),
                Ok(v) => if v.len() == 0 {
                    (r matches Err(e) && e@ == Fault::Invalid("Provider returned no credentials"@))
                } else {
                    (r matches Ok(RemoteNext::Complete { credentials, account_label: l })
                        && credentials@ == v && l == account_label)
                },
            },
        },
{
    match result {
        None => Err(invalid("Remote provider returned no setup result")),
        Some(RemoteResult::AwaitInput { redirect_url }) => match redirect_url {
            Some(u) => match endpoint(u.as_str()) {
                Ok(_) => Ok(RemoteNext::Transition { step: "provider_redirect", redirect_url: Some(u) }),
                Err(e) => Err(e),
            },
            None => Ok(RemoteNext::Transition { step: "fields", redirect_url: None }),
        },
        Some(RemoteResult::Complete { fields, account_label }) => {
            let credentials = match provider_values(fields) {
                Ok(v) => v,
                Err(e) => return Err(e),
            };
            if credentials.len() == 0 {
                return Err(invalid("Provider returned no credentials"));
            }
            Ok(RemoteNext::Complete { credentials, account_label })
        },
    }
}

// ---------------------------------------------------------------------------
// Completing a setup

/// A setup is completed only while it is still the one whose credentials were
/// acquired: not ended, not expired, the same action, and claimed.
pub open spec fn still_current(step: Seq<char>, expires_at: i64, now: i64, action: u128, acquired_for: u128, claimed: bool) -> bool {
    !crate::model::is_terminal(step) && expires_at > now && action == acquired_for && claimed
}

/// Checks that a setup is still the one its credentials were acquired for.
pub fn check_completion(step: &str, expires_at: i64, now: i64, action: u128, acquired_for: u128, claimed: bool) -> (r: Result<(), Error>)
    ensures
        r is Ok <==> still_current(step@, expires_at, now, action, acquired_for, claimed),
        match r {
            Err(e) => e@ == Fault::Invalid("Setup changed while acquiring credentials"@),
            Ok(_) => true,
        },
{
    if crate::model::terminal(step) || expires_at <= now || action != acquired_for || !claimed {
        Err(invalid("Setup changed while acquiring credentials"))
    } else {
        Ok(())
    }
}

/// The setup values that become a connection's credentials: all but the
/// PKCE verifier, which only the setup needs.
pub open spec fn kept_values(values: Seq<(String, String)>) -> Seq<(String, String)> {
    values.filter(|e: (String, String)| e.0@ != "_pkce"@)
}

/// Drops the PKCE verifier from setup values.
pub fn without_pkce(values: Values) -> (r: Values)
    ensures
        r@ == kept_values(values@),
{
    let ghost v = values@;
    let n = values.len();
    let mut rest = values;
    let mut out: Values = Vec::new();
    let mut i: usize = 0;
    proof {
        assert(v.subrange(0, 0) =~= Seq::<(String, String)>::empty());
        assert(v.subrange(0, 0).filter(|e: (String, String)| e.0@ != "_pkce"@) =~= Seq::<(String, String)>::empty());
    }
    while rest.len() > 0
        invariant
            n == v.len(),
            0 <= i <= n,
            rest@ == v.subrange(i as int, n as int),
            out@ == kept_values(v.subrange(0, i as int)),
        decreases rest@.len(),
    {
        let e = rest.remove(0);
        proof {
            assert(rest@ =~= v.subrange(i + 1, n as int));
            assert(v.subrange(0, i + 1).drop_last() =~= v.subrange(0, i as int));
            assert(v.subrange(0, i + 1).last() == e);
            v.subrange(0, i as int).lemma_filter_push(e, |x: (String, String)| x.0@ != "_pkce"@);
            assert(v.subrange(0, i as int).push(e) =~= v.subrange(0, i + 1));
        }
        if !crate::text::str_eq(e.0.as_str(), "_pkce") {
            out.push(e);
        }
        i = i + 1;
    }
    proof {
        assert(v.subrange(0, n as int) =~= v);
    }
    out
}

} // verus!
