//! The setup pages and their assets: which origin a development server may
//! have, which paths name files of the pages, and where a remote provider's
//! page or a development asset is fetched from.
use vstd::prelude::*;
use crate::address::{UrlView, parse_url, parsed_url};
use crate::deployment::proxy::{has_prefix, strip_prefix};
use crate::crypto::base64 as base64_text;
use crate::error::{Error, Fault};
use crate::ids::{parse_uuid, parsed_uuid};
use crate::text::{str_eq, strip_end, trim_end_char};
use vstd::string::*;
use vstd::utf8::encode_utf8;
use ::base64::Engine;

verus! {

/// An HTTP(S) origin without credentials, path, query or fragment.
pub open spec fn plain_origin(u: UrlView) -> bool {
    &&& u.scheme == "http"@ || u.scheme == "https"@
    &&& u.host is Some
    &&& u.path == "/"@
    &&& u.query is None
    &&& u.fragment is None
    &&& u.username.len() == 0
    &&& u.password is None
}

/// Checks the origin of a development server for the pages.
pub fn check_dev_origin(origin: &str) -> (r: Result<(), Error>)
    ensures
        match parsed_url(origin@) {
            None => r matches Err(e) && e@ == Fault::Invalid("Invalid connection UI dev origin"@),
            Some(u) => if plain_origin(u) {
                r is Ok
            } else {
                r matches Err(e) && e@ == Fault::Invalid(
                    "Connection UI dev origin must be an HTTP(S) origin without credentials, path, query or fragment"@)
            },
        },
{
    let u = match parse_url(origin) {
        Some(u) => u,
        None => return Err(Error::Invalid("Invalid connection UI dev origin".to_owned())),
    };
    proof {
        reveal_strlit("/");
    }
    let plain = (str_eq(u.scheme.as_str(), "http") || str_eq(u.scheme.as_str(), "https"))
        && u.host.is_some()
        && str_eq(u.path.as_str(), "/")
        && u.query.is_none()
        && u.fragment.is_none()
        && u.username.unicode_len() == 0
        && u.password.is_none();
    if plain {
        Ok(())
    } else {
        Err(Error::Invalid(
            "Connection UI dev origin must be an HTTP(S) origin without credentials, path, query or fragment".to_owned(),
        ))
    }
}

/// Whether a `..` segment starts at position `k` of a path.
pub open spec fn parent_at(path: Seq<char>, k: int) -> bool {
    &&& 0 <= k && k + 2 <= path.len()
    &&& path[k] == '.' && path[k + 1] == '.'
    &&& (k == 0 || path[k - 1] == '/')
    &&& (k + 2 == path.len() || path[k + 2] == '/')
}

/// A path that stays under the pages: no `..` segment and no backslash.
pub open spec fn safe_path(path: Seq<char>) -> bool {
    &&& forall|k: int| !#[trigger] parent_at(path, k)
    &&& forall|i: int| 0 <= i < path.len() ==> path[i] != '\\'
}

/// Whether a path stays under the pages.
pub fn is_safe_path(path: &str) -> (r: bool)
    ensures
        r == safe_path(path@),
{
    let n = path.unicode_len();
    let mut i: usize = 0;
    while i < n
        invariant
            n == path@.len(),
            0 <= i <= n,
            forall|k: int| k < i ==> !#[trigger] parent_at(path@, k),
            forall|j: int| 0 <= j < i ==> path@[j] != '\\',
        decreases n - i,
    {
        let c = path.get_char(i);
        if c == '\\' {
            return false;
        }
        if c == '.' && i + 1 < n && path.get_char(i + 1) == '.'
            && (i == 0 || path.get_char(i - 1) == '/')
            && (i + 2 == n || path.get_char(i + 2) == '/') {
            proof {
                assert(parent_at(path@, i as int));
            }
            return false;
        }
        i = i + 1;
    }
    proof {
        assert forall|k: int| !#[trigger] parent_at(path@, k) by {
            if k >= n {
                assert(!(k + 2 <= path@.len()));
            }
        }
    }
    true
}

/// A character a provider's name may hold.
pub open spec fn name_char(c: char) -> bool {
    ('a' <= c && c <= 'z') || ('A' <= c && c <= 'Z') || ('0' <= c && c <= '9') || c == '_' || c == '-'
}

/// The page of provider `provider`, for a name of letters, digits, `_` and
/// `-` only.
pub fn provider_page(provider: &str) -> (r: Option<String>)
    ensures
        (forall|i: int| 0 <= i < provider@.len() ==> name_char(#[trigger] provider@[i])) ==> (r matches Some(p)
            && p@ == provider@ + "/ui.html"@),
        !(forall|i: int| 0 <= i < provider@.len() ==> name_char(#[trigger] provider@[i])) ==> r is None,
{
    let n = provider.unicode_len();
    let mut i: usize = 0;
    while i < n
        invariant
            n == provider@.len(),
            0 <= i <= n,
            forall|j: int| 0 <= j < i ==> name_char(#[trigger] provider@[j]),
        decreases n - i,
    {
        let c = provider.get_char(i);
        if !(('a' <= c && c <= 'z') || ('A' <= c && c <= 'Z') || ('0' <= c && c <= '9') || c == '_' || c == '-') {
            return None;
        }
        i = i + 1;
    }
    let mut page = provider.to_owned();
    page.append("/ui.html");
    Some(page)
}

/// The setup host page exists for setups named by a UUID.
pub fn host_page(setup_id: &str) -> (r: bool)
    ensures
        r == parsed_uuid(setup_id@) is Some,
{
    parse_uuid(setup_id).is_some()
}

/// Where an asset is fetched from a development server at `dev`.
pub open spec fn dev_asset_url_of(dev: Seq<char>, path: Seq<char>, query: Option<Seq<char>>) -> Seq<char> {
    let base = strip_end(dev, '/') + "/connections/ui/"@ + path;
    match query {
        Some(q) => base + seq!['?'] + q,
        None => base,
    }
}

/// Where an asset is fetched from a development server at `dev`, with the
/// request's query where it has one.
pub fn dev_asset_url(dev: &str, path: &str, query: Option<&str>) -> (r: String)
    ensures
        r@ == dev_asset_url_of(dev@, path@, match query { Some(q) => Some(q@), None => None }),
{
    let mut url = trim_end_char(dev, '/').to_owned();
    url.append("/connections/ui/");
    url.append(path);
    match query {
        Some(q) => {
            url.append("?");
            url.append(q);
            proof {
                reveal_strlit("?");
            }
        },
        None => {},
    }
    url
}

/// The position of the first `/` in a text, if any.
pub open spec fn first_slash(s: Seq<char>, k: int) -> bool {
    0 <= k < s.len() && s[k] == '/' && forall|j: int| 0 <= j < k ==> s[j] != '/'
}

/// A remote provider's asset path: after `remote/`, the encoded provider
/// identifier and, after the next `/`, the asset; `None` where the path has
/// no such form.
#[verifier::loop_isolation(false)]
pub fn remote_asset(path: &str) -> (r: Option<(String, String)>)
    ensures
        !has_prefix(path@, "remote/"@) ==> r is None,
        has_prefix(path@, "remote/"@) ==> {
            let rest = path@.subrange(7, path@.len() as int);
            &&& (forall|j: int| 0 <= j < rest.len() ==> rest[j] != '/') ==> r is None
            &&& forall|k: int| #[trigger] first_slash(rest, k) ==> (r matches Some((encoded, asset))
                && encoded@ == rest.subrange(0, k) && asset@ == rest.subrange(k + 1, rest.len() as int))
        },
{
    proof {
        reveal_strlit("remote/");
    }
    let rest = match strip_prefix(path, "remote/") {
        Some(rest) => rest,
        None => return None,
    };
    let n = rest.unicode_len();
    let mut k: usize = 0;
    while k < n
        invariant
            n == rest@.len(),
            0 <= k <= n,
            forall|j: int| 0 <= j < k ==> rest@[j] != '/',
        decreases n - k,
    {
        if rest.get_char(k) == '/' {
            proof {
                assert forall|q: int| first_slash(rest@, q) implies q == k by {
                    if q < k {
                        assert(rest@[q] != '/');
                    } else if q > k {
                        assert(rest@[k as int] == '/');
                    }
                }
            }
            let encoded = rest.substring_char(0, k).to_owned();
            let asset = rest.substring_char(k + 1, n).to_owned();
            return Some((encoded, asset));
        }
        k = k + 1;
    }
    None
}

/// What the `base64` crate's URL-safe engine without padding decodes from
/// text, or nothing where it refuses the text.
pub uninterp spec fn url_base64_decoded(text: Seq<char>) -> Option<Seq<u8>>;

/// `base64::engine::general_purpose::URL_SAFE_NO_PAD.decode`. Claimed: the
/// result is `url_base64_decoded` of the text; and, as the engine refuses
/// padding and trailing bits that are not zero, bytes it decodes encode back
/// to the same text.
#[verifier::external_body]
fn base64_url_decode(text: &str) -> (r: Option<Vec<u8>>)
    ensures
        match r {
            Some(b) => url_base64_decoded(text@) == Some(b@) && base64_text(b@, true, false) == text@,
            None => url_base64_decoded(text@) is None,
        },
{
    ::base64::engine::general_purpose::URL_SAFE_NO_PAD.decode(text).ok()
}

/// What `String::from_utf8` reads from bytes, or nothing where they are not UTF-8.
pub uninterp spec fn utf8_read(bytes: Seq<u8>) -> Option<Seq<char>>;

/// `String::from_utf8`. Claimed: the result is `utf8_read` of the bytes,
/// and a text it reads has exactly those bytes as its UTF-8 encoding.
#[verifier::external_body]
fn utf8_text(bytes: Vec<u8>) -> (r: Option<String>)
    ensures
        match r {
            Some(s) => utf8_read(bytes@) == Some(s@) && encode_utf8(s@) == bytes@,
            None => utf8_read(bytes@) is None,
        },
{
    String::from_utf8(bytes).ok()
}

/// The provider identifier a remote asset path carries: URL-safe base64,
/// without padding, of its UTF-8 text.
pub fn remote_provider_id(encoded: &str) -> (r: Option<String>)
    ensures
        match url_base64_decoded(encoded@) {
            None => r is None,
            Some(b) => match utf8_read(b) {
                None => r is None,
                Some(t) => r matches Some(id) && id@ == t && base64_text(encode_utf8(id@), true, false) == encoded@,
            },
        },
{
    match base64_url_decode(encoded) {
        Some(bytes) => utf8_text(bytes),
        None => None,
    }
}

} // verus!
