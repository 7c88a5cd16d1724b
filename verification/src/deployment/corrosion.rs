//! The replicated store the sidecars share: the address its client accepts
//! and the statements it is sent.
use vstd::prelude::*;
use crate::address::{UrlParts, parse_url, parsed_url};
use crate::deployment::wire::ChatError;
use crate::json::{Json, JsonV, view_items, lemma_view_items};
use crate::text::{str_eq, strip_end, trim_end_char};

verus! {

/// Whether the store's client accepts an endpoint: it is read with one
/// trailing slash, and must be HTTP(S) with a host and without credentials.
pub open spec fn store_endpoint(endpoint: Seq<char>) -> Option<crate::address::UrlView> {
    match parsed_url(strip_end(endpoint, '/') + "/"@) {
        Some(u) => if (u.scheme == "http"@ || u.scheme == "https"@) && u.host is Some
            && u.username.len() == 0 && u.password is None
        {
            Some(u)
        } else {
            None
        },
        None => None,
    }
}

/// The address of the replicated store's HTTP API.
pub fn store_address(endpoint: &str) -> (r: Result<UrlParts, ChatError>)
    ensures
        match r {
            Ok(u) => store_endpoint(endpoint@) == Some(u@),
            Err(ChatError::Invalid(m)) => store_endpoint(endpoint@) is None
                && m@ == "Invalid Corrosion endpoint"@,
            Err(_) => false,
        },
{
    let mut text = trim_end_char(endpoint, '/').to_owned();
    text.append("/");
    let url = match parse_url(text.as_str()) {
        Some(u) => u,
        None => return Err(ChatError::Invalid("Invalid Corrosion endpoint".to_owned())),
    };
    let web = str_eq(url.scheme.as_str(), "http") || str_eq(url.scheme.as_str(), "https");
    if !web || url.host.is_none() || url.username.as_str().unicode_len() > 0 || url.password.is_some() {
        return Err(ChatError::Invalid("Invalid Corrosion endpoint".to_owned()));
    }
    Ok(url)
}

/// A statement as the store's API takes it: the SQL and its parameter
/// bindings, never persisted untyped metadata.
pub fn statement(sql: &str, parameters: Vec<Json>) -> (r: Json)
    ensures
        r@ == JsonV::Array(seq![JsonV::Str(sql@), JsonV::Array(view_items(parameters@))]),
{
    let ghost p = parameters@;
    let mut items: Vec<Json> = Vec::new();
    items.push(Json::Str(sql.to_owned()));
    items.push(Json::Array(parameters));
    proof {
        lemma_view_items(items@);
        assert(view_items(items@) =~= seq![JsonV::Str(sql@), JsonV::Array(view_items(p))]);
    }
    Json::Array(items)
}

} // verus!
