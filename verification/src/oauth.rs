//! Reading an OAuth token response: the values a provider's configuration
//! points at in the JSON it answers with.
use vstd::prelude::*;
use crate::error::{Error, Fault, invalid};
use crate::json::{Json, JsonNumber, JsonV, NumberV, key_less, str_less};
use crate::model::{OAuth, ResultField, Values, lookup};
use crate::pointer::pointer_of;
use vstd::string::*;
use vstd::utf8::encode_utf8;

verus! {

/// Decimal digits of a natural number, as text.
pub open spec fn decimal_text(n: nat) -> Seq<char>
    decreases n,
{
    if n < 10 {
        seq![(48 + n) as char]
    } else {
        decimal_text(n / 10) + seq![(48 + n % 10) as char]
    }
}

/// How `serde_json` writes a number.
pub open spec fn number_text(n: NumberV) -> Seq<char> {
    match n {
        NumberV::Unsigned(u) => decimal_text(u as nat),
        NumberV::Signed(i) => if i < 0 {
            seq!['-'] + decimal_text((-i) as nat)
        } else {
            decimal_text(i as nat)
        },
        NumberV::Decimal(t) => t,
    }
}

/// The decimal digits of `n`.
pub(crate) fn decimal(n: u64) -> (r: String)
    ensures
        r@ == decimal_text(n as nat),
    decreases n,
{
    let digits = "0123456789";
    proof {
        reveal_strlit("0123456789");
    }
    let d = (n % 10) as usize;
    let last = digits.substring_char(d, d + 1);
    proof {
        assert(last@ =~= seq![(48 + n % 10) as char]);
    }
    if n >= 10 {
        let mut r = decimal(n / 10);
        r.append(last);
        r
    } else {
        last.to_owned()
    }
}

/// The text `serde_json` writes for a number.
pub fn number_string(n: &JsonNumber) -> (r: String)
    ensures
        r@ == number_text(n@),
{
    match n {
        JsonNumber::Unsigned(u) => decimal(*u),
        JsonNumber::Signed(i) => if *i < 0 {
            let magnitude: u64 = (0i128 - *i as i128) as u64;
            let mut r = "-".to_owned();
            proof {
                reveal_strlit("-");
            }
            let digits = decimal(magnitude);
            r.append(digits.as_str());
            r
        } else {
            decimal(*i as u64)
        },
        JsonNumber::Decimal(t) => t.clone(),
    }
}

/// Text at a pointer, where it is a non-empty string.
pub open spec fn text_at(j: JsonV, path: Seq<char>) -> Option<Seq<char>> {
    match pointer_of(j, path) {
        Some(JsonV::Str(s)) => if s.len() > 0 { Some(s) } else { None },
        _ => None,
    }
}

/// The value of a decimal integer as `i64`'s `FromStr` reads it: an optional
/// sign and at least one digit, within range.
pub open spec fn signed_digits(t: Seq<char>) -> Option<int> {
    let neg = t.len() > 0 && t[0] == '-';
    let body = if t.len() > 0 && (t[0] == '-' || t[0] == '+') { t.drop_first() } else { t };
    if body.len() == 0 || !crate::pointer::all_digits(body) {
        None
    } else {
        let v: int = if neg { -(crate::pointer::digits_value(body) as int) } else { crate::pointer::digits_value(body) as int };
        if i64::MIN <= v <= i64::MAX { Some(v) } else { None }
    }
}

/// The lifetime a response gives its token, in seconds: nothing where the
/// value is absent or null; an integer, or a string holding one, that is
/// positive; any other value is refused.
pub open spec fn expiry_of(v: Option<JsonV>) -> Result<Option<i64>, Fault> {
    match v {
        None => Ok(None),
        Some(JsonV::Null) => Ok(None),
        Some(x) => {
            let n: Option<int> = match x {
                JsonV::Number(NumberV::Unsigned(u)) => if u <= i64::MAX { Some(u as int) } else { None },
                JsonV::Number(NumberV::Signed(i)) => Some(i as int),
                JsonV::Str(s) => signed_digits(s),
                _ => None,
            };
            match n {
                Some(k) => if k > 0 { Ok(Some(k as i64)) } else { Err(Fault::Invalid("Invalid OAuth token expiry"@)) },
                None => Err(Fault::Invalid("Invalid OAuth token expiry"@)),
            }
        },
    }
}

/// The text an account field takes from a value: a non-empty string, a
/// number or a boolean as `serde_json` writes it.
pub open spec fn scalar_of(v: Option<JsonV>) -> Option<Seq<char>> {
    match v {
        Some(JsonV::Str(s)) => if s.len() > 0 { Some(s) } else { None },
        Some(JsonV::Number(n)) => Some(number_text(n)),
        Some(JsonV::Bool(b)) => Some(if b { "true"@ } else { "false"@ }),
        _ => None,
    }
}

/// The position of the first value under `key`.
pub open spec fn value_index(values: Seq<(Seq<char>, Seq<char>)>, key: Seq<char>) -> Option<nat>
    decreases values.len(),
{
    if values.len() == 0 {
        None
    } else if values[0].0 == key {
        Some(0)
    } else {
        match value_index(values.drop_first(), key) {
            Some(i) => Some(i + 1),
            None => None,
        }
    }
}

/// Where a new key goes among values in key order.
pub open spec fn text_point(values: Seq<(Seq<char>, Seq<char>)>, key: Seq<char>) -> nat
    decreases values.len(),
{
    if values.len() == 0 {
        0
    } else if key_less(values[0].0, key) {
        1 + text_point(values.drop_first(), key)
    } else {
        0
    }
}

/// A map in key order with `key` set to `value`.
pub open spec fn put(values: Seq<(Seq<char>, Seq<char>)>, key: Seq<char>, value: Seq<char>) -> Seq<(Seq<char>, Seq<char>)> {
    match value_index(values, key) {
        Some(i) => values.update(i as int, (key, value)),
        None => values.insert(text_point(values, key) as int, (key, value)),
    }
}

/// The text of credential values.
pub open spec fn texts(values: Seq<(String, String)>) -> Seq<(Seq<char>, Seq<char>)> {
    values.map_values(|e: (String, String)| (e.0@, e.1@))
}

/// The account fields a response yields for `fields`, or the refusal of a
/// required one it lacks (outside a refresh).
pub open spec fn account_values(
    j: JsonV,
    fields: Seq<ResultField>,
    is_refresh: bool,
) -> Result<Seq<(Seq<char>, Seq<char>)>, Fault>
    decreases fields.len(),
{
    if fields.len() == 0 {
        Ok(Seq::empty())
    } else {
        match account_values(j, fields.drop_last(), is_refresh) {
            Err(f) => Err(f),
            Ok(acc) => {
                let f = fields.last();
                match scalar_of(pointer_of(j, f.path@)) {
                    Some(v) => Ok(put(acc, f.key@, v)),
                    None => if f.required && !is_refresh {
                        Err(Fault::Invalid("Provider response omitted a required account field"@))
                    } else {
                        Ok(acc)
                    },
                }
            },
        }
    }
}

/// What a token response yields, before its lifetime is turned into a time.
pub struct TokenParts {
    pub access: Seq<char>,
    pub refresh: Option<Seq<char>>,
    pub expires_in: Option<i64>,
    pub scope: Option<Seq<char>>,
    pub values: Seq<(Seq<char>, Seq<char>)>,
}

/// What a token response yields under a configuration, or why it is refused:
/// a failure the response reports, a missing access token, an invalid
/// lifetime, or a missing required account field.
pub open spec fn token_parts(j: JsonV, c: OAuth, is_refresh: bool) -> Result<TokenParts, Fault> {
    let success = match c.success_path {
        Some(p) => pointer_of(j, p@) == Some(JsonV::Bool(true)),
        None => true,
    };
    if !success {
        Err(Fault::Invalid("OAuth response reported failure"@))
    } else {
        match text_at(j, c.access_token_path@) {
            None => Err(Fault::Invalid("Provider response omitted a required value"@)),
            Some(access) => match expiry_of(pointer_of(j, c.expires_in_path@)) {
                Err(f) => Err(f),
                Ok(expires_in) => match account_values(j, c.result_fields@, is_refresh) {
                    Err(f) => Err(f),
                    Ok(values) => Ok(TokenParts {
                        access,
                        refresh: text_at(j, c.refresh_token_path@),
                        expires_in,
                        scope: match pointer_of(j, c.scope_path@) {
                            Some(JsonV::Str(s)) => Some(s),
                            _ => None,
                        },
                        values,
                    }),
                },
            },
        }
    }
}

/// The tokens and account values a provider answered with.
#[derive(Debug)]
pub struct Token {
    pub access: String,
    pub refresh: Option<String>,
    /// The token's lifetime in seconds, where the response gives one.
    pub expires_in: Option<i64>,
    /// When the token expires, in seconds since the epoch.
    pub expires_at: Option<i64>,
    pub scope: Option<String>,
    pub provider_values: Values,
}

/// The parts a token holds.
pub open spec fn parts_of(t: Token) -> TokenParts {
    TokenParts {
        access: t.access@,
        refresh: crate::address::opt_view(t.refresh),
        expires_in: t.expires_in,
        scope: crate::address::opt_view(t.scope),
        values: texts(t.provider_values@),
    }
}

/// Non-empty text at a pointer.
fn text_at_path(json: &Json, path: &str) -> (r: Option<String>)
    ensures
        crate::address::opt_view(r) == text_at(json@, path@),
{
    match json.pointer(path) {
        Some(v) => match v.as_str() {
            Some(s) => if s.unicode_len() > 0 {
                Some(s.to_owned())
            } else {
                None
            },
            None => None,
        },
        None => None,
    }
}

/// `text.parse::<i64>()`.
#[verifier::loop_isolation(false)]
pub fn parse_i64(text: &str) -> (r: Option<i64>)
    ensures
        match r {
            Some(v) => signed_digits(text@) == Some(v as int),
            None => signed_digits(text@) is None,
        },
{
    let n = text.unicode_len();
    let mut start: usize = 0;
    let mut neg = false;
    if n > 0 {
        let c = text.get_char(0);
        if c == '-' {
            neg = true;
            start = 1;
        } else if c == '+' {
            start = 1;
        }
    }
    let body = text.substring_char(start, n);
    proof {
        if n > 0 && (text@[0] == '-' || text@[0] == '+') {
            assert(body@ =~= text@.drop_first());
        } else {
            assert(body@ =~= text@);
        }
    }
    let m = body.unicode_len();
    if m == 0 {
        return None;
    }
    let mut acc: i128 = 0;
    let mut i: usize = 0;
    proof {
        assert(body@.subrange(0, 0) =~= Seq::<char>::empty());
    }
    while i < m
        invariant
            m == body@.len(),
            0 <= i <= m,
            crate::pointer::all_digits(body@.subrange(0, i as int)),
            acc == crate::pointer::digits_value(body@.subrange(0, i as int)),
            acc <= 0x8000_0000_0000_0000,
        decreases m - i,
    {
        let c = body.get_char(i);
        if c < '0' || c > '9' {
            return None;
        }
        let ghost prefix = body@.subrange(0, i as int + 1);
        proof {
            assert(prefix.drop_last() =~= body@.subrange(0, i as int));
            assert(prefix.last() == c);
            assert forall|k: int| 0 <= k < prefix.len() implies '0' <= #[trigger] prefix[k] <= '9' by {
                if k < i {
                    assert(prefix[k] == body@.subrange(0, i as int)[k]);
                }
            }
        }
        let next: i128 = acc * 10 + (c as u32 - 48) as i128;
        if next > 0x8000_0000_0000_0000 {
            proof {
                if crate::pointer::all_digits(body@) {
                    crate::pointer::lemma_digits_prefix(body@, i as int + 1);
                }
            }
            return None;
        }
        acc = next;
        i = i + 1;
    }
    proof {
        assert(body@.subrange(0, m as int) =~= body@);
    }
    if neg {
        Some((0 - acc) as i64)
    } else if acc > 0x7fff_ffff_ffff_ffff {
        None
    } else {
        Some(acc as i64)
    }
}

/// The lifetime at `path`.
fn expiry_at_path(json: &Json, path: &str) -> (r: Result<Option<i64>, Error>)
    ensures
        match r {
            Ok(v) => expiry_of(pointer_of(json@, path@)) == Ok::<Option<i64>, Fault>(v),
            Err(e) => expiry_of(pointer_of(json@, path@)) == Err::<Option<i64>, Fault>(e@),
        },
{
    let v = match json.pointer(path) {
        None => return Ok(None),
        Some(v) => v,
    };
    let n: Option<i64> = match v {
        Json::Null => return Ok(None),
        Json::Number(JsonNumber::Unsigned(u)) => if *u <= 0x7fff_ffff_ffff_ffff {
            Some(*u as i64)
        } else {
            None
        },
        Json::Number(JsonNumber::Signed(i)) => Some(*i),
        Json::Str(s) => parse_i64(s.as_str()),
        _ => None,
    };
    match n {
        Some(k) => if k > 0 {
            Ok(Some(k))
        } else {
            Err(invalid("Invalid OAuth token expiry"))
        },
        None => Err(invalid("Invalid OAuth token expiry")),
    }
}

/// The text an account field takes from the value at `path`.
fn scalar_at_path(json: &Json, path: &str) -> (r: Option<String>)
    ensures
        crate::address::opt_view(r) == scalar_of(pointer_of(json@, path@)),
{
    match json.pointer(path) {
        Some(Json::Str(s)) => if s.as_str().unicode_len() > 0 {
            Some(s.clone())
        } else {
            None
        },
        Some(Json::Number(n)) => Some(number_string(n)),
        Some(Json::Bool(b)) => {
            proof {
                reveal_strlit("true");
                reveal_strlit("false");
            }
            Some(if *b { "true".to_owned() } else { "false".to_owned() })
        },
        _ => None,
    }
}

proof fn lemma_value_index(values: Seq<(Seq<char>, Seq<char>)>, key: Seq<char>, i: int)
    requires
        0 <= i <= values.len(),
        forall|k: int| 0 <= k < i ==> #[trigger] values[k].0 != key,
        i < values.len() ==> values[i].0 == key,
    ensures
        value_index(values, key) == (if i < values.len() { Some(i as nat) } else { None::<nat> }),
    decreases values.len(),
{
    if i > 0 {
        assert forall|k: int| 0 <= k < i - 1 implies #[trigger] values.drop_first()[k].0 != key by {
            assert(values[k + 1].0 != key);
        }
        lemma_value_index(values.drop_first(), key, i - 1);
    }
}

proof fn lemma_text_point(values: Seq<(Seq<char>, Seq<char>)>, key: Seq<char>, i: int)
    requires
        0 <= i <= values.len(),
        forall|k: int| 0 <= k < i ==> key_less(#[trigger] values[k].0, key),
        i < values.len() ==> !key_less(values[i].0, key),
    ensures
        text_point(values, key) == i,
    decreases values.len(),
{
    if i > 0 {
        assert forall|k: int| 0 <= k < i - 1 implies key_less(#[trigger] values.drop_first()[k].0, key) by {
            assert(key_less(values[k + 1].0, key));
        }
        lemma_text_point(values.drop_first(), key, i - 1);
    }
}

/// Sets `key` to `value` in a map kept in key order.
#[verifier::loop_isolation(false)]
fn put_value(values: &mut Values, key: String, value: String)
    ensures
        texts(final(values)@) == put(texts(old(values)@), key@, value@),
{
    let ghost before = texts(values@);
    let mut i: usize = 0;
    while i < values.len()
        invariant
            before == texts(values@),
            0 <= i <= values@.len(),
            forall|k: int| 0 <= k < i ==> #[trigger] values@[k].0@ != key@,
        decreases values@.len() - i,
    {
        if crate::text::str_eq(values[i].0.as_str(), key.as_str()) {
            proof {
                assert forall|k: int| 0 <= k < i implies #[trigger] before[k].0 != key@ by {
                    assert(before[k] == (values@[k].0@, values@[k].1@));
                }
                lemma_value_index(before, key@, i as int);
            }
            values.set(i, (key, value));
            proof {
                assert(texts(values@) =~= before.update(i as int, (key@, value@)));
            }
            return;
        }
        i = i + 1;
    }
    proof {
        assert forall|k: int| 0 <= k < before.len() implies #[trigger] before[k].0 != key@ by {
            assert(before[k] == (values@[k].0@, values@[k].1@));
        }
        lemma_value_index(before, key@, before.len() as int);
    }
    let mut p: usize = 0;
    while p < values.len() && str_less(values[p].0.as_str(), key.as_str())
        invariant
            before == texts(values@),
            0 <= p <= values@.len(),
            forall|k: int| 0 <= k < p ==> key_less(#[trigger] values@[k].0@, key@),
        decreases values@.len() - p,
    {
        p = p + 1;
    }
    proof {
        assert forall|k: int| 0 <= k < p implies key_less(#[trigger] before[k].0, key@) by {
            assert(before[k] == (values@[k].0@, values@[k].1@));
        }
        if p < values@.len() {
            assert(before[p as int] == (values@[p as int].0@, values@[p as int].1@));
        }
        lemma_text_point(before, key@, p as int);
    }
    let ghost kv = (key@, value@);
    values.insert(p, (key, value));
    proof {
        assert(texts(values@) =~= before.insert(p as int, kv));
    }
}

/// The account fields a response yields.
fn read_account_values(json: &Json, fields: &Vec<ResultField>, is_refresh: bool) -> (r: Result<Values, Error>)
    ensures
        match r {
            Ok(v) => account_values(json@, fields@, is_refresh) == Ok::<Seq<(Seq<char>, Seq<char>)>, Fault>(texts(v@)),
            Err(e) => account_values(json@, fields@, is_refresh) == Err::<Seq<(Seq<char>, Seq<char>)>, Fault>(e@),
        },
{
    let mut out: Values = Vec::new();
    let mut i: usize = 0;
    proof {
        assert(fields@.subrange(0, 0) =~= Seq::<ResultField>::empty());
        assert(texts(out@) =~= Seq::<(Seq<char>, Seq<char>)>::empty());
    }
    while i < fields.len()
        invariant
            0 <= i <= fields@.len(),
            account_values(json@, fields@.subrange(0, i as int), is_refresh)
                == Ok::<Seq<(Seq<char>, Seq<char>)>, Fault>(texts(out@)),
        decreases fields@.len() - i,
    {
        let f = &fields[i];
        let ghost prefix = fields@.subrange(0, i as int + 1);
        proof {
            assert(prefix.drop_last() =~= fields@.subrange(0, i as int));
            assert(prefix.last() == *f);
        }
        match scalar_at_path(json, f.path.as_str()) {
            Some(v) => {
                put_value(&mut out, f.key.clone(), v);
            },
            None => {
                if f.required && !is_refresh {
                    proof {
                        lemma_account_values_err(json@, fields@, is_refresh, i as int + 1);
                    }
                    return Err(invalid("Provider response omitted a required account field"));
                }
            },
        }
        i = i + 1;
    }
    proof {
        assert(fields@.subrange(0, fields@.len() as int) =~= fields@);
    }
    Ok(out)
}

/// A refusal among the first fields is the refusal of all of them.
proof fn lemma_account_values_err(j: JsonV, fields: Seq<ResultField>, is_refresh: bool, k: int)
    requires
        0 <= k <= fields.len(),
        account_values(j, fields.subrange(0, k), is_refresh) is Err,
    ensures
        account_values(j, fields, is_refresh) == account_values(j, fields.subrange(0, k), is_refresh),
    decreases fields.len(),
{
    if k == fields.len() {
        assert(fields.subrange(0, k) =~= fields);
    } else {
        assert(fields.drop_last().subrange(0, k) =~= fields.subrange(0, k));
        lemma_account_values_err(j, fields.drop_last(), is_refresh, k);
    }
}

/// Reads a token response under a configuration, its lifetime as given.
pub fn read_token(json: &Json, config: &OAuth, is_refresh: bool) -> (r: Result<Token, Error>)
    ensures
        match r {
            Ok(t) => token_parts(json@, *config, is_refresh) == Ok::<TokenParts, Fault>(parts_of(t))
                && t.expires_at is None,
            Err(e) => token_parts(json@, *config, is_refresh) == Err::<TokenParts, Fault>(e@),
        },
{
    match &config.success_path {
        Some(p) => {
            let ok = match json.pointer(p.as_str()) {
                Some(v) => v.is_bool(true),
                None => false,
            };
            if !ok {
                return Err(invalid("OAuth response reported failure"));
            }
        },
        None => {},
    }
    let access = match text_at_path(json, config.access_token_path.as_str()) {
        Some(a) => a,
        None => return Err(invalid("Provider response omitted a required value")),
    };
    let refresh = text_at_path(json, config.refresh_token_path.as_str());
    let expires_in = match expiry_at_path(json, config.expires_in_path.as_str()) {
        Ok(e) => e,
        Err(e) => return Err(e),
    };
    let scope = match json.pointer(config.scope_path.as_str()) {
        Some(Json::Str(s)) => Some(s.clone()),
        _ => None,
    };
    let provider_values = match read_account_values(json, &config.result_fields, is_refresh) {
        Ok(v) => v,
        Err(e) => return Err(e),
    };
    Ok(Token { access, refresh, expires_in, expires_at: None, scope, provider_values })
}

/// When a token given `seconds` to live expires, in seconds since the epoch:
/// `chrono::Duration::try_seconds` added to `chrono::Utc::now()` with
/// `checked_add_signed`. Nothing is claimed of the time, which is the
/// clock's; nothing comes back where either step overflows.
#[verifier::external_body]
fn expiry_after(seconds: i64) -> (r: Option<i64>) {
    chrono::Duration::try_seconds(seconds)
        .and_then(|d| chrono::Utc::now().checked_add_signed(d))
        .map(|t| t.timestamp())
}

/// The lifetime a token response gives, where reading it gets as far as the
/// lifetime (the response reports no failure and holds an access token) and
/// the lifetime is there and valid.
pub open spec fn lifetime_read(j: JsonV, c: OAuth) -> Option<i64> {
    let success = match c.success_path {
        Some(p) => pointer_of(j, p@) == Some(JsonV::Bool(true)),
        None => true,
    };
    if success && text_at(j, c.access_token_path@) is Some {
        match expiry_of(pointer_of(j, c.expires_in_path@)) {
            Ok(Some(s)) => Some(s),
            _ => None,
        }
    } else {
        None
    }
}

/// The lifetime a token response gives, read as `lifetime_read` says.
fn lifetime_at(json: &Json, config: &OAuth) -> (r: Option<i64>)
    ensures
        r == lifetime_read(json@, *config),
{
    match &config.success_path {
        Some(p) => {
            let ok = match json.pointer(p.as_str()) {
                Some(v) => v.is_bool(true),
                None => false,
            };
            if !ok {
                return None;
            }
        },
        None => {},
    }
    match text_at_path(json, config.access_token_path.as_str()) {
        Some(_) => {},
        None => return None,
    }
    match expiry_at_path(json, config.expires_in_path.as_str()) {
        Ok(Some(s)) => Some(s),
        _ => None,
    }
}

/// Reads a token response and dates its expiry from now, as soon as the
/// lifetime is read (before the account fields); an expiry past what the
/// clock can hold is refused.
pub fn parse_token(json: &Json, config: &OAuth, is_refresh: bool) -> (r: Result<Token, Error>)
    ensures
        match r {
            Ok(t) => token_parts(json@, *config, is_refresh) == Ok::<TokenParts, Fault>(parts_of(t))
                && (t.expires_at is Some <==> t.expires_in is Some),
            Err(e) => {
                let overflow = lifetime_read(json@, *config) is Some
                    && e@ == Fault::Invalid("OAuth token expiry overflow"@);
                match token_parts(json@, *config, is_refresh) {
                    Err(f) => e@ == f || overflow,
                    Ok(p) => overflow,
                }
            },
        },
{
    let at = match lifetime_at(json, config) {
        Some(seconds) => match expiry_after(seconds) {
            Some(at) => Some(at),
            None => return Err(invalid("OAuth token expiry overflow")),
        },
        None => None,
    };
    let mut token = match read_token(json, config, is_refresh) {
        Ok(t) => t,
        Err(e) => return Err(e),
    };
    token.expires_at = at;
    Ok(token)
}

// ---------------------------------------------------------------------------
// Storing a token

/// Values with several keys set in turn.
pub open spec fn put_all(values: Seq<(Seq<char>, Seq<char>)>, more: Seq<(Seq<char>, Seq<char>)>) -> Seq<(Seq<char>, Seq<char>)>
    decreases more.len(),
{
    if more.len() == 0 {
        values
    } else {
        put(put_all(values, more.drop_last()), more.last().0, more.last().1)
    }
}

/// The credentials a token adds over `values`: its account values, then its
/// access token, refresh token and scope under their names.
pub open spec fn with_token(values: Seq<(Seq<char>, Seq<char>)>, t: Token) -> Seq<(Seq<char>, Seq<char>)> {
    let v = put(put_all(values, texts(t.provider_values@)), "access_token"@, t.access@);
    let v = match t.refresh {
        Some(r) => put(v, "refresh_token"@, r@),
        None => v,
    };
    match t.scope {
        Some(s) => put(v, "scope"@, s@),
        None => v,
    }
}

/// Sets each of `more` in turn.
#[verifier::loop_isolation(false)]
fn put_each(values: &mut Values, more: Values)
    ensures
        texts(final(values)@) == put_all(texts(old(values)@), texts(more@)),
{
    let ghost start = texts(values@);
    let ghost m = more@;
    let n = more.len();
    let mut rest = more;
    let mut i: usize = 0;
    proof {
        assert(texts(m).subrange(0, 0) =~= Seq::<(Seq<char>, Seq<char>)>::empty());
    }
    while rest.len() > 0
        invariant
            n == m.len(),
            0 <= i <= n,
            rest@ == m.subrange(i as int, n as int),
            texts(values@) == put_all(start, texts(m).subrange(0, i as int)),
        decreases rest@.len(),
    {
        let (k, v) = rest.remove(0);
        proof {
            assert(rest@ =~= m.subrange(i + 1, n as int));
            let p = texts(m).subrange(0, i + 1);
            assert(p.drop_last() =~= texts(m).subrange(0, i as int));
            assert(p.last() == (k@, v@));
        }
        put_value(values, k, v);
        i = i + 1;
    }
    proof {
        assert(texts(m).subrange(0, n as int) =~= texts(m));
    }
}

/// Adds what a token holds to stored credentials.
pub fn add_token(values: &mut Values, token: Token)
    ensures
        texts(final(values)@) == with_token(texts(old(values)@), token),
{
    let ghost t = token;
    let Token { access, refresh, expires_in: _, expires_at: _, scope, provider_values } = token;
    put_each(values, provider_values);
    put_value(values, "access_token".to_owned(), access);
    match refresh {
        Some(r) => put_value(values, "refresh_token".to_owned(), r),
        None => {},
    }
    match scope {
        Some(s) => put_value(values, "scope".to_owned(), s),
        None => {},
    }
}

/// The credentials a completed OAuth setup stores: the token's values alone.
pub fn token_values(token: Token) -> (r: Values)
    ensures
        texts(r@) == with_token(Seq::empty(), token),
{
    let mut values: Values = Vec::new();
    proof {
        assert(texts(values@) =~= Seq::<(Seq<char>, Seq<char>)>::empty());
    }
    add_token(&mut values, token);
    values
}

/// Seconds before expiry at which a token is renewed.
pub const REFRESH_MARGIN: i64 = 60;

/// Whether stored credentials must be refreshed before use: their token
/// expires within a minute.
pub fn needs_refresh(expires_at: Option<i64>, now: i64) -> (r: bool)
    ensures
        r == (expires_at matches Some(e) && e <= now + REFRESH_MARGIN),
{
    match expires_at {
        Some(e) => e as i128 <= now as i128 + 60,
        None => false,
    }
}

// ---------------------------------------------------------------------------
// The authorization request

/// Texts joined with a separator between each two.
pub open spec fn joined_with(items: Seq<String>, sep: Seq<char>) -> Seq<char>
    decreases items.len(),
{
    if items.len() == 0 {
        Seq::empty()
    } else if items.len() == 1 {
        items[0]@
    } else {
        joined_with(items.drop_last(), sep) + sep + items.last()@
    }
}

/// Joins texts with a separator.
fn join_texts(items: &Vec<String>, sep: &str) -> (r: String)
    ensures
        r@ == joined_with(items@, sep@),
{
    let mut r = String::new();
    let mut i: usize = 0;
    while i < items.len()
        invariant
            0 <= i <= items@.len(),
            r@ == joined_with(items@.subrange(0, i as int), sep@),
        decreases items@.len() - i,
    {
        proof {
            assert(items@.subrange(0, i as int + 1).drop_last() =~= items@.subrange(0, i as int));
        }
        if i > 0 {
            r.append(sep);
        }
        r.append(items[i].as_str());
        proof {
            if i == 0 {
                assert(r@ =~= items@.subrange(0, 1)[0]@);
            } else {
                assert(r@ =~= joined_with(items@.subrange(0, i as int + 1), sep@));
            }
        }
        i = i + 1;
    }
    proof {
        assert(items@.subrange(0, items@.len() as int) =~= items@);
    }
    r
}

/// A required credential: its value where set and not blank, else the
/// refusal that names it.
pub open spec fn required_value(values: Seq<(String, String)>, key: Seq<char>) -> Result<Seq<char>, Fault> {
    match lookup(values, key) {
        Some(v) => if crate::text::blank(v) {
            Err(Fault::Invalid(crate::model::missing_field_message(key)))
        } else {
            Ok(v)
        },
        None => Err(Fault::Invalid(crate::model::missing_field_message(key))),
    }
}

/// The query of an authorization request, in order: the response type, the
/// client, the callback, the state, the scopes joined by the separator
/// (where there are any), with PKCE the method `S256` and the challenge (the
/// unpadded URL-safe base64 of the SHA-256 digest of the `_pkce` verifier),
/// then the configured parameters; or the refusal of a missing credential.
pub open spec fn authorization_pairs(
    c: OAuth,
    values: Seq<(String, String)>,
    callback: Seq<char>,
    state: Seq<char>,
) -> Result<Seq<(Seq<char>, Seq<char>)>, Fault> {
    match required_value(values, "client_id"@) {
        Err(f) => Err(f),
        Ok(client) => {
            let head = seq![
                ("response_type"@, "code"@),
                ("client_id"@, client),
                ("redirect_uri"@, callback),
                ("state"@, state),
            ];
            let scoped = if c.scopes@.len() == 0 {
                head
            } else {
                head.push(("scope"@, joined_with(c.scopes@, c.scope_separator@)))
            };
            if c.pkce {
                match required_value(values, "_pkce"@) {
                    Err(f) => Err(f),
                    Ok(verifier) => Ok(
                        scoped.push(("code_challenge_method"@, "S256"@)).push(
                            ("code_challenge"@, crate::crypto::base64(crate::crypto::sha256_digest(encode_utf8(verifier)), true, false)),
                        ) + texts(c.authorization_parameters@),
                    ),
                }
            } else {
                Ok(scoped + texts(c.authorization_parameters@))
            }
        },
    }
}

/// The URL `url::Url::parse` reads from `base` with `pairs` appended to its
/// query (`query_pairs_mut().extend_pairs`, form-urlencoded), as it serializes it.
pub uninterp spec fn url_with_query(base: Seq<char>, pairs: Seq<(Seq<char>, Seq<char>)>) -> Seq<char>;

/// `url::Url::parse`, then `query_pairs_mut().extend_pairs` and `to_string`.
/// Claimed: nothing comes back exactly where the base is no URL (appending
/// query pairs cannot fail), else the result is `url_with_query`.
#[verifier::external_body]
fn append_query(base: &str, pairs: &Vec<(String, String)>) -> (r: Option<String>)
    ensures
        match r {
            Some(t) => crate::address::parsed_url(base@) is Some && t@ == url_with_query(base@, texts(pairs@)),
            None => crate::address::parsed_url(base@) is None,
        },
{
    let mut u = url::Url::parse(base).ok()?;
    u.query_pairs_mut().extend_pairs(pairs.iter());
    Some(u.to_string())
}

/// The address a user is sent to to authorize a connection. No PKCE
/// verifier goes into it, only its S256 challenge.
pub fn authorization_url(config: &OAuth, values: &Values, callback: &str, state: &str) -> (r: Result<String, Error>)
    ensures
        match config.authorization_url {
            None => (r matches Err(e) && e@ == Fault::Invalid("Authorization URL missing"@)),
            Some(u) => match crate::address::endpoint_fault(u@) {
                Some(f) => (r matches Err(e) && e@ == f),
                None => match authorization_pairs(*config, values@, callback@, state@) {
                    Err(f) => (r matches Err(e) && e@ == f),
                    Ok(p) => (r matches Ok(t) && t@ == url_with_query(u@, p)),
                },
            },
        },
{
    let base = match &config.authorization_url {
        Some(u) => u,
        None => return Err(invalid("Authorization URL missing")),
    };
    match crate::address::endpoint(base.as_str()) {
        Ok(_) => {},
        Err(e) => return Err(e),
    }
    let client = match crate::model::value(values, "client_id") {
        Ok(v) => v,
        Err(e) => return Err(e),
    };
    proof {
        reveal_strlit("response_type");
        reveal_strlit("code");
        reveal_strlit("client_id");
        reveal_strlit("redirect_uri");
        reveal_strlit("state");
        reveal_strlit("scope");
        reveal_strlit("_pkce");
        reveal_strlit("code_challenge_method");
        reveal_strlit("S256");
        reveal_strlit("code_challenge");
        assert(required_value(values@, "client_id"@) == Ok::<Seq<char>, Fault>(client@));
    }
    let ghost head = seq![
        ("response_type"@, "code"@),
        ("client_id"@, client@),
        ("redirect_uri"@, callback@),
        ("state"@, state@),
    ];
    let mut pairs: Vec<(String, String)> = Vec::new();
    pairs.push(("response_type".to_owned(), "code".to_owned()));
    pairs.push(("client_id".to_owned(), client.to_owned()));
    pairs.push(("redirect_uri".to_owned(), callback.to_owned()));
    pairs.push(("state".to_owned(), state.to_owned()));
    proof {
        assert(texts(pairs@) =~= head);
    }
    let ghost scoped = if config.scopes@.len() == 0 {
        head
    } else {
        head.push(("scope"@, joined_with(config.scopes@, config.scope_separator@)))
    };
    if config.scopes.len() > 0 {
        let ghost p0 = pairs@;
        pairs.push(("scope".to_owned(), join_texts(&config.scopes, config.scope_separator.as_str())));
        proof {
            assert(texts(pairs@) =~= texts(p0).push(("scope"@, joined_with(config.scopes@, config.scope_separator@))));
        }
    }
    proof {
        assert(texts(pairs@) =~= scoped);
    }
    if config.pkce {
        let verifier = match crate::model::value(values, "_pkce") {
            Ok(v) => v,
            Err(e) => return Err(e),
        };
        let digest = crate::crypto::sha256(verifier.as_bytes());
        let challenge = crate::crypto::base64_url(digest.as_slice());
        let ghost p0 = pairs@;
        pairs.push(("code_challenge_method".to_owned(), "S256".to_owned()));
        pairs.push(("code_challenge".to_owned(), challenge));
        proof {
            assert(required_value(values@, "_pkce"@) == Ok::<Seq<char>, Fault>(verifier@));
            assert(challenge@ == crate::crypto::base64(crate::crypto::sha256_digest(encode_utf8(verifier@)), true, false));
            assert(texts(pairs@) =~= scoped.push(("code_challenge_method"@, "S256"@)).push(("code_challenge"@, challenge@)));
        }
    }
    let ghost before = pairs@;
    let ghost whole = authorization_pairs(*config, values@, callback@, state@);
    proof {
        assert(whole == Ok::<Seq<(Seq<char>, Seq<char>)>, Fault>(texts(before) + texts(config.authorization_parameters@)));
    }
    let mut i: usize = 0;
    while i < config.authorization_parameters.len()
        invariant
            0 <= i <= config.authorization_parameters@.len(),
            whole == Ok::<Seq<(Seq<char>, Seq<char>)>, Fault>(texts(before) + texts(config.authorization_parameters@)),
            pairs@.len() == before.len() + i,
            texts(pairs@) == texts(before) + texts(config.authorization_parameters@.subrange(0, i as int)),
        decreases config.authorization_parameters@.len() - i,
    {
        let (k, v) = &config.authorization_parameters[i];
        let ghost p0 = pairs@;
        pairs.push((crate::text::copy(k.as_str()), crate::text::copy(v.as_str())));
        proof {
            assert(texts(config.authorization_parameters@.subrange(0, i as int + 1))
                =~= texts(config.authorization_parameters@.subrange(0, i as int)).push((k@, v@)));
            assert(texts(pairs@) =~= texts(p0).push((k@, v@)));
            assert(texts(pairs@) =~= texts(before) + texts(config.authorization_parameters@.subrange(0, i as int + 1)));
        }
        i = i + 1;
    }
    proof {
        assert(config.authorization_parameters@.subrange(0, config.authorization_parameters@.len() as int)
            =~= config.authorization_parameters@);
        assert(whole == Ok::<Seq<(Seq<char>, Seq<char>)>, Fault>(texts(pairs@)));
    }
    match append_query(base.as_str(), &pairs) {
        Some(t) => Ok(t),
        None => Err(invalid("Invalid provider endpoint")),
    }
}


/// A token read from a response carries as its refresh token exactly the
/// non-empty text the response holds at the configured refresh-token
/// pointer, and none where the pointer gives no such text.
pub proof fn law_refresh_token_kept(j: JsonV, c: OAuth, is_refresh: bool)
    ensures
        match token_parts(j, c, is_refresh) {
            Ok(p) => p.refresh == match pointer_of(j, c.refresh_token_path@) {
                Some(JsonV::Str(s)) => if s.len() > 0 { Some(s) } else { None },
                _ => None,
            },
            Err(_) => true,
        },
{
}

} // verus!
