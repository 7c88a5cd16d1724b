//! Logs and traces from agents: the invocation scope their records name,
//! the headers they are stamped with, and the size a relayed batch may have.
use vstd::prelude::*;
use crate::deployment::wire::ChatError;
use crate::error::{Error, Fault};
use crate::ids::{hyphenated, parse_uuid, parsed_uuid, uuid_text};
use crate::text::str_eq;

verus! {

/// The value of a log record attribute, as far as scopes are read from it.
#[derive(Debug)]
pub enum AttributeValue {
    Text(String),
    Other,
}

/// One attribute of a log record.
#[derive(Debug)]
pub struct Attribute {
    pub key: String,
    pub value: Option<AttributeValue>,
}

/// One log record, by its attributes.
#[derive(Debug)]
pub struct LogRecord {
    pub attributes: Vec<Attribute>,
}

/// The identifier a record names under `key`: the first attribute with that
/// key, where its value is text holding a UUID.
pub open spec fn named_id(attrs: Seq<Attribute>, key: Seq<char>) -> Option<u128>
    decreases attrs.len(),
{
    if attrs.len() == 0 {
        None
    } else if attrs[0].key@ == key {
        match attrs[0].value {
            Some(AttributeValue::Text(t)) => parsed_uuid(t@),
            _ => None,
        }
    } else {
        named_id(attrs.drop_first(), key)
    }
}

/// The thread, run and invocation a record names, if it names all three.
pub open spec fn record_scope(attrs: Seq<Attribute>) -> Option<(u128, u128, u128)> {
    match (named_id(attrs, "tilde.thread.id"@), named_id(attrs, "tilde.run.id"@), named_id(attrs, "tilde.invocation.id"@)) {
        (Some(t), Some(r), Some(i)) => Some((t, r, i)),
        _ => None,
    }
}

/// The identifier a record names under `key`.
fn find_id(attrs: &Vec<Attribute>, key: &str) -> (r: Option<u128>)
    ensures
        r == named_id(attrs@, key@),
{
    let mut i: usize = 0;
    proof {
        assert(attrs@.subrange(0, attrs@.len() as int) =~= attrs@);
    }
    while i < attrs.len()
        invariant
            0 <= i <= attrs@.len(),
            named_id(attrs@, key@) == named_id(attrs@.subrange(i as int, attrs@.len() as int), key@),
        decreases attrs@.len() - i,
    {
        proof {
            let rest = attrs@.subrange(i as int, attrs@.len() as int);
            assert(rest.drop_first() =~= attrs@.subrange(i + 1, attrs@.len() as int));
        }
        if str_eq(attrs[i].key.as_str(), key) {
            return match &attrs[i].value {
                Some(AttributeValue::Text(t)) => parse_uuid(t.as_str()),
                _ => None,
            };
        }
        i = i + 1;
    }
    None
}

/// The scope all records name: none for no records; refused where a record
/// lacks an identifier or names another scope than the records before it.
pub open spec fn batch_scope(records: Seq<LogRecord>) -> Result<Option<(u128, u128, u128)>, Fault>
    decreases records.len(),
{
    if records.len() == 0 {
        Ok(None)
    } else {
        match batch_scope(records.drop_last()) {
            Err(f) => Err(f),
            Ok(previous) => match record_scope(records.last().attributes@) {
                None => Err(Fault::Denied),
                Some(ids) => if previous matches Some(p) && p != ids {
                    Err(Fault::Denied)
                } else {
                    Ok(Some(ids))
                },
            },
        }
    }
}

/// A refusal among the first records is the refusal of all of them.
proof fn lemma_batch_scope_err(records: Seq<LogRecord>, k: int)
    requires
        0 <= k <= records.len(),
        batch_scope(records.subrange(0, k)) is Err,
    ensures
        batch_scope(records) is Err,
    decreases records.len(),
{
    if k == records.len() {
        assert(records.subrange(0, k) =~= records);
    } else {
        assert(records.drop_last().subrange(0, k) =~= records.subrange(0, k));
        lemma_batch_scope_err(records.drop_last(), k);
    }
}

/// The one invocation scope every record of a batch names.
#[verifier::loop_isolation(false)]
pub fn common_scope(records: &Vec<LogRecord>) -> (r: Result<Option<(u128, u128, u128)>, Error>)
    ensures
        match r {
            Ok(s) => batch_scope(records@) == Ok::<Option<(u128, u128, u128)>, Fault>(s),
            Err(e) => batch_scope(records@) is Err && e@ == Fault::Denied,
        },
{
    let mut scope: Option<(u128, u128, u128)> = None;
    let mut i: usize = 0;
    proof {
        assert(records@.subrange(0, 0) =~= Seq::<LogRecord>::empty());
    }
    while i < records.len()
        invariant
            0 <= i <= records@.len(),
            batch_scope(records@.subrange(0, i as int)) == Ok::<Option<(u128, u128, u128)>, Fault>(scope),
        decreases records@.len() - i,
    {
        let attrs = &records[i].attributes;
        let ghost prefix = records@.subrange(0, i as int + 1);
        proof {
            assert(prefix.drop_last() =~= records@.subrange(0, i as int));
            assert(prefix.last() == records@[i as int]);
        }
        let thread = find_id(attrs, "tilde.thread.id");
        let run = find_id(attrs, "tilde.run.id");
        let invocation = find_id(attrs, "tilde.invocation.id");
        let ids = match (thread, run, invocation) {
            (Some(t), Some(r), Some(v)) => (t, r, v),
            _ => {
                proof {
                    lemma_batch_scope_err(records@, i as int + 1);
                }
                return Err(Error::Denied);
            },
        };
        match scope {
            Some(p) => if p.0 != ids.0 || p.1 != ids.1 || p.2 != ids.2 {
                proof {
                    lemma_batch_scope_err(records@, i as int + 1);
                }
                return Err(Error::Denied);
            },
            None => {},
        }
        scope = Some(ids);
        i = i + 1;
    }
    proof {
        assert(records@.subrange(0, records@.len() as int) =~= records@);
    }
    Ok(scope)
}

/// The headers a record batch is delivered with: whose invocation produced it.
pub fn trace_headers(agent: u128, invocation: u128, thread: u128, run: u128) -> (r: Vec<(String, String)>)
    ensures
        r@.len() == 5,
        r@[0].0@ == "x-tilde-trace-agent"@ && r@[0].1@ == hyphenated(agent),
        r@[1].0@ == "x-tilde-trace-invocation"@ && r@[1].1@ == hyphenated(invocation),
        r@[2].0@ == "x-tilde-trace-thread"@ && r@[2].1@ == hyphenated(thread),
        r@[3].0@ == "x-tilde-trace-run"@ && r@[3].1@ == hyphenated(run),
        r@[4].0@ == "x-tilde-trace-parent"@ && r@[4].1@.len() == 0,
{
    let mut r: Vec<(String, String)> = Vec::new();
    r.push(("x-tilde-trace-agent".to_owned(), uuid_text(agent)));
    r.push(("x-tilde-trace-invocation".to_owned(), uuid_text(invocation)));
    r.push(("x-tilde-trace-thread".to_owned(), uuid_text(thread)));
    r.push(("x-tilde-trace-run".to_owned(), uuid_text(run)));
    r.push(("x-tilde-trace-parent".to_owned(), String::new()));
    r
}

/// The largest log batch a replica relays, in bytes.
pub const LOG_BATCH_LIMIT: usize = 8388608;

/// A log batch a replica relays must fit the limit.
pub fn check_batch_size(len: usize) -> (r: Result<(), ChatError>)
    ensures
        r is Ok <==> len <= LOG_BATCH_LIMIT,
        match r {
            Err(ChatError::Invalid(m)) => m@ == "Log batch is too large"@,
            Err(_) => false,
            Ok(_) => true,
        },
{
    if len > LOG_BATCH_LIMIT {
        Err(ChatError::Invalid("Log batch is too large".to_owned()))
    } else {
        Ok(())
    }
}

} // verus!
