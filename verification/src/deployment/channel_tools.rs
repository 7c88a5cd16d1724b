//! The tools a sidecar offers for its agent's channel connections: their
//! names and descriptions, which connection and tool a name calls, and the
//! text an agent streams into a message it sends.
use vstd::prelude::*;
use crate::deployment::proxy::{has_prefix, strip_prefix};
use crate::ids::{hex_digits, hyphenated, uuid_text};
use crate::json::{Json, JsonV, field, members, set_member, text_of};
use crate::text::str_eq;
use vstd::string::*;

verus! {

/// How a tool call is refused.
#[derive(Debug)]
pub enum ToolFault {
    InvalidArgument(String),
    NotFound(String),
}

/// A text without its hyphens.
pub open spec fn dehyphenated(s: Seq<char>) -> Seq<char> {
    s.filter(|c: char| c != '-')
}

/// The hyphenated form without its hyphens.
fn without_hyphens(text: &str) -> (r: String)
    ensures
        r@ == dehyphenated(text@),
{
    let mut r = String::new();
    let n = text.unicode_len();
    let mut i: usize = 0;
    while i < n
        invariant
            n == text@.len(),
            0 <= i <= n,
            r@ == dehyphenated(text@.subrange(0, i as int)),
        decreases n - i,
    {
        let c = text.get_char(i);
        if c != '-' {
            let one = text.substring_char(i, i + 1);
            proof {
                assert(one@ =~= seq![c]);
            }
            r.append(one);
        }
        proof {
            let s = text@.subrange(0, i as int + 1);
            assert(s =~= text@.subrange(0, i as int).push(c));
            text@.subrange(0, i as int).lemma_filter_push(c, |c: char| c != '-');
        }
        i = i + 1;
    }
    proof {
        assert(text@.subrange(0, n as int) =~= text@);
    }
    r
}

/// The name a connection's tool goes by: `channel_`, the connection's
/// simple form, a dot and the tool's own name.
pub open spec fn tool_name_of(connection: u128, tool: Seq<char>) -> Seq<char> {
    "channel_"@ + dehyphenated(hyphenated(connection)) + seq!['.'] + tool
}

/// The name a connection's tool goes by.
pub fn channel_tool_name(connection: u128, tool: &str) -> (r: String)
    ensures
        r@ == tool_name_of(connection, tool@),
{
    let id = uuid_text(connection);
    let compact = without_hyphens(id.as_str());
    let mut r = "channel_".to_owned();
    r.append(compact.as_str());
    r.append(".");
    r.append(tool);
    proof {
        reveal_strlit(".");
        assert(r@ =~= tool_name_of(connection, tool@));
    }
    r
}

/// The description of a connection's tool: the connection's name, its
/// account in brackets, and the tool's own description.
pub open spec fn tool_description_of(name: Seq<char>, account: Seq<char>, description: Seq<char>) -> Seq<char> {
    name + " ["@ + account + "]: "@ + description
}

/// The description of a connection's tool.
pub fn tool_description(name: &str, account: &str, description: &str) -> (r: String)
    ensures
        r@ == tool_description_of(name@, account@, description@),
{
    let mut r = name.to_owned();
    r.append(" [");
    r.append(account);
    r.append("]: ");
    r.append(description);
    r
}

/// The position of the first dot in a text.
pub open spec fn first_dot(s: Seq<char>, k: int) -> bool {
    0 <= k < s.len() && s[k] == '.' && forall|j: int| 0 <= j < k ==> s[j] != '.'
}

/// The connection and tool a tool name calls: after `channel_`, what comes
/// before the first dot and what comes after it. Other names are unknown.
#[verifier::loop_isolation(false)]
pub fn split_tool_name(name: &str) -> (r: Result<(String, String), ToolFault>)
    ensures
        ({
            let rest = name@.subrange(8, name@.len() as int);
            let known = has_prefix(name@, "channel_"@) && exists|k: int| first_dot(rest, k);
            &&& !known ==> (r matches Err(ToolFault::NotFound(m)) && m@ == "Unknown channel tool"@)
            &&& has_prefix(name@, "channel_"@) ==> forall|k: int| #[trigger] first_dot(rest, k)
                ==> (r matches Ok((c, t)) && c@ == rest.subrange(0, k) && t@ == rest.subrange(k + 1, rest.len() as int))
        }),
{
    proof {
        reveal_strlit("channel_");
    }
    let rest = match strip_prefix(name, "channel_") {
        Some(rest) => rest,
        None => return Err(ToolFault::NotFound("Unknown channel tool".to_owned())),
    };
    let n = rest.unicode_len();
    let mut k: usize = 0;
    while k < n
        invariant
            n == rest@.len(),
            0 <= k <= n,
            forall|j: int| 0 <= j < k ==> rest@[j] != '.',
        decreases n - k,
    {
        if rest.get_char(k) == '.' {
            proof {
                assert forall|q: int| first_dot(rest@, q) implies q == k by {
                    if q < k {
                        assert(rest@[q] != '.');
                    } else if q > k {
                        assert(rest@[k as int] == '.');
                    }
                }
                assert(first_dot(rest@, k as int));
                assert(rest@ == name@.subrange(8, name@.len() as int));
            }
            return Ok((rest.substring_char(0, k).to_owned(), rest.substring_char(k + 1, n).to_owned()));
        }
        k = k + 1;
    }
    proof {
        assert forall|q: int| !first_dot(rest@, q) by {
            if 0 <= q < rest@.len() && rest@[q] == '.' {
                assert(rest@[q] != '.');
            }
        }
    }
    Err(ToolFault::NotFound("Unknown channel tool".to_owned()))
}

/// Adds one streamed chunk to a message input: a chunk is an object with
/// exactly one member, the text delta, which joins the end of the input's
/// text; otherwise the reason it is refused.
pub open spec fn with_chunk(input: JsonV, chunk: JsonV) -> Result<JsonV, Seq<char>> {
    if !(members(chunk) matches Some(m) && m.len() == 1) {
        Err("Invalid message chunk"@)
    } else if !(field(chunk, "textDelta"@) matches Some(d) && text_of(d) is Some) {
        Err("Expected textDelta"@)
    } else if !(field(input, "text"@) matches Some(t) && text_of(t) is Some) {
        Err("Expected text"@)
    } else {
        let delta = text_of(field(chunk, "textDelta"@).unwrap()).unwrap();
        let text = text_of(field(input, "text"@).unwrap()).unwrap();
        Ok(JsonV::Object(set_member(members(input).unwrap(), "text"@, JsonV::Str(text + delta))))
    }
}

/// A message input with streamed chunks added in order, or the reason the
/// first refused chunk is refused.
pub open spec fn with_chunks(input: JsonV, chunks: Seq<JsonV>) -> Result<JsonV, Seq<char>>
    decreases chunks.len(),
{
    if chunks.len() == 0 {
        Ok(input)
    } else {
        match with_chunks(input, chunks.drop_last()) {
            Ok(cur) => with_chunk(cur, chunks.last()),
            Err(e) => Err(e),
        }
    }
}

/// The number of members of an object, if it is one.
fn member_count(j: &Json) -> (r: Option<usize>)
    ensures
        match r {
            Some(n) => members(j@) matches Some(m) && m.len() == n,
            None => members(j@) is None,
        },
{
    match j {
        Json::Object(entries) => {
            proof {
                crate::json::lemma_view_members(entries@);
            }
            Some(entries.len())
        },
        _ => None,
    }
}

/// Adds the text an agent streams to the input of a message it sends.
pub fn merge_chunks(input: Json, chunks: &Vec<Json>) -> (r: Result<Json, ToolFault>)
    ensures
        match with_chunks(input@, crate::json::view_items(chunks@)) {
            Ok(v) => r matches Ok(j) && j@ == v,
            Err(m) => r matches Err(ToolFault::InvalidArgument(e)) && e@ == m,
        },
{
    let mut cur = input;
    let mut i: usize = 0;
    proof {
        crate::json::lemma_view_items(chunks@);
        assert(crate::json::view_items(chunks@).subrange(0, 0) =~= Seq::<JsonV>::empty());
    }
    while i < chunks.len()
        invariant
            0 <= i <= chunks@.len(),
            crate::json::view_items(chunks@).len() == chunks@.len(),
            forall|k: int| 0 <= k < chunks@.len() ==> #[trigger] crate::json::view_items(chunks@)[k] == chunks@[k]@,
            with_chunks(input@, crate::json::view_items(chunks@).subrange(0, i as int)) == Ok::<JsonV, Seq<char>>(cur@),
        decreases chunks@.len() - i,
    {
        let ghost all = crate::json::view_items(chunks@);
        proof {
            assert(all.subrange(0, i as int + 1).drop_last() =~= all.subrange(0, i as int));
            assert(all.subrange(0, i as int + 1).last() == chunks@[i as int]@);
        }
        let chunk = &chunks[i];
        let single = match member_count(chunk) {
            Some(n) => n == 1,
            None => false,
        };
        if !single {
            proof {
                lemma_chunks_fail(input@, all, i as int + 1);
            }
            return Err(ToolFault::InvalidArgument("Invalid message chunk".to_owned()));
        }
        let delta = match chunk.get("textDelta") {
            Some(d) => match d.as_str() {
                Some(s) => s,
                None => {
                    proof {
                        lemma_chunks_fail(input@, all, i as int + 1);
                    }
                    return Err(ToolFault::InvalidArgument("Expected textDelta".to_owned()));
                },
            },
            None => {
                proof {
                    lemma_chunks_fail(input@, all, i as int + 1);
                }
                return Err(ToolFault::InvalidArgument("Expected textDelta".to_owned()));
            },
        };
        let mut text = match cur.get("text") {
            Some(t) => match t.as_str() {
                Some(s) => s.to_owned(),
                None => {
                    proof {
                        lemma_chunks_fail(input@, all, i as int + 1);
                    }
                    return Err(ToolFault::InvalidArgument("Expected text".to_owned()));
                },
            },
            None => {
                proof {
                    lemma_chunks_fail(input@, all, i as int + 1);
                }
                return Err(ToolFault::InvalidArgument("Expected text".to_owned()));
            },
        };
        text.append(delta);
        cur.set("text", Json::Str(text));
        i = i + 1;
    }
    proof {
        assert(crate::json::view_items(chunks@).subrange(0, chunks@.len() as int) =~= crate::json::view_items(chunks@));
    }
    Ok(cur)
}

proof fn lemma_hex_digits_no_dot(v: nat, n: nat)
    ensures
        forall|i: int| 0 <= i < n ==> #[trigger] hex_digits(v, n)[i] != '.',
        hex_digits(v, n).len() == n,
    decreases n,
{
    if n > 0 {
        lemma_hex_digits_no_dot(v / 16, (n - 1) as nat);
        let d = (v % 16) as int;
        assert(crate::ids::hex_char(d) != '.');
        assert forall|i: int| 0 <= i < n implies #[trigger] hex_digits(v, n)[i] != '.' by {
            if i < n - 1 {
                assert(hex_digits(v, n)[i] == hex_digits(v / 16, (n - 1) as nat)[i]);
            }
        }
    }
}

proof fn lemma_filter_no_dot(s: Seq<char>)
    requires
        forall|i: int| 0 <= i < s.len() ==> s[i] != '.',
    ensures
        forall|i: int| 0 <= i < dehyphenated(s).len() ==> #[trigger] dehyphenated(s)[i] != '.',
{
    assert forall|i: int| 0 <= i < dehyphenated(s).len() implies #[trigger] dehyphenated(s)[i] != '.' by {
        let x = dehyphenated(s)[i];
        assert(dehyphenated(s).contains(x));
        s.lemma_filter_contains_rev(|c: char| c != '-', x);
        let k = choose|k: int| 0 <= k < s.len() && s[k] == x;
        assert(s[k] != '.');
    }
}

/// A tool's name splits back into the connection's simple form and the
/// tool's own name: it starts with `channel_`, and its first dot after that
/// comes right after the connection.
pub proof fn law_tool_name_splits(connection: u128, tool: Seq<char>)
    ensures
        has_prefix(tool_name_of(connection, tool), "channel_"@),
        ({
            let name = tool_name_of(connection, tool);
            let rest = name.subrange(8, name.len() as int);
            let compact = dehyphenated(hyphenated(connection));
            &&& first_dot(rest, compact.len() as int)
            &&& rest.subrange(0, compact.len() as int) == compact
            &&& rest.subrange(compact.len() as int + 1, rest.len() as int) == tool
        }),
{
    reveal_strlit("channel_");
    let h = hex_digits(connection as nat, 32);
    lemma_hex_digits_no_dot(connection as nat, 32);
    let full = hyphenated(connection);
    assert forall|i: int| 0 <= i < full.len() implies full[i] != '.' by {
        if i < 8 {
            assert(full[i] == h[i]);
        } else if i == 8 || i == 13 || i == 18 || i == 23 {
        } else if i < 13 {
            assert(full[i] == h[i - 1]);
        } else if i < 18 {
            assert(full[i] == h[i - 2]);
        } else if i < 23 {
            assert(full[i] == h[i - 3]);
        } else {
            assert(full[i] == h[i - 4]);
        }
    }
    lemma_filter_no_dot(full);
    let compact = dehyphenated(full);
    let name = tool_name_of(connection, tool);
    let rest = name.subrange(8, name.len() as int);
    assert(rest =~= compact + seq!['.'] + tool);
    assert(name.subrange(0, 8) =~= "channel_"@);
    assert(rest.subrange(0, compact.len() as int) =~= compact);
    assert(rest.subrange(compact.len() as int + 1, rest.len() as int) =~= tool);
    assert forall|j: int| 0 <= j < compact.len() implies rest[j] != '.' by {
        assert(rest[j] == compact[j]);
    }
}

/// Once a chunk is refused, adding more chunks after it is refused the same way.
proof fn lemma_chunks_fail(input: JsonV, all: Seq<JsonV>, n: int)
    requires
        0 < n <= all.len(),
        with_chunks(input, all.subrange(0, n)) is Err,
    ensures
        with_chunks(input, all) == with_chunks(input, all.subrange(0, n)),
    decreases all.len() - n,
{
    if n < all.len() {
        let s = all.subrange(0, n + 1);
        assert(s.drop_last() =~= all.subrange(0, n));
        lemma_chunks_fail(input, all, n + 1);
    } else {
        assert(all.subrange(0, n) =~= all);
    }
}

} // verus!
