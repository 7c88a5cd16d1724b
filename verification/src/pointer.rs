//! JSON Pointer (RFC 6901) lookups on JSON values, as `serde_json`'s
//! `Value::pointer` resolves them.
use vstd::prelude::*;
use crate::json::{Json, JsonV, field, view_json, view_items, lemma_view_items};
use vstd::string::*;

verus! {

/// The first `/` at or after `from`, or the end of the text.
pub open spec fn next_slash(s: Seq<char>, from: int) -> int
    decreases s.len() - from,
{
    if from >= s.len() {
        s.len() as int
    } else if s[from] == '/' {
        from
    } else {
        next_slash(s, from + 1)
    }
}

proof fn lemma_next_slash(s: Seq<char>, from: int, i: int)
    requires
        0 <= from <= i <= s.len(),
        forall|k: int| from <= k < i ==> s[k] != '/',
        i == s.len() || s[i] == '/',
    ensures
        next_slash(s, from) == i,
    decreases i - from,
{
    if from < i {
        lemma_next_slash(s, from + 1, i);
    }
}

/// `s` with every `ab` (left to right, not overlapping) written as `c`.
pub open spec fn replace_pair(s: Seq<char>, a: char, b: char, c: char) -> Seq<char>
    decreases s.len(),
{
    if s.len() >= 2 && s[0] == a && s[1] == b {
        seq![c] + replace_pair(s.subrange(2, s.len() as int), a, b, c)
    } else if s.len() == 0 {
        s
    } else {
        seq![s[0]] + replace_pair(s.drop_first(), a, b, c)
    }
}

/// A reference token as it names a member: `~1` stands for `/`, then `~0`
/// for `~`.
pub open spec fn unescape(t: Seq<char>) -> Seq<char> {
    replace_pair(replace_pair(t, '~', '1', '/'), '~', '0', '~')
}

/// Whether every character is a decimal digit.
pub open spec fn all_digits(t: Seq<char>) -> bool {
    forall|i: int| 0 <= i < t.len() ==> '0' <= #[trigger] t[i] <= '9'
}

/// The number decimal digits write.
pub open spec fn digits_value(t: Seq<char>) -> nat
    decreases t.len(),
{
    if t.len() == 0 {
        0
    } else {
        digits_value(t.drop_last()) * 10 + (t.last() as nat - 48) as nat
    }
}

/// The array index a reference token names: digits without a leading zero
/// (but `0` itself) whose value fits `usize`.
pub open spec fn index_of(t: Seq<char>) -> Option<nat> {
    if t.len() == 0 || !all_digits(t) || (t[0] == '0' && t.len() != 1) {
        None
    } else if digits_value(t) <= usize::MAX {
        Some(digits_value(t))
    } else {
        None
    }
}

/// One step of a pointer: an object's member under the token, or an array's
/// element at the index it names.
pub open spec fn step(j: JsonV, token: Seq<char>) -> Option<JsonV> {
    match j {
        JsonV::Object(_) => field(j, token),
        JsonV::Array(items) => match index_of(token) {
            Some(i) => if i < items.len() { Some(items[i as int]) } else { None },
            None => None,
        },
        _ => None,
    }
}

/// Following the reference tokens of `p` that start at `from`.
pub open spec fn walk(j: JsonV, p: Seq<char>, from: int) -> Option<JsonV>
    decreases p.len() - from,
{
    if from > p.len() || from < 0 {
        None
    } else {
        let e = next_slash(p, from);
        match step(j, unescape(p.subrange(from, e))) {
            None => None,
            Some(v) => if e >= p.len() || e < from {
                Some(v)
            } else {
                walk(v, p, e + 1)
            },
        }
    }
}

/// The value a JSON pointer refers to: the whole value for the empty pointer,
/// nothing for one that does not start with `/`.
pub open spec fn pointer_of(j: JsonV, p: Seq<char>) -> Option<JsonV> {
    if p.len() == 0 {
        Some(j)
    } else if p[0] != '/' {
        None
    } else {
        walk(j, p, 1)
    }
}

/// `s` with each `ab` written as `c`, where `c` is the one character of `with`.
fn replace_chars(s: &str, a: char, b: char, with: &str) -> (r: String)
    requires
        with@.len() == 1,
    ensures
        r@ == replace_pair(s@, a, b, with@[0]),
{
    let n = s.unicode_len();
    let mut out = String::new();
    let mut i: usize = 0;
    proof {
        assert(s@.subrange(0, n as int) =~= s@);
    }
    while i < n
        invariant
            n == s@.len(),
            0 <= i <= n,
            with@.len() == 1,
            replace_pair(s@, a, b, with@[0]) == out@ + replace_pair(s@.subrange(i as int, n as int), a, b, with@[0]),
        decreases n - i,
    {
        let ghost rest = s@.subrange(i as int, n as int);
        if i + 1 < n && s.get_char(i) == a && s.get_char(i + 1) == b {
            proof {
                assert(rest.subrange(2, rest.len() as int) =~= s@.subrange(i + 2, n as int));
                assert(with@ =~= seq![with@[0]]);
            }
            out.append(with);
            i = i + 2;
        } else {
            let piece = s.substring_char(i, i + 1);
            proof {
                assert(rest.drop_first() =~= s@.subrange(i + 1, n as int));
                assert(piece@ =~= seq![rest[0]]);
            }
            out.append(piece);
            i = i + 1;
        }
    }
    proof {
        assert(s@.subrange(n as int, n as int) =~= Seq::<char>::empty());
        assert(out@ + Seq::<char>::empty() =~= out@);
    }
    out
}

/// The member name a reference token stands for.
pub fn unescape_token(t: &str) -> (r: String)
    ensures
        r@ == unescape(t@),
{
    proof {
        reveal_strlit("/");
        reveal_strlit("~");
    }
    let slashed = replace_chars(t, '~', '1', "/");
    replace_chars(slashed.as_str(), '~', '0', "~")
}

/// Digits read so far never exceed the value of all of them.
pub proof fn lemma_digits_prefix(t: Seq<char>, j: int)
    requires
        0 <= j <= t.len(),
        all_digits(t),
    ensures
        digits_value(t.subrange(0, j)) <= digits_value(t),
    decreases t.len(),
{
    if j < t.len() {
        assert(t.drop_last().subrange(0, j) =~= t.subrange(0, j));
        lemma_digits_prefix(t.drop_last(), j);
    } else {
        assert(t.subrange(0, j) =~= t);
    }
}

/// The array index a reference token names.
pub fn index_token(t: &str) -> (r: Option<usize>)
    ensures
        match r {
            Some(i) => index_of(t@) == Some(i as nat),
            None => index_of(t@) is None,
        },
{
    let n = t.unicode_len();
    if n == 0 {
        return None;
    }
    if t.get_char(0) == '0' && n != 1 {
        return None;
    }
    let mut acc: usize = 0;
    let mut i: usize = 0;
    proof {
        assert(t@.subrange(0, 0) =~= Seq::<char>::empty());
    }
    while i < n
        invariant
            n == t@.len(),
            0 <= i <= n,
            all_digits(t@.subrange(0, i as int)),
            acc == digits_value(t@.subrange(0, i as int)),
        decreases n - i,
    {
        let c = t.get_char(i);
        if c < '0' || c > '9' {
            return None;
        }
        let d = (c as u32 - 48) as usize;
        let ghost prefix = t@.subrange(0, i as int + 1);
        proof {
            assert(prefix.drop_last() =~= t@.subrange(0, i as int));
            assert(prefix.last() == c);
            assert forall|k: int| 0 <= k < prefix.len() implies '0' <= #[trigger] prefix[k] <= '9' by {
                if k < i {
                    assert(prefix[k] == t@.subrange(0, i as int)[k]);
                }
            }
        }
        if acc > (usize::MAX - d) / 10 {
            proof {
                assert(digits_value(prefix) > usize::MAX);
                if all_digits(t@) {
                    lemma_digits_prefix(t@, i as int + 1);
                }
            }
            return None;
        }
        acc = acc * 10 + d;
        i = i + 1;
    }
    proof {
        assert(t@.subrange(0, n as int) =~= t@);
    }
    Some(acc)
}

impl Json {
    /// One step of a pointer from this value.
    fn step_into(&self, token: &str) -> (r: Option<&Json>)
        ensures
            match r {
                Some(v) => step(self@, token@) == Some(v@),
                None => step(self@, token@) is None,
            },
    {
        match self {
            Json::Object(_) => self.get(token),
            Json::Array(items) => {
                proof {
                    lemma_view_items(items@);
                }
                match index_token(token) {
                    Some(i) => if i < items.len() {
                        Some(&items[i])
                    } else {
                        None
                    },
                    None => None,
                }
            },
            _ => None,
        }
    }

    /// `value.pointer(p)`: the value the JSON pointer `p` refers to.
    pub fn pointer(&self, p: &str) -> (r: Option<&Json>)
        ensures
            match r {
                Some(v) => pointer_of(self@, p@) == Some(v@),
                None => pointer_of(self@, p@) is None,
            },
    {
        let n = p.unicode_len();
        if n == 0 {
            return Some(self);
        }
        if p.get_char(0) != '/' {
            return None;
        }
        let mut cur: &Json = self;
        let mut from: usize = 1;
        loop
            invariant
                n == p@.len(),
                n > 0,
                p@[0] == '/',
                1 <= from <= n,
                pointer_of(self@, p@) == walk(cur@, p@, from as int),
            decreases n - from,
        {
            let mut e: usize = from;
            while e < n && p.get_char(e) != '/'
                invariant
                    n == p@.len(),
                    from <= e <= n,
                    forall|k: int| from <= k < e ==> p@[k] != '/',
                decreases n - e,
            {
                e = e + 1;
            }
            proof {
                lemma_next_slash(p@, from as int, e as int);
            }
            let raw = p.substring_char(from, e);
            let token = unescape_token(raw);
            match cur.step_into(token.as_str()) {
                None => return None,
                Some(v) => {
                    if e >= n {
                        return Some(v);
                    }
                    cur = v;
                    from = e + 1;
                },
            }
        }
    }
}

} // verus!
