//! JSON values as the library reads and builds them, and their encoding as bytes.
use vstd::prelude::*;
use vstd::string::*;
use vstd::utf8::*;
use crate::text::str_eq;

verus! {

broadcast use vstd::std_specs::vec::group_vec_axioms;

/// A JSON number: an unsigned integer, a signed integer, or any other
/// number kept as its decimal text.
#[derive(Debug)]
pub enum JsonNumber {
    Unsigned(u64),
    Signed(i64),
    Decimal(String),
}

/// A JSON value. Object members keep their order; their keys are distinct.
#[derive(Debug)]
pub enum Json {
    Null,
    Bool(bool),
    Number(JsonNumber),
    Str(String),
    Array(Vec<Json>),
    Object(Vec<(String, Json)>),
}

/// What a JSON number denotes.
pub enum NumberV {
    Unsigned(u64),
    Signed(i64),
    Decimal(Seq<char>),
}

/// What a JSON value denotes: strings as text, arrays and objects as sequences.
pub enum JsonV {
    Null,
    Bool(bool),
    Number(NumberV),
    Str(Seq<char>),
    Array(Seq<JsonV>),
    Object(Seq<(Seq<char>, JsonV)>),
}

pub open spec fn view_number(n: JsonNumber) -> NumberV {
    match n {
        JsonNumber::Unsigned(u) => NumberV::Unsigned(u),
        JsonNumber::Signed(i) => NumberV::Signed(i),
        JsonNumber::Decimal(t) => NumberV::Decimal(t@),
    }
}

pub open spec fn view_json(j: Json) -> JsonV
    decreases j,
{
    match j {
        Json::Null => JsonV::Null,
        Json::Bool(b) => JsonV::Bool(b),
        Json::Number(n) => JsonV::Number(view_number(n)),
        Json::Str(s) => JsonV::Str(s@),
        Json::Array(a) => JsonV::Array(view_items(a@)),
        Json::Object(e) => JsonV::Object(view_members(e@)),
    }
}

pub open spec fn view_items(s: Seq<Json>) -> Seq<JsonV>
    decreases s,
{
    if s.len() == 0 {
        seq![]
    } else {
        view_items(s.drop_last()).push(view_json(s.last()))
    }
}

pub open spec fn view_members(s: Seq<(String, Json)>) -> Seq<(Seq<char>, JsonV)>
    decreases s,
{
    if s.len() == 0 {
        seq![]
    } else {
        view_members(s.drop_last()).push((s.last().0@, view_json(s.last().1)))
    }
}

pub proof fn lemma_view_items(s: Seq<Json>)
    ensures
        view_items(s).len() == s.len(),
        forall|i: int| 0 <= i < s.len() ==> #[trigger] view_items(s)[i] == view_json(s[i]),
    decreases s.len(),
{
    if s.len() > 0 {
        lemma_view_items(s.drop_last());
    }
}

pub proof fn lemma_view_members(s: Seq<(String, Json)>)
    ensures
        view_members(s).len() == s.len(),
        forall|i: int|
            0 <= i < s.len() ==> #[trigger] view_members(s)[i] == (s[i].0@, view_json(s[i].1)),
    decreases s.len(),
{
    if s.len() > 0 {
        lemma_view_members(s.drop_last());
    }
}

impl View for JsonNumber {
    type V = NumberV;

    open spec fn view(&self) -> NumberV {
        view_number(*self)
    }
}

impl View for Json {
    type V = JsonV;

    open spec fn view(&self) -> JsonV {
        view_json(*self)
    }
}

/// The value stored under `key` among object members.
pub open spec fn entry(entries: Seq<(Seq<char>, JsonV)>, key: Seq<char>) -> Option<JsonV>
    decreases entries.len(),
{
    if entries.len() == 0 {
        None
    } else if entries[0].0 == key {
        Some(entries[0].1)
    } else {
        entry(entries.drop_first(), key)
    }
}

/// `value.get(key)`: the member of an object, or nothing.
pub open spec fn field(j: JsonV, key: Seq<char>) -> Option<JsonV> {
    match j {
        JsonV::Object(entries) => entry(entries, key),
        _ => None,
    }
}

/// `value[key]`: the member of an object, or `null`.
pub open spec fn at(j: JsonV, key: Seq<char>) -> JsonV {
    match field(j, key) {
        Some(v) => v,
        None => JsonV::Null,
    }
}

/// The text of a string value.
pub open spec fn text_of(j: JsonV) -> Option<Seq<char>> {
    match j {
        JsonV::Str(s) => Some(s),
        _ => None,
    }
}

/// The members of an object value.
pub open spec fn members(j: JsonV) -> Option<Seq<(Seq<char>, JsonV)>> {
    match j {
        JsonV::Object(e) => Some(e),
        _ => None,
    }
}

/// The items of an array value.
pub open spec fn items(j: JsonV) -> Option<Seq<JsonV>> {
    match j {
        JsonV::Array(a) => Some(a),
        _ => None,
    }
}

/// Whether a key occurs among object members.
pub open spec fn has_key(entries: Seq<(Seq<char>, JsonV)>, key: Seq<char>) -> bool {
    exists|i: int| 0 <= i < entries.len() && #[trigger] entries[i].0 == key
}

/// Object members whose keys are pairwise distinct.
pub open spec fn distinct_keys(entries: Seq<(Seq<char>, JsonV)>) -> bool {
    forall|i: int, j: int|
        0 <= i < j < entries.len() ==> #[trigger] entries[i].0 != #[trigger] entries[j].0
}

/// Whether a number is an integer that fits `i64`.
pub open spec fn number_is_i64(n: NumberV) -> bool {
    match n {
        NumberV::Unsigned(u) => u <= i64::MAX,
        NumberV::Signed(_) => true,
        NumberV::Decimal(_) => false,
    }
}

/// Whether a number is an integer that fits `u64`.
pub open spec fn number_is_u64(n: NumberV) -> bool {
    match n {
        NumberV::Unsigned(_) => true,
        NumberV::Signed(i) => i >= 0,
        NumberV::Decimal(_) => false,
    }
}

pub proof fn lemma_entry_has_key(entries: Seq<(Seq<char>, JsonV)>, key: Seq<char>)
    ensures
        entry(entries, key) is Some <==> has_key(entries, key),
    decreases entries.len(),
{
    if entries.len() > 0 {
        lemma_entry_has_key(entries.drop_first(), key);
        if has_key(entries, key) && entries[0].0 != key {
            let i = choose|i: int| 0 <= i < entries.len() && #[trigger] entries[i].0 == key;
            assert(entries.drop_first()[i - 1].0 == key);
        }
        if has_key(entries.drop_first(), key) {
            let i = choose|i: int|
                0 <= i < entries.drop_first().len() && #[trigger] entries.drop_first()[i].0
                    == key;
            assert(entries[i + 1].0 == key);
        }
    }
}

pub proof fn lemma_entry_at(entries: Seq<(Seq<char>, JsonV)>, key: Seq<char>, i: int)
    requires
        0 <= i < entries.len(),
        entries[i].0 == key,
        forall|k: int| 0 <= k < i ==> #[trigger] entries[k].0 != key,
    ensures
        entry(entries, key) == Some(entries[i].1),
    decreases entries.len(),
{
    if i > 0 {
        assert forall|k: int| 0 <= k < i - 1 implies #[trigger] entries.drop_first()[k].0
            != key by {
            assert(entries[k + 1].0 != key);
        }
        lemma_entry_at(entries.drop_first(), key, i - 1);
    }
}

impl Json {
    /// `value.get(key)`.
    #[verifier::loop_isolation(false)]
    pub fn get(&self, key: &str) -> (r: Option<&Json>)
        ensures
            match r {
                Some(v) => field(self@, key@) == Some(v@),
                None => field(self@, key@) is None,
            },
    {
        match self {
            Json::Object(entries) => {
                proof {
                    lemma_view_members(entries@);
                }
                let mut i: usize = 0;
                while i < entries.len()
                    invariant
                        0 <= i <= entries@.len(),
                        forall|k: int| 0 <= k < i ==> #[trigger] entries@[k].0@ != key@,
                    decreases entries@.len() - i,
                {
                    if str_eq(entries[i].0.as_str(), key) {
                        proof {
                            let vm = view_members(entries@);
                            assert forall|k: int| 0 <= k < i implies #[trigger] vm[k].0 != key@ by {
                                assert(entries@[k].0@ != key@);
                            }
                            lemma_entry_at(vm, key@, i as int);
                        }
                        return Some(&entries[i].1);
                    }
                    i = i + 1;
                }
                proof {
                    let vm = view_members(entries@);
                    lemma_entry_has_key(vm, key@);
                    if has_key(vm, key@) {
                        let k = choose|k: int| 0 <= k < vm.len() && #[trigger] vm[k].0 == key@;
                        assert(entries@[k].0@ == key@);
                    }
                }
                None
            },
            _ => None,
        }
    }

    /// `value.as_str()`.
    pub fn as_str(&self) -> (r: Option<&str>)
        ensures
            match r {
                Some(s) => text_of(self@) == Some(s@),
                None => text_of(self@) is None,
            },
    {
        match self {
            Json::Str(s) => Some(s.as_str()),
            _ => None,
        }
    }

    /// `value.as_bool()`.
    pub fn as_bool(&self) -> (r: Option<bool>)
        ensures
            r == (match self@ {
                JsonV::Bool(b) => Some(b),
                _ => None,
            }),
    {
        match self {
            Json::Bool(b) => Some(*b),
            _ => None,
        }
    }

    /// Whether the value is the given string.
    pub fn is_text(&self, s: &str) -> (r: bool)
        ensures
            r == (self@ == JsonV::Str(s@)),
    {
        match self {
            Json::Str(t) => str_eq(t.as_str(), s),
            _ => false,
        }
    }

    /// Whether the value is the given boolean.
    pub fn is_bool(&self, b: bool) -> (r: bool)
        ensures
            r == (self@ == JsonV::Bool(b)),
    {
        match self {
            Json::Bool(x) => *x == b,
            _ => false,
        }
    }

    /// A copy of the value.
    #[verifier::loop_isolation(false)]
    pub fn duplicate(&self) -> (r: Json)
        ensures
            r@ == self@,
        decreases self,
    {
        match self {
            Json::Null => Json::Null,
            Json::Bool(b) => Json::Bool(*b),
            Json::Number(n) => Json::Number(
                match n {
                    JsonNumber::Unsigned(u) => JsonNumber::Unsigned(*u),
                    JsonNumber::Signed(i) => JsonNumber::Signed(*i),
                    JsonNumber::Decimal(t) => JsonNumber::Decimal(t.clone()),
                },
            ),
            Json::Str(s) => Json::Str(s.clone()),
            Json::Array(a) => {
                let mut out: Vec<Json> = Vec::new();
                let mut i: usize = 0;
                while i < a.len()
                    invariant
                        0 <= i <= a@.len(),
                        out@.len() == i,
                        forall|k: int| 0 <= k < i ==> out@[k]@ == a@[k]@,
                    decreases a@.len() - i,
                {
                    proof {
                        assert(decreases_to!(*a => a[i as int]));
                    }
                    out.push(a[i].duplicate());
                    i = i + 1;
                }
                proof {
                    lemma_view_items(out@);
                    lemma_view_items(a@);
                    assert(view_items(out@) =~= view_items(a@));
                }
                Json::Array(out)
            },
            Json::Object(e) => {
                let mut out: Vec<(String, Json)> = Vec::new();
                let mut i: usize = 0;
                while i < e.len()
                    invariant
                        0 <= i <= e@.len(),
                        out@.len() == i,
                        forall|k: int| 0 <= k < i ==> out@[k].0@ == e@[k].0@ && out@[k].1@ == e@[k].1@,
                    decreases e@.len() - i,
                {
                    proof {
                        assert(decreases_to!(*e => e[i as int]));
                        assert(decreases_to!(e[i as int] => e[i as int].1));
                    }
                    out.push((e[i].0.clone(), e[i].1.duplicate()));
                    i = i + 1;
                }
                proof {
                    lemma_view_members(out@);
                    lemma_view_members(e@);
                    assert(view_members(out@) =~= view_members(e@));
                }
                Json::Object(out)
            },
        }
    }
}

// ---------------------------------------------------------------------------
// Encoding

/// The byte of a hexadecimal digit, in lower case.
pub open spec fn hex_digit(d: nat) -> u8 {
    if d < 10 {
        (48 + d) as u8
    } else {
        (87 + d) as u8
    }
}

/// A byte of string content, escaped.
pub open spec fn escape_byte(b: u8) -> Seq<u8> {
    if b == 34 {
        seq![92u8, 34u8]
    } else if b == 92 {
        seq![92u8, 92u8]
    } else if b < 32 {
        seq![92u8, 117u8, 48u8, 48u8, hex_digit((b / 16) as nat), hex_digit((b % 16) as nat)]
    } else {
        seq![b]
    }
}

/// String content, escaped.
pub open spec fn escaped(s: Seq<u8>) -> Seq<u8>
    decreases s.len(),
{
    if s.len() == 0 {
        seq![]
    } else {
        escaped(s.drop_last()) + escape_byte(s.last())
    }
}

/// A quoted JSON string.
pub open spec fn quoted(s: Seq<u8>) -> Seq<u8> {
    seq![34u8] + escaped(s) + seq![34u8]
}

/// Decimal digits of a natural number.
pub open spec fn decimal(n: nat) -> Seq<u8>
    decreases n,
{
    if n < 10 {
        seq![(48 + n) as u8]
    } else {
        decimal(n / 10) + seq![(48 + n % 10) as u8]
    }
}

/// The encoding of a number.
pub open spec fn number_bytes(n: NumberV) -> Seq<u8> {
    match n {
        NumberV::Unsigned(u) => decimal(u as nat),
        NumberV::Signed(i) => if i < 0 {
            seq![45u8] + decimal((-i) as nat)
        } else {
            decimal(i as nat)
        },
        NumberV::Decimal(t) => encode_utf8(t),
    }
}

/// The encoding of a value as JSON bytes.
pub open spec fn encode(j: JsonV) -> Seq<u8>
    decreases j,
{
    match j {
        JsonV::Null => seq![110u8, 117u8, 108u8, 108u8],
        JsonV::Bool(b) => if b {
            seq![116u8, 114u8, 117u8, 101u8]
        } else {
            seq![102u8, 97u8, 108u8, 115u8, 101u8]
        },
        JsonV::Number(n) => number_bytes(n),
        JsonV::Str(s) => quoted(encode_utf8(s)),
        JsonV::Array(a) => seq![91u8] + encode_items(a) + seq![93u8],
        JsonV::Object(e) => seq![123u8] + encode_members(e) + seq![125u8],
    }
}

/// Comma-separated encodings of array items.
pub open spec fn encode_items(s: Seq<JsonV>) -> Seq<u8>
    decreases s,
{
    if s.len() == 0 {
        seq![]
    } else if s.len() == 1 {
        encode(s[0])
    } else {
        encode_items(s.drop_last()) + seq![44u8] + encode(s.last())
    }
}

/// Comma-separated encodings of object members.
pub open spec fn encode_members(s: Seq<(Seq<char>, JsonV)>) -> Seq<u8>
    decreases s,
{
    if s.len() == 0 {
        seq![]
    } else if s.len() == 1 {
        quoted(encode_utf8(s[0].0)) + seq![58u8] + encode(s[0].1)
    } else {
        encode_members(s.drop_last()) + seq![44u8] + quoted(encode_utf8(s.last().0)) + seq![
            58u8,
        ] + encode(s.last().1)
    }
}

fn push_hex(out: &mut Vec<u8>, d: u8)
    requires
        d < 16,
    ensures
        final(out)@ == old(out)@.push(hex_digit(d as nat)),
{
    if d < 10 {
        out.push(48 + d);
    } else {
        out.push(87 + d);
    }
}

fn write_escaped(out: &mut Vec<u8>, s: &[u8])
    ensures
        final(out)@ == old(out)@ + escaped(s@),
{
    let ghost start = out@;
    let mut i: usize = 0;
    while i < s.len()
        invariant
            0 <= i <= s@.len(),
            out@ == start + escaped(s@.take(i as int)),
        decreases s@.len() - i,
    {
        let b = s[i];
        proof {
            assert(s@.take(i as int + 1).drop_last() =~= s@.take(i as int));
        }
        if b == 34 {
            out.push(92);
            out.push(34);
        } else if b == 92 {
            out.push(92);
            out.push(92);
        } else if b < 32 {
            out.push(92);
            out.push(117);
            out.push(48);
            out.push(48);
            push_hex(out, b / 16);
            push_hex(out, b % 16);
        } else {
            out.push(b);
        }
        proof {
            assert(out@ =~= start + escaped(s@.take(i as int)) + escape_byte(b));
        }
        i = i + 1;
    }
    proof {
        assert(s@.take(s@.len() as int) =~= s@);
    }
}

fn write_quoted(out: &mut Vec<u8>, s: &str)
    ensures
        final(out)@ == old(out)@ + quoted(s.spec_bytes()),
{
    let ghost start = out@;
    out.push(34);
    write_escaped(out, s.as_bytes());
    out.push(34);
    proof {
        assert(out@ =~= start + quoted(s.spec_bytes()));
    }
}

fn write_decimal(out: &mut Vec<u8>, n: u64)
    ensures
        final(out)@ == old(out)@ + decimal(n as nat),
    decreases n,
{
    let ghost start = out@;
    if n >= 10 {
        write_decimal(out, n / 10);
    }
    out.push(48 + (n % 10) as u8);
    proof {
        assert(out@ =~= start + decimal(n as nat));
    }
}

fn write_bytes(out: &mut Vec<u8>, s: &[u8])
    ensures
        final(out)@ == old(out)@ + s@,
{
    let ghost start = out@;
    let mut i: usize = 0;
    while i < s.len()
        invariant
            0 <= i <= s@.len(),
            out@ == start + s@.take(i as int),
        decreases s@.len() - i,
    {
        out.push(s[i]);
        proof {
            assert(s@.take(i as int + 1) =~= s@.take(i as int).push(s@[i as int]));
        }
        i = i + 1;
    }
    proof {
        assert(s@.take(s@.len() as int) =~= s@);
    }
}

impl Json {
    /// Append the JSON encoding of the value.
    #[verifier::loop_isolation(false)]
    pub fn write(&self, out: &mut Vec<u8>)
        ensures
            final(out)@ == old(out)@ + encode(self@),
        decreases self,
    {
        let ghost start = out@;
        match self {
            Json::Null => {
                out.push(110);
                out.push(117);
                out.push(108);
                out.push(108);
            },
            Json::Bool(b) => {
                if *b {
                    out.push(116);
                    out.push(114);
                    out.push(117);
                    out.push(101);
                } else {
                    out.push(102);
                    out.push(97);
                    out.push(108);
                    out.push(115);
                    out.push(101);
                }
            },
            Json::Number(n) => {
                match n {
                    JsonNumber::Unsigned(u) => write_decimal(out, *u),
                    JsonNumber::Signed(i) => {
                        if *i < 0 {
                            out.push(45);
                            let magnitude: u64 = ((-(*i + 1)) as u64) + 1;
                            write_decimal(out, magnitude);
                        } else {
                            write_decimal(out, *i as u64);
                        }
                    },
                    JsonNumber::Decimal(t) => write_bytes(out, t.as_str().as_bytes()),
                }
            },
            Json::Str(s) => write_quoted(out, s.as_str()),
            Json::Array(a) => {
                out.push(91);
                let ghost mid = out@;
                proof {
                    lemma_view_items(a@);
                }
                let mut i: usize = 0;
                while i < a.len()
                    invariant
                        0 <= i <= a@.len(),
                        out@ == mid + encode_items(view_items(a@).take(i as int)),
                    decreases a@.len() - i,
                {
                    proof {
                        assert(view_items(a@).take(i as int + 1).drop_last() =~= view_items(a@).take(i as int));
                        assert(decreases_to!(*a => a[i as int]));
                    }
                    if i > 0 {
                        out.push(44);
                    }
                    a[i].write(out);
                    proof {
                        if i == 0 {
                            assert(out@ =~= mid + encode_items(view_items(a@).take(1)));
                        } else {
                            assert(out@ =~= mid + encode_items(view_items(a@).take(i as int + 1)));
                        }
                    }
                    i = i + 1;
                }
                out.push(93);
                proof {
                    assert(view_items(a@).take(a@.len() as int) =~= view_items(a@));
                }
            },
            Json::Object(e) => {
                out.push(123);
                let ghost mid = out@;
                proof {
                    lemma_view_members(e@);
                }
                let mut i: usize = 0;
                while i < e.len()
                    invariant
                        0 <= i <= e@.len(),
                        out@ == mid + encode_members(view_members(e@).take(i as int)),
                    decreases e@.len() - i,
                {
                    proof {
                        assert(view_members(e@).take(i as int + 1).drop_last() =~= view_members(e@).take(i as int));
                        assert(decreases_to!(*e => e[i as int]));
                        assert(decreases_to!(e[i as int] => e[i as int].1));
                    }
                    if i > 0 {
                        out.push(44);
                    }
                    write_quoted(out, e[i].0.as_str());
                    out.push(58);
                    e[i].1.write(out);
                    proof {
                        if i == 0 {
                            assert(out@ =~= mid + encode_members(view_members(e@).take(1)));
                        } else {
                            assert(out@ =~= mid + encode_members(view_members(e@).take(i as int + 1)));
                        }
                    }
                    i = i + 1;
                }
                out.push(125);
                proof {
                    assert(view_members(e@).take(e@.len() as int) =~= view_members(e@));
                }
            },
        }
        proof {
            assert(out@ =~= start + encode(self@));
        }
    }

    /// The JSON encoding of the value.
    pub fn to_bytes(&self) -> (r: Vec<u8>)
        ensures
            r@ == encode(self@),
    {
        let mut out: Vec<u8> = Vec::new();
        self.write(&mut out);
        proof {
            assert(out@ =~= encode(self@));
        }
        out
    }
}

// ---------------------------------------------------------------------------
// What `serde_json` makes of values

/// The length in bytes of the compact text that `serde_json` prints for the
/// JSON these bytes hold (`Value::to_string`), or nothing where they hold no JSON.
pub uninterp spec fn canonical_length(bytes: Seq<u8>) -> Option<nat>;

/// `serde_json::from_slice::<Value>(bytes)` followed by `to_string().len()`.
#[verifier::external_body]
pub(crate) fn serialized_length(bytes: &[u8]) -> (r: Option<usize>)
    ensures
        match r {
            Some(n) => canonical_length(bytes@) == Some(n as nat),
            None => canonical_length(bytes@) is None,
        },
{
    serde_json::from_slice::<serde_json::Value>(bytes).ok().map(|v| v.to_string().len())
}

/// The number `serde_json` reads from text (`from_str::<Number>`), or nothing
/// where the text is no JSON number.
pub uninterp spec fn number_literal(text: Seq<char>) -> Option<NumberV>;

/// `serde_json::from_str::<Number>(text)`.
#[verifier::external_body]
pub(crate) fn parse_number(text: &str) -> (r: Option<JsonNumber>)
    ensures
        match r {
            Some(n) => number_literal(text@) == Some(n@),
            None => number_literal(text@) is None,
        },
{
    serde_json::from_str::<serde_json::Number>(text).ok().map(|n| match (n.as_u64(), n.as_i64()) {
        (Some(u), _) => JsonNumber::Unsigned(u),
        (None, Some(i)) => JsonNumber::Signed(i),
        (None, None) => JsonNumber::Decimal(n.to_string()),
    })
}

// ---------------------------------------------------------------------------
// Building values

/// The position of the first member under `key`.
pub open spec fn key_index(entries: Seq<(Seq<char>, JsonV)>, key: Seq<char>) -> Option<nat>
    decreases entries.len(),
{
    if entries.len() == 0 {
        None
    } else if entries[0].0 == key {
        Some(0)
    } else {
        match key_index(entries.drop_first(), key) {
            Some(i) => Some(i + 1),
            None => None,
        }
    }
}

pub proof fn lemma_key_index(entries: Seq<(Seq<char>, JsonV)>, key: Seq<char>, i: int)
    requires
        0 <= i <= entries.len(),
        forall|k: int| 0 <= k < i ==> #[trigger] entries[k].0 != key,
        i < entries.len() ==> entries[i].0 == key,
    ensures
        key_index(entries, key) == (if i < entries.len() {
            Some(i as nat)
        } else {
            None::<nat>
        }),
    decreases entries.len(),
{
    if i > 0 {
        assert forall|k: int| 0 <= k < i - 1 implies #[trigger] entries.drop_first()[k].0
            != key by {
            assert(entries[k + 1].0 != key);
        }
        lemma_key_index(entries.drop_first(), key, i - 1);
    }
}

/// Byte-wise lexicographic order, the order of `String`'s `Ord`.
pub open spec fn bytes_less(a: Seq<u8>, b: Seq<u8>) -> bool
    decreases a.len(),
{
    if a.len() == 0 {
        b.len() > 0
    } else if b.len() == 0 {
        false
    } else if a[0] != b[0] {
        a[0] < b[0]
    } else {
        bytes_less(a.drop_first(), b.drop_first())
    }
}

/// Whether one key sorts before another.
pub open spec fn key_less(a: Seq<char>, b: Seq<char>) -> bool {
    bytes_less(encode_utf8(a), encode_utf8(b))
}

/// Where a new key goes: after the leading members whose keys sort before it.
pub open spec fn insert_point(entries: Seq<(Seq<char>, JsonV)>, key: Seq<char>) -> nat
    decreases entries.len(),
{
    if entries.len() == 0 {
        0
    } else if key_less(entries[0].0, key) {
        1 + insert_point(entries.drop_first(), key)
    } else {
        0
    }
}

/// Object members with `key` set to `value` the way a `serde_json` map does:
/// replaced where the key occurs, inserted in key order otherwise.
pub open spec fn set_member(entries: Seq<(Seq<char>, JsonV)>, key: Seq<char>, value: JsonV) -> Seq<
    (Seq<char>, JsonV),
> {
    match key_index(entries, key) {
        Some(i) => entries.update(i as int, (key, value)),
        None => entries.insert(insert_point(entries, key) as int, (key, value)),
    }
}

pub proof fn lemma_insert_point(entries: Seq<(Seq<char>, JsonV)>, key: Seq<char>, i: int)
    requires
        0 <= i <= entries.len(),
        forall|k: int| 0 <= k < i ==> key_less(#[trigger] entries[k].0, key),
        i < entries.len() ==> !key_less(entries[i].0, key),
    ensures
        insert_point(entries, key) == i,
    decreases entries.len(),
{
    if i > 0 {
        assert forall|k: int| 0 <= k < i - 1 implies key_less(
            #[trigger] entries.drop_first()[k].0,
            key,
        ) by {
            assert(key_less(entries[k + 1].0, key));
        }
        assert(key_less(entries[0].0, key));
        lemma_insert_point(entries.drop_first(), key, i - 1);
    }
}

/// `a < b` on strings.
pub fn str_less(a: &str, b: &str) -> (r: bool)
    ensures
        r == key_less(a@, b@),
{
    let x = a.as_bytes();
    let y = b.as_bytes();
    let mut i: usize = 0;
    proof {
        assert(x@.subrange(0, x@.len() as int) =~= x@);
        assert(y@.subrange(0, y@.len() as int) =~= y@);
    }
    while i < x.len() && i < y.len()
        invariant
            x@ == a.spec_bytes(),
            y@ == b.spec_bytes(),
            0 <= i <= x@.len(),
            i <= y@.len(),
            x@.subrange(0, i as int) == y@.subrange(0, i as int),
            bytes_less(x@, y@) == bytes_less(x@.subrange(i as int, x@.len() as int), y@.subrange(
                i as int,
                y@.len() as int,
            )),
        decreases x@.len() - i,
    {
        if x[i] != y[i] {
            return x[i] < y[i];
        }
        proof {
            let xs = x@.subrange(i as int, x@.len() as int);
            let ys = y@.subrange(i as int, y@.len() as int);
            assert(xs.drop_first() =~= x@.subrange(i + 1, x@.len() as int));
            assert(ys.drop_first() =~= y@.subrange(i + 1, y@.len() as int));
            assert(x@.subrange(0, i + 1) =~= x@.subrange(0, i as int).push(x@[i as int]));
            assert(y@.subrange(0, i + 1) =~= y@.subrange(0, i as int).push(y@[i as int]));
        }
        i = i + 1;
    }
    i == x.len() && i < y.len()
}

impl Json {
    /// An empty object.
    pub fn object() -> (r: Json)
        ensures
            r@ == JsonV::Object(seq![]),
    {
        let e: Vec<(String, Json)> = Vec::new();
        proof {
            assert(view_members(e@) =~= seq![]);
        }
        Json::Object(e)
    }

    /// A string value.
    pub fn text(s: &str) -> (r: Json)
        ensures
            r@ == JsonV::Str(s@),
    {
        Json::Str(s.to_owned())
    }

    /// An array of strings.
    pub fn texts(items: &[&str]) -> (r: Json)
        ensures
            r@ == JsonV::Array(Seq::new(items@.len(), |i: int| JsonV::Str(items@[i]@))),
    {
        let mut out: Vec<Json> = Vec::new();
        let mut i: usize = 0;
        while i < items.len()
            invariant
                0 <= i <= items@.len(),
                out@.len() == i,
                forall|k: int| 0 <= k < i ==> out@[k]@ == JsonV::Str(items@[k]@),
            decreases items@.len() - i,
        {
            out.push(Json::Str(items[i].to_owned()));
            i = i + 1;
        }
        proof {
            lemma_view_items(out@);
            assert(view_items(out@) =~= Seq::new(items@.len(), |i: int| JsonV::Str(items@[i]@)));
        }
        Json::Array(out)
    }

    /// Set `key` of an object to `value` as a `serde_json` map does; other
    /// values are left as they are.
    #[verifier::loop_isolation(false)]
    pub fn set(&mut self, key: &str, value: Json)
        ensures
            match old(self)@ {
                JsonV::Object(e) => final(self)@ == JsonV::Object(set_member(e, key@, value@)),
                _ => final(self)@ == old(self)@,
            },
    {
        match self {
            Json::Object(entries) => {
                proof {
                    lemma_view_members(entries@);
                }
                let ghost before = view_members(entries@);
                let mut i: usize = 0;
                while i < entries.len()
                    invariant
                        0 <= i <= entries@.len(),
                        before == view_members(entries@),
                        before.len() == entries@.len(),
                        forall|k: int|
                            0 <= k < before.len() ==> #[trigger] before[k] == (
                                entries@[k].0@,
                                view_json(entries@[k].1),
                            ),
                        forall|k: int| 0 <= k < i ==> #[trigger] entries@[k].0@ != key@,
                    decreases entries@.len() - i,
                {
                    if str_eq(entries[i].0.as_str(), key) {
                        proof {
                            assert forall|k: int| 0 <= k < i implies #[trigger] before[k].0
                                != key@ by {
                                assert(entries@[k].0@ != key@);
                            }
                            lemma_key_index(before, key@, i as int);
                        }
                        entries.set(i, (key.to_owned(), value));
                        proof {
                            lemma_view_members(entries@);
                            assert(view_members(entries@) =~= set_member(before, key@, value@));
                        }
                        return;
                    }
                    i = i + 1;
                }
                proof {
                    assert forall|k: int| 0 <= k < before.len() implies #[trigger] before[k].0
                        != key@ by {
                        assert(entries@[k].0@ != key@);
                    }
                    lemma_key_index(before, key@, before.len() as int);
                }
                let mut p: usize = 0;
                while p < entries.len() && str_less(entries[p].0.as_str(), key)
                    invariant
                        0 <= p <= entries@.len(),
                        forall|k: int| 0 <= k < p ==> key_less(#[trigger] entries@[k].0@, key@),
                    decreases entries@.len() - p,
                {
                    p = p + 1;
                }
                proof {
                    assert forall|k: int| 0 <= k < p implies key_less(#[trigger] before[k].0, key@) by {
                        assert(key_less(entries@[k].0@, key@));
                    }
                    lemma_insert_point(before, key@, p as int);
                }
                entries.insert(p, (key.to_owned(), value));
                proof {
                    lemma_view_members(entries@);
                    assert(view_members(entries@) =~= set_member(before, key@, value@));
                }
            },
            _ => {},
        }
    }

    /// Append an item to an array; other values are left as they are.
    pub fn push(&mut self, value: Json)
        ensures
            match old(self)@ {
                JsonV::Array(a) => final(self)@ == JsonV::Array(a.push(value@)),
                _ => final(self)@ == old(self)@,
            },
    {
        match self {
            Json::Array(items) => {
                let ghost old_items = items@;
                items.push(value);
                proof {
                    assert(items@.drop_last() =~= old_items);
                }
            },
            _ => {},
        }
    }
}

} // verus!
