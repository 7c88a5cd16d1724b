//! Identifiers: UUIDs, held as their 128-bit value, and the text the `uuid`
//! crate reads and writes for them.
use vstd::prelude::*;
use crate::error::{Error, Fault, invalid};

verus! {

/// The lower-case hexadecimal digit for `d` (below 16).
pub open spec fn hex_char(d: int) -> char {
    if d < 10 {
        (d + 48) as char
    } else {
        (d + 87) as char
    }
}

/// The last `n` hexadecimal digits of `v`, most significant first.
pub open spec fn hex_digits(v: nat, n: nat) -> Seq<char>
    decreases n,
{
    if n == 0 {
        Seq::empty()
    } else {
        hex_digits(v / 16, (n - 1) as nat).push(hex_char((v % 16) as int))
    }
}

/// The hyphenated form of a UUID: its 32 hexadecimal digits in groups of
/// 8, 4, 4, 4 and 12, as in `67e55044-10b1-426f-9247-bb680e5fe0c8`.
pub open spec fn hyphenated(v: u128) -> Seq<char> {
    let h = hex_digits(v as nat, 32);
    h.subrange(0, 8) + seq!['-'] + h.subrange(8, 12) + seq!['-'] + h.subrange(12, 16)
        + seq!['-'] + h.subrange(16, 20) + seq!['-'] + h.subrange(20, 32)
}

/// What `uuid::Uuid::parse_str` reads from text (simple, hyphenated, braced
/// or URN form), as the UUID's 128-bit value; nothing where it refuses the text.
pub uninterp spec fn parsed_uuid(text: Seq<char>) -> Option<u128>;

/// `uuid::Uuid::parse_str`, with the UUID taken as its value
/// (`Uuid::as_u128`). Claimed: the result is `parsed_uuid` of the text.
#[verifier::external_body]
pub fn parse_uuid(text: &str) -> (r: Option<u128>)
    ensures
        r == parsed_uuid(text@),
{
    match uuid::Uuid::parse_str(text) {
        Ok(u) => Some(u.as_u128()),
        Err(_) => None,
    }
}

/// `uuid::Uuid::from_u128(value).to_string()`. Claimed: the text is the
/// hyphenated lower-case form, as the crate's `Display` (through
/// `LowerHex` of `as_hyphenated`) writes it, of the big-endian value; and
/// `Uuid::parse_str`, which reads the hyphenated form, reads the value back.
#[verifier::external_body]
pub fn uuid_text(value: u128) -> (s: String)
    ensures
        s@ == hyphenated(value),
        parsed_uuid(s@) == Some(value),
{
    uuid::Uuid::from_u128(value).to_string()
}

/// The value of bytes read big-endian.
pub open spec fn be_value(b: Seq<u8>) -> nat
    decreases b.len(),
{
    if b.len() == 0 {
        0
    } else {
        be_value(b.drop_last()) * 256 + b.last() as nat
    }
}

/// The last `n` bytes of `v`, most significant first.
pub open spec fn be_bytes(v: nat, n: nat) -> Seq<u8>
    decreases n,
{
    if n == 0 {
        Seq::empty()
    } else {
        be_bytes(v / 256, (n - 1) as nat).push((v % 256) as u8)
    }
}

/// The last `n` bytes of `v`, most significant first.
pub fn be_bytes_of(v: u128, n: usize) -> (r: Vec<u8>)
    requires
        n <= 16,
    ensures
        r@ == be_bytes(v as nat, n as nat),
{
    let mut low: Vec<u8> = Vec::new();
    let mut rest: u128 = v;
    let ghost mut divisor: nat = 1;
    while low.len() < n
        invariant
            n <= 16,
            low@.len() <= n,
            divisor > 0,
            divisor == pow256(low@.len() as nat),
            rest as nat == (v as nat) / divisor,
            forall|i: int| 0 <= i < low@.len() ==> low@[i] == ((v as nat) / pow256(i as nat)) % 256,
        decreases n - low@.len(),
    {
        low.push((rest % 256) as u8);
        proof {
            lemma_div_div(v as nat, divisor, 256);
            vstd::arithmetic::mul::lemma_mul_is_commutative(divisor as int, 256);
            divisor = divisor * 256;
        }
        rest = rest / 256;
    }
    let mut out: Vec<u8> = Vec::new();
    let mut i: usize = n;
    while i > 0
        invariant
            i <= n,
            low@.len() == n,
            out@.len() + i == n,
            forall|j: int| 0 <= j < out@.len() ==> out@[j] == low@[n - 1 - j],
        decreases i,
    {
        i = i - 1;
        out.push(low[i]);
    }
    proof {
        lemma_be_bytes_digits(v as nat, n as nat);
        assert forall|j: int| 0 <= j < n implies out@[j] == be_bytes(v as nat, n as nat)[j] by {
            assert(out@[j] == low@[n - 1 - j]);
        }
        assert(out@ =~= be_bytes(v as nat, n as nat));
    }
    out
}

/// Powers of 256.
pub open spec fn pow256(n: nat) -> nat
    decreases n,
{
    if n == 0 { 1 } else { 256 * pow256((n - 1) as nat) }
}

proof fn lemma_pow256_positive(n: nat)
    ensures
        pow256(n) > 0,
    decreases n,
{
    if n > 0 {
        lemma_pow256_positive((n - 1) as nat);
    }
}

proof fn lemma_div_div(v: nat, a: nat, b: nat)
    requires
        a > 0,
        b > 0,
    ensures
        v / a / b == v / (a * b),
        a * b > 0,
{
    vstd::arithmetic::div_mod::lemma_div_denominator(v as int, a as int, b as int);
    vstd::arithmetic::mul::lemma_mul_strictly_positive(a as int, b as int);
}

/// The byte at position `j` of `be_bytes(v, n)` is digit `n - 1 - j` of `v` in base 256.
proof fn lemma_be_bytes_digits(v: nat, n: nat)
    ensures
        be_bytes(v, n).len() == n,
        forall|j: int| 0 <= j < n ==> #[trigger] be_bytes(v, n)[j] == (v / pow256((n - 1 - j) as nat)) % 256,
    decreases n,
{
    if n > 0 {
        lemma_be_bytes_digits(v / 256, (n - 1) as nat);
        assert forall|j: int| 0 <= j < n implies #[trigger] be_bytes(v, n)[j] == (v / pow256((n - 1 - j) as nat)) % 256 by {
            if j < n - 1 {
                let k = (n - 2 - j) as nat;
                lemma_pow256_positive(k);
                assert(be_bytes(v, n)[j] == be_bytes(v / 256, (n - 1) as nat)[j]);
                lemma_div_div(v, 256, pow256(k));
                assert(be_bytes(v / 256, (n - 1) as nat)[j] == ((v / 256) / pow256(k)) % 256);
                assert(pow256((n - 1 - j) as nat) == 256 * pow256(k));
                assert(v / 256 / pow256(k) == v / pow256((n - 1 - j) as nat));
            } else {
                assert(pow256(0) == 1);
                assert(v / 1 == v);
                assert(be_bytes(v, n)[j] == (v % 256) as u8);
            }
        }
    }
}

/// What `uuid::Uuid::new_v5` makes of a namespace and a name: the SHA-1
/// name-based UUID, as its 128-bit value.
pub uninterp spec fn name_based_uuid(namespace: u128, name: Seq<u8>) -> u128;

/// `uuid::Uuid::new_v5`, with the namespace and the result taken as values.
/// Claimed: the result is `name_based_uuid` of the namespace and the name's bytes.
#[verifier::external_body]
pub fn name_uuid(namespace: u128, name: &[u8]) -> (r: u128)
    ensures
        r == name_based_uuid(namespace, name@),
{
    uuid::Uuid::new_v5(&uuid::Uuid::from_u128(namespace), name).as_u128()
}

/// Sixteen bytes with the version nibble of a random UUID (4) and the bits
/// of its RFC 4122 variant set, as `uuid::Builder` sets them.
pub open spec fn version4_bytes(b: Seq<u8>) -> Seq<u8> {
    b.update(6, (b[6] & 0x0f) | 0x40).update(8, (b[8] & 0x3f) | 0x80)
}

/// `uuid::Builder::from_random_bytes(bytes).into_uuid()`, taken as its value.
/// Claimed: the big-endian value of the bytes with byte 6's high nibble set
/// to the version (4) and byte 8's two high bits to the variant (`10`).
#[verifier::external_body]
fn random_uuid_from(bytes: &[u8]) -> (r: u128)
    requires
        bytes@.len() == 16,
    ensures
        r as nat == be_value(version4_bytes(bytes@)),
{
    let array: [u8; 16] = bytes.try_into().unwrap_or([0u8; 16]);
    uuid::Builder::from_random_bytes(array).into_uuid().as_u128()
}

/// A fresh random (version 4) UUID from the operating system's generator.
/// Whatever the generator gave, the value carries version 4 and the RFC 4122 variant.
pub fn random_id() -> (r: u128)
    ensures
        exists|b: Seq<u8>| b.len() == 16 && r as nat == be_value(#[trigger] version4_bytes(b)),
{
    let bytes = crate::crypto::random_bytes();
    let mut first: Vec<u8> = Vec::new();
    let mut i: usize = 0;
    while i < 16
        invariant
            bytes@.len() == 32,
            i <= 16,
            first@.len() == i,
        decreases 16 - i,
    {
        first.push(bytes[i]);
        i = i + 1;
    }
    random_uuid_from(first.as_slice())
}

/// The fault of an identifier that does not parse.
pub open spec fn id_result(text: Seq<char>) -> Result<u128, Fault> {
    match parsed_uuid(text) {
        Some(v) => Ok(v),
        None => Err(Fault::Invalid("Invalid UUID"@)),
    }
}

/// Reads an identifier, refusing text that is no UUID.
pub fn id(text: &str) -> (r: Result<u128, Error>)
    ensures
        match r {
            Ok(v) => id_result(text@) == Ok::<u128, Fault>(v),
            Err(e) => id_result(text@) == Err::<u128, Fault>(e@),
        },
{
    match parse_uuid(text) {
        Some(v) => Ok(v),
        None => Err(invalid("Invalid UUID")),
    }
}

} // verus!
