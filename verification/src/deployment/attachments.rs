//! Attachment bytes a replica hands to the gateway: their size, their
//! checksum, and where the gateway stores them.
use vstd::prelude::*;
use crate::crypto::{hex, hex_encode, sha256, sha256_digest};
use crate::error::{Error, Fault};
use crate::ids::{hyphenated, uuid_text};
use crate::deployment::wire::ChatError;
use crate::text::{blank, blen, byte_len, is_blank, str_eq};

verus! {

/// The largest attachment the gateway stores, in bytes.
pub const ATTACHMENT_LIMIT: usize = 134217728;

/// The checksum of an attachment: the hexadecimal SHA-256 of its bytes, or
/// why the attachment is refused: too large, or not the checksum it declared.
pub open spec fn attachment_checksum(content: Seq<u8>, declared: Seq<char>) -> Result<Seq<char>, Fault> {
    if content.len() > ATTACHMENT_LIMIT {
        Err(Fault::Invalid("Attachment exceeds 128 MiB"@))
    } else if declared.len() > 0 && declared != hex(sha256_digest(content)) {
        Err(Fault::Invalid("Attachment checksum mismatch"@))
    } else {
        Ok(hex(sha256_digest(content)))
    }
}

/// Checks an attachment's size and declared checksum and computes its checksum.
pub fn checksum(content: &[u8], declared: &str) -> (r: Result<String, Error>)
    ensures
        match r {
            Ok(h) => attachment_checksum(content@, declared@) == Ok::<Seq<char>, Fault>(h@),
            Err(e) => attachment_checksum(content@, declared@) == Err::<Seq<char>, Fault>(e@),
        },
{
    if content.len() > ATTACHMENT_LIMIT {
        return Err(Error::Invalid("Attachment exceeds 128 MiB".to_owned()));
    }
    let digest = sha256(content);
    let hash = hex_encode(digest.as_slice());
    if declared.unicode_len() > 0 && !str_eq(declared, hash.as_str()) {
        return Err(Error::Invalid("Attachment checksum mismatch".to_owned()));
    }
    Ok(hash)
}

/// Attachment bytes a replica keeps in memory, in all, before the gateway
/// stores them.
pub const PENDING_LIMIT: usize = 268435456;

/// An upload a replica takes: at most 128 MiB, named, with a name of at most
/// 1024 bytes and a media type of at most 255.
pub open spec fn acceptable_upload(size: nat, filename: Seq<char>, media_type: Seq<char>) -> bool {
    size <= ATTACHMENT_LIMIT && !blank(filename) && blen(filename) <= 1024 && blen(media_type) <= 255
}

/// Refuses an upload a replica does not take.
pub fn check_upload(content: &[u8], filename: &str, media_type: &str) -> (r: Result<(), ChatError>)
    ensures
        r is Ok <==> acceptable_upload(content@.len(), filename@, media_type@),
        r matches Err(e) ==> (e matches ChatError::Invalid(m) && m@ == "Invalid attachment or exceeds 128 MiB"@),
{
    if content.len() > ATTACHMENT_LIMIT || is_blank(filename) || byte_len(filename) > 1024 || byte_len(media_type) > 255 {
        Err(ChatError::Invalid("Invalid attachment or exceeds 128 MiB".to_owned()))
    } else {
        Ok(())
    }
}

/// An upload under an identifier already taken is the same upload again
/// only where its checksum, name and media type are the same; otherwise it
/// is refused.
pub fn check_same_upload(
    stored_sha256: &str,
    stored_filename: &str,
    stored_media_type: &str,
    sha256_hex: &str,
    filename: &str,
    media_type: &str,
) -> (r: Result<(), ChatError>)
    ensures
        r is Ok <==> (stored_sha256@ == sha256_hex@ && stored_filename@ == filename@ && stored_media_type@ == media_type@),
        r matches Err(e) ==> e matches ChatError::Conflict,
{
    if !str_eq(stored_sha256, sha256_hex) || !str_eq(stored_filename, filename) || !str_eq(stored_media_type, media_type) {
        Err(ChatError::Conflict)
    } else {
        Ok(())
    }
}

/// The total of sizes.
pub open spec fn total(sizes: Seq<usize>) -> nat
    decreases sizes.len(),
{
    if sizes.len() == 0 { 0 } else { total(sizes.drop_last()) + sizes.last() as nat }
}

/// Whether bytes of `size` fit beside the bytes already pending.
pub fn fits_pending(pending: &Vec<usize>, size: usize) -> (r: bool)
    ensures
        r == (total(pending@) + size <= PENDING_LIMIT),
{
    let mut sum: usize = 0;
    let mut i: usize = 0;
    while i < pending.len()
        invariant
            0 <= i <= pending@.len(),
            sum as nat == total(pending@.subrange(0, i as int)),
            sum <= PENDING_LIMIT,
        decreases pending@.len() - i,
    {
        proof {
            assert(pending@.subrange(0, i as int + 1).drop_last() =~= pending@.subrange(0, i as int));
        }
        if pending[i] > PENDING_LIMIT - sum {
            proof {
                lemma_total_prefix(pending@, i as int + 1);
            }
            return false;
        }
        sum = sum + pending[i];
        i = i + 1;
    }
    proof {
        assert(pending@.subrange(0, pending@.len() as int) =~= pending@);
    }
    size <= PENDING_LIMIT - sum
}

/// The total of a prefix is at most the total.
proof fn lemma_total_prefix(s: Seq<usize>, n: int)
    requires
        0 <= n <= s.len(),
    ensures
        total(s.subrange(0, n)) <= total(s),
    decreases s.len() - n,
{
    if n < s.len() {
        lemma_total_prefix(s, n + 1);
        assert(s.subrange(0, n + 1).drop_last() =~= s.subrange(0, n));
    } else {
        assert(s.subrange(0, n) =~= s);
    }
}

/// Where the gateway stores an agent's attachment.
pub fn object_key(agent: u128, key: u128) -> (r: String)
    ensures
        r@ == "attachments/"@ + hyphenated(agent) + "/"@ + hyphenated(key),
{
    let mut r = "attachments/".to_owned();
    let a = uuid_text(agent);
    r.append(a.as_str());
    r.append("/");
    let k = uuid_text(key);
    r.append(k.as_str());
    r
}

} // verus!
