//! Mixing a Random.org seed with operating-system randomness: checking the
//! API key, reading the service's reply, and hashing the two seeds together.

use crate::random::{os_seed, spec_std_rng_from_seed, std_rng_from_seed};
use crate::text::{decimal, decimal_digits, string_from_chars, trim, trim_chars};
use hex::FromHexError;
use rand::rngs::{StdRng, SysError};
use sha2::{Digest, Sha256};
use vstd::prelude::*;
use vstd::string::StringSliceAdditionalSpecFns;

verus! {

#[verifier::external_type_specification]
#[verifier::external_body]
pub struct ExFromHexError(FromHexError);

/// Number of random bits asked of Random.org.
pub const RANDOM_ORG_SEED_BITS: usize = 256;

/// Domain separation for the mixed seed.
pub const SEED_TAG: &'static str = "credential-generator-gui random.org seed v1";

/// Whether `c` is a hexadecimal digit, in either case.
pub open spec fn is_hex_digit(c: char) -> bool {
    ||| '0' <= c <= '9'
    ||| 'a' <= c <= 'f'
    ||| 'A' <= c <= 'F'
}

/// The value of a hexadecimal digit.
pub open spec fn hex_value(c: char) -> int {
    if '0' <= c <= '9' {
        c as int - '0' as int
    } else if 'a' <= c <= 'f' {
        c as int - 'a' as int + 10
    } else {
        c as int - 'A' as int + 10
    }
}

/// Whether `s` is a hexadecimal encoding: an even number of hex digits.
pub open spec fn is_hex(s: Seq<char>) -> bool {
    &&& s.len() % 2 == 0
    &&& forall|i: int| 0 <= i < s.len() ==> is_hex_digit(#[trigger] s[i])
}

/// The bytes a hexadecimal encoding stands for, two digits each, high
/// digit first.
pub open spec fn hex_bytes(s: Seq<char>) -> Seq<u8> {
    Seq::new(s.len() / 2, |i: int| (hex_value(s[2 * i]) * 16 + hex_value(s[2 * i + 1])) as u8)
}

/// `hex::decode`: the bytes of an even-length string of hex digits (either
/// case), and an error otherwise. A character beyond ASCII is never a hex
/// digit, so reading the text by characters or by UTF-8 bytes agrees. Which
/// error comes back is left unsaid.
#[verifier::external_body]
fn hex_decode(text: &str) -> (r: Result<Vec<u8>, FromHexError>)
    ensures
        r is Ok <==> is_hex(text@),
        r matches Ok(bytes) ==> bytes@ == hex_bytes(text@),
{
    hex::decode(text)
}

/// The SHA-256 digest of a byte string.
pub uninterp spec fn spec_sha256(data: Seq<u8>) -> Seq<u8>;

/// `Digest::digest` of `sha2` for `Sha256`: the 32-byte digest of `data`,
/// named, not computed.
#[verifier::external_body]
fn sha256(data: &[u8]) -> (r: [u8; 32])
    ensures
        r@ == spec_sha256(data@),
{
    Sha256::digest(data).into()
}

/// What an API key becomes: its trimmed text, or the error for a blank key.
pub fn random_org_key(api_key: &str) -> (r: Result<String, String>)
    ensures
        trim(api_key@).len() == 0 ==> (r matches Err(e) && e@ == "missing API key"@),
        trim(api_key@).len() > 0 ==> (r matches Ok(k) && k@ == trim(api_key@)),
{
    let mut chars: Vec<char> = Vec::new();
    for c in it: api_key.chars()
        invariant
            it.seq() == api_key@,
            chars@ == api_key@.take(it.index() as int),
    {
        proof {
            assert(api_key@.take(it.index() + 1) =~= api_key@.take(it.index() as int).push(c));
        }
        chars.push(c);
    }
    proof {
        assert(api_key@.take(api_key@.len() as int) =~= api_key@);
    }
    let trimmed = trim_chars(&chars);
    if trimmed.len() == 0 {
        Err(String::from_str("missing API key"))
    } else {
        Ok(string_from_chars(&trimmed))
    }
}

/// What the logic reads of a Random.org JSON-RPC reply: the message of its
/// `error` member, and the first string of `result.random.data`.
pub struct RandomOrgReply {
    pub error_message: Option<String>,
    pub data: Option<String>,
}

/// The outcome of reading a reply, as a seed or as an error text with what
/// it must be (an invalid hex payload only fixes the text's start).
pub open spec fn reply_outcome(reply: RandomOrgReply, r: Result<[u8; 32], String>) -> bool {
    match reply.error_message {
        Some(m) => r matches Err(e) && e@ == m@,
        None => match reply.data {
            None => r matches Err(e) && e@ == "missing random data"@,
            Some(h) => if !is_hex(h@) {
                r matches Err(e) && "invalid hex data: "@.is_prefix_of(e@)
            } else if hex_bytes(h@).len() != 32 {
                r matches Err(e) && e@ == "expected 32 seed bytes, got "@ + decimal_digits(
                    hex_bytes(h@).len(),
                )
            } else {
                r matches Ok(seed) && seed@ == hex_bytes(h@)
            },
        },
    }
}

/// The 32 seed bytes of a Random.org reply, or why there are none.
pub fn seed_from_reply(reply: &RandomOrgReply) -> (r: Result<[u8; 32], String>)
    ensures
        reply_outcome(*reply, r),
{
    if let Some(message) = &reply.error_message {
        return Err(message.clone());
    }
    let hex_seed = match &reply.data {
        Some(data) => data,
        None => {
            return Err(String::from_str("missing random data"));
        },
    };
    let bytes = match hex_decode(hex_seed.as_str()) {
        Ok(bytes) => bytes,
        Err(err) => {
            let mut msg = String::from_str("invalid hex data: ");
            let detail = err.to_string();
            msg.append(detail.as_str());
            return Err(msg);
        },
    };
    if bytes.len() != 32 {
        let mut msg = String::from_str("expected 32 seed bytes, got ");
        let count = decimal(bytes.len());
        msg.append(count.as_str());
        return Err(msg);
    }
    let mut seed = [0u8; 32];
    for i in 0..32
        invariant
            bytes@.len() == 32,
            forall|j: int| 0 <= j < i ==> seed@[j] == bytes@[j],
    {
        seed[i] = bytes[i];
    }
    proof {
        assert(seed@ =~= bytes@);
    }
    Ok(seed)
}

/// The seed mixed from both sources: SHA-256 over the local seed, the
/// remote seed and the domain tag.
pub open spec fn spec_mixed_seed(local: Seq<u8>, remote: Seq<u8>) -> Seq<u8> {
    spec_sha256(local + remote + SEED_TAG.spec_bytes())
}

/// Hashes the local and remote seeds together, so that neither alone
/// decides the result.
pub fn mix_seed(local: &[u8; 32], remote: &[u8; 32]) -> (r: [u8; 32])
    ensures
        r@ == spec_mixed_seed(local@, remote@),
{
    let mut data: Vec<u8> = Vec::new();
    data.extend_from_slice(local.as_slice());
    data.extend_from_slice(remote.as_slice());
    data.extend_from_slice(SEED_TAG.as_bytes());
    proof {
        assert(data@ =~= local@ + remote@ + SEED_TAG.spec_bytes());
    }
    sha256(data.as_slice())
}

/// The generator a read of the operating system's randomness leads to: on
/// 32 bytes `local`, the one seeded with the SHA-256 mix of `local`,
/// `remote` and the tag; on a failed read, the error, prefixed with
/// "OS RNG failed: ".
pub fn seeded_from(local: Result<[u8; 32], SysError>, remote: &[u8; 32]) -> (r: Result<StdRng, String>)
    ensures
        local matches Ok(l) ==> r == Ok::<StdRng, String>(
            spec_std_rng_from_seed(spec_mixed_seed(l@, remote@)),
        ),
        local is Err ==> (r matches Err(e) && "OS RNG failed: "@.is_prefix_of(e@)),
{
    match local {
        Ok(local) => Ok(std_rng_from_seed(mix_seed(&local, remote))),
        Err(err) => {
            let mut msg = String::from_str("OS RNG failed: ");
            let detail = err.to_string();
            msg.append(detail.as_str());
            Err(msg)
        },
    }
}

/// A generator seeded from the Random.org seed mixed with fresh operating
/// system randomness: its seed is the SHA-256 mix of 32 bytes the system
/// supplied, `remote` and the tag. Or why the system could not provide
/// them. Which bytes the system gave, and whether it gave them, is left to
/// the system; `seeded_from` says what follows from each answer.
pub fn random_org_rng(remote: &[u8; 32]) -> (r: Result<StdRng, String>)
    ensures
        r matches Ok(rng) ==> exists|local: Seq<u8>|
            local.len() == 32 && rng == spec_std_rng_from_seed(
                #[trigger] spec_mixed_seed(local, remote@),
            ),
        r matches Err(e) ==> "OS RNG failed: "@.is_prefix_of(e@),
{
    let local = os_seed();
    proof {
        if let Ok(l) = local {
            assert(l@.len() == 32);
        }
    }
    seeded_from(local, remote)
}

} // verus!
