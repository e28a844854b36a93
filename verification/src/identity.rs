//! The identifiers of players and sessions.
use crate::packet::Uuid;
use crate::text::{cat2, cat3, cat5, from_chars};
use vstd::prelude::*;
use vstd::string::*;
use vstd::utf8;

verus! {

/// The MD5 digest of a message.
pub uninterp spec fn md5_digest(message: Seq<u8>) -> Seq<u8>;

/// Calls `md5::Md5` on a whole message. The digest depends on the message alone; it is
/// named `md5_digest`.
#[verifier::external_body]
fn md5_bytes(message: &[u8]) -> (digest: [u8; 16])
    ensures
        digest@ == md5_digest(message@),
{
    let mut hasher = <md5::Md5 as md5::Digest>::new();
    md5::Digest::update(&mut hasher, message);
    md5::Digest::finalize(hasher).into()
}

/// Calls `uuid::Uuid::new_v4` and hands out its bytes. They are random; what holds of all of
/// them is that they carry the marks of a random identifier: version 4 and the variant of
/// RFC 4122.
#[verifier::external_body]
fn random_bytes() -> (bytes: [u8; 16])
    ensures
        bytes@[6] & 0xF0 == 0x40,
        bytes@[8] & 0xC0 == 0x80,
{
    *uuid::Uuid::new_v4().as_bytes()
}

/// Whether the bytes of an identifier carry the marks of a random one.
pub open spec fn is_random_uuid(bytes: Seq<u8>) -> bool {
    bytes.len() == 16 && bytes[6] & 0xF0 == 0x40 && bytes[8] & 0xC0 == 0x80
}

/// A new random identifier.
pub fn fresh_uuid() -> (uuid: Uuid)
    ensures
        is_random_uuid(uuid@),
{
    Uuid::from_bytes(random_bytes())
}

/// Whether the bytes of an identifier carry the marks of one made from a name: version 3
/// and the variant of RFC 4122.
pub open spec fn is_name_uuid(bytes: Seq<u8>) -> bool {
    bytes.len() == 16 && bytes[6] & 0xF0 == 0x30 && bytes[8] & 0xC0 == 0x80
}

/// A digest with the marks of an identifier made from a name.
pub open spec fn marked_digest(digest: Seq<u8>) -> Seq<u8> {
    digest.update(6, (digest[6] & 0x0F) | 0x30).update(8, (digest[8] & 0x3F) | 0x80)
}

/// The identifier made from a digest.
pub fn uuid_from_digest(digest: [u8; 16]) -> (uuid: Uuid)
    ensures
        uuid@ == marked_digest(digest@),
        is_name_uuid(uuid@),
{
    let mut bytes = digest;
    let version = (digest[6] & 0x0F) | 0x30;
    let variant = (digest[8] & 0x3F) | 0x80;
    bytes[6] = version;
    bytes[8] = variant;
    proof {
        let a = digest@[6];
        let b = digest@[8];
        assert(((a & 0x0F) | 0x30) & 0xF0 == 0x30) by (bit_vector);
        assert(((b & 0x3F) | 0x80) & 0xC0 == 0x80) by (bit_vector);
    }
    Uuid::from_bytes(bytes)
}

/// What the identifier of a player who is not authenticated is made from.
pub open spec fn offline_seed(username: Seq<char>) -> Seq<u8> {
    utf8::encode_utf8("OfflinePlayer:"@ + username)
}

/// The identifier of a player who is not authenticated: it is made from the name.
pub fn offline_uuid(username: &str) -> (uuid: Uuid)
    ensures
        uuid@ == marked_digest(md5_digest(offline_seed(username@))),
        is_name_uuid(uuid@),
{
    let seed = cat2("OfflinePlayer:", username);
    uuid_from_digest(md5_bytes(seed.as_str().as_bytes()))
}

/// The hexadecimal digit of a number below sixteen.
pub open spec fn hex_digit(n: int) -> char {
    if n < 10 {
        (48 + n) as char
    } else {
        (87 + n) as char
    }
}

/// Bytes in hexadecimal, two digits each.
pub open spec fn hex_text(bytes: Seq<u8>) -> Seq<char>
    decreases bytes.len(),
{
    if bytes.len() == 0 {
        Seq::empty()
    } else {
        hex_text(bytes.drop_last()).push(hex_digit(bytes.last() as int / 16)).push(
            hex_digit(bytes.last() as int % 16),
        )
    }
}

/// The text form of an identifier, in five groups.
pub open spec fn hyphenated_text(bytes: Seq<u8>) -> Seq<char> {
    let hex = hex_text(bytes);
    hex.subrange(0, 8) + "-"@ + hex.subrange(8, 12) + "-"@ + hex.subrange(12, 16) + "-"@
        + hex.subrange(16, 20) + "-"@ + hex.subrange(20, 32)
}

fn to_hex_digit(n: u8) -> (c: char)
    requires
        n < 16,
    ensures
        c == hex_digit(n as int),
{
    if n < 10 {
        (48 + n) as char
    } else {
        (87 + n) as char
    }
}

fn hex_chars(uuid: &Uuid) -> (chars: Vec<char>)
    ensures
        chars@ == hex_text(uuid@),
        chars@.len() == 32,
{
    let bytes = uuid.as_bytes();
    let mut chars: Vec<char> = Vec::new();
    let mut i: usize = 0;
    while i < 16
        invariant
            i <= 16,
            bytes@ == uuid@,
            chars@ == hex_text(bytes@.take(i as int)),
            chars@.len() == 2 * i,
        decreases 16 - i,
    {
        let byte = bytes[i];
        assert(bytes@.take(i + 1).drop_last() == bytes@.take(i as int));
        chars.push(to_hex_digit(byte / 16));
        chars.push(to_hex_digit(byte % 16));
        i += 1;
    }
    assert(bytes@.take(16) == bytes@);
    chars
}

/// The text form of an identifier, without groups.
pub fn simple_text(uuid: &Uuid) -> (text: String)
    ensures
        text@ == hex_text(uuid@),
{
    let chars = hex_chars(uuid);
    from_chars(&chars, 0, 32)
}

/// The text form of an identifier, in five groups.
pub fn grouped_text(uuid: &Uuid) -> (text: String)
    ensures
        text@ == hyphenated_text(uuid@),
{
    let chars = hex_chars(uuid);
    let a = from_chars(&chars, 0, 8);
    let b = from_chars(&chars, 8, 12);
    let c = from_chars(&chars, 12, 16);
    let d = from_chars(&chars, 16, 20);
    let e = from_chars(&chars, 20, 32);
    let front = cat5(a.as_str(), "-", b.as_str(), "-", c.as_str());
    let back = cat3(d.as_str(), "-", e.as_str());
    cat3(front.as_str(), "-", back.as_str())
}

/// A player gets the same identifier whenever they come, and its marks show that it was
/// made from a name, so that it is never that of a session.
pub proof fn lemma_name_uuid_is_no_random_uuid(bytes: Seq<u8>)
    requires
        is_name_uuid(bytes),
    ensures
        !is_random_uuid(bytes),
{
}

/// The identifier of a player is the digest of `OfflinePlayer:` and the name, but for the four
/// bits that say how it was made, which are three, and the two that say of which kind it is.
pub proof fn lemma_player_identifier_comes_from_the_name(username: &str, uuid: Uuid, k: int)
    requires
        call_ensures(offline_uuid, (username,), uuid),
        0 <= k < 16,
    ensures
        ({
            let digest = md5_digest(utf8::encode_utf8("OfflinePlayer:"@ + username@));
            &&& k != 6 && k != 8 && digest.len() == 16 ==> uuid@[k] == digest[k]
            &&& digest.len() == 16 ==> uuid@[6] % 16 == digest[6] % 16
            &&& digest.len() == 16 ==> uuid@[8] % 64 == digest[8] % 64
            &&& digest.len() == 16 ==> uuid@[6] / 16 == 3
            &&& digest.len() == 16 ==> uuid@[8] / 64 == 2
        }),
{
    let digest = md5_digest(utf8::encode_utf8("OfflinePlayer:"@ + username@));
    if digest.len() == 16 {
        let a = digest[6];
        let b = digest[8];
        assert(((a & 0x0Fu8) | 0x30u8) % 16 == a % 16 && ((a & 0x0Fu8) | 0x30u8) / 16 == 3)
            by (bit_vector);
        assert(((b & 0x3Fu8) | 0x80u8) % 64 == b % 64 && ((b & 0x3Fu8) | 0x80u8) / 64 == 2)
            by (bit_vector);
    }
}

} // verus!
