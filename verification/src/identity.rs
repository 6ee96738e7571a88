//! Identities of rooms and participants: instance ids, participant ids and reconnect
//! tokens, all drawn from outside random sources.

use vstd::prelude::*;
use base64::Engine;
use uuid::Uuid;

verus! {

/// The `uuid` crate's `Uuid`, carried through as an opaque value.
#[verifier::external_type_specification]
#[verifier::external_body]
pub struct ExUuid(Uuid);

/// The URL-safe Base64 alphabet: capitals, small letters, digits, `-` and `_`.
pub open spec fn base64_url_alphabet() -> Seq<char> {
    "ABCDEFGHIJKLMNOPQRSTUVWXYZabcdefghijklmnopqrstuvwxyz0123456789-_"@
}

/// The Base64 encoding of `bytes` with the URL-safe alphabet and without padding: each
/// group of three bytes becomes four characters of six bits each; a last group of one
/// or two bytes becomes two or three characters, its missing low bits zero.
pub open spec fn base64_url_no_pad(bytes: Seq<u8>) -> Seq<char>
    decreases bytes.len(),
{
    let a = base64_url_alphabet();
    let b0 = if bytes.len() > 0 { bytes[0] as int } else { 0 };
    let b1 = if bytes.len() > 1 { bytes[1] as int } else { 0 };
    let b2 = if bytes.len() > 2 { bytes[2] as int } else { 0 };
    if bytes.len() == 0 {
        Seq::empty()
    } else if bytes.len() == 1 {
        seq![a[b0 / 4], a[(b0 % 4) * 16]]
    } else if bytes.len() == 2 {
        seq![a[b0 / 4], a[(b0 % 4) * 16 + b1 / 16], a[(b1 % 16) * 4]]
    } else {
        seq![a[b0 / 4], a[(b0 % 4) * 16 + b1 / 16], a[(b1 % 16) * 4 + b2 / 64], a[b2 % 64]]
            + base64_url_no_pad(bytes.subrange(3, bytes.len() as int))
    }
}

/// An ASCII hexadecimal digit, in either case.
pub open spec fn is_hex_digit(c: char) -> bool {
    ('0' <= c && c <= '9') || ('a' <= c && c <= 'f') || ('A' <= c && c <= 'F')
}

/// The hyphenated form: 36 characters, hyphens at 8, 13, 18 and 23, hex digits
/// elsewhere.
pub open spec fn hyphenated_uuid(s: Seq<char>) -> bool {
    s.len() == 36 && forall|i: int|
        0 <= i < 36 ==> if i == 8 || i == 13 || i == 18 || i == 23 {
            #[trigger] s[i] == '-'
        } else {
            is_hex_digit(s[i])
        }
}

/// The character equals the small letter or symbol `target` when ASCII capitals are
/// folded to small letters.
pub open spec fn ascii_fold_eq(c: char, target: char) -> bool {
    c == target || (('a' <= target && target <= 'z') && (c as u32) + 32 == (target as u32))
}

/// Whether `Uuid::parse_str` accepts the text: 32 hex digits; the hyphenated form; the
/// hyphenated form in braces; or `urn:uuid:` (in any ASCII case) before the hyphenated
/// form.
pub open spec fn parses_as_uuid(s: Seq<char>) -> bool {
    ||| s.len() == 32 && forall|i: int| 0 <= i < 32 ==> is_hex_digit(#[trigger] s[i])
    ||| hyphenated_uuid(s)
    ||| s.len() == 38 && s[0] == '{' && s[37] == '}' && hyphenated_uuid(s.subrange(1, 37))
    ||| s.len() == 45 && (forall|i: int| 0 <= i < 9 ==> ascii_fold_eq(#[trigger] s[i], "urn:uuid:"@[i]))
        && hyphenated_uuid(s.subrange(9, 45))
}

/// `Uuid::new_v4`: a fresh random version-4 UUID.
#[verifier::external_body]
pub(crate) fn new_instance_id() -> Uuid {
    Uuid::new_v4()
}

/// `Uuid::new_v4` written out by its `Display` impl: the hyphenated form in lower case,
/// with the version digit 4 and an RFC 4122 variant digit (8, 9, a or b).
#[verifier::external_body]
pub(crate) fn new_participant_id() -> (id: String)
    ensures
        hyphenated_uuid(id@),
        forall|i: int| 0 <= i < 36 ==> !('A' <= #[trigger] id@[i] && id@[i] <= 'F'),
        id@[14] == '4',
        id@[19] == '8' || id@[19] == '9' || id@[19] == 'a' || id@[19] == 'b',
{
    Uuid::new_v4().to_string()
}

/// `rand::fill` on 32 bytes from the thread-local generator.
#[verifier::external_body]
pub(crate) fn random_token_bytes() -> [u8; 32] {
    let mut token = [0u8; 32];
    rand::fill(&mut token);
    token
}

/// `URL_SAFE_NO_PAD.encode` of the `base64` crate: the URL-safe alphabet, no padding.
#[verifier::external_body]
pub(crate) fn encode_token(bytes: &[u8; 32]) -> (text: String)
    ensures
        text@ == base64_url_no_pad(bytes@),
{
    base64::engine::general_purpose::URL_SAFE_NO_PAD.encode(bytes)
}

/// `Uuid::parse_str` succeeds on the text: it parses the text's bytes, and any byte
/// outside ASCII fails every accepted form, so the forms are stated over characters.
#[verifier::external_body]
pub(crate) fn is_uuid(text: &str) -> (b: bool)
    ensures
        b == parses_as_uuid(text@),
{
    Uuid::parse_str(text).is_ok()
}

} // verus!
