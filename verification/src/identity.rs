//! Client identities: UUIDs, held as their sixteen bytes.
use uuid::Uuid;
use vstd::prelude::*;

verus! {

/// `uuid::Error`, what is wrong with the text of a UUID.
#[verifier::external_type_specification]
#[verifier::external_body]
pub struct ExUuidError(uuid::Error);

/// What `Uuid::parse_str` makes of `text`: the bytes of the UUID, or what is wrong.
pub uninterp spec fn parsed_uuid(text: Seq<char>) -> Result<Seq<u8>, uuid::Error>;

/// `Uuid::parse_str`, also by way of `str::parse`: the bytes of the UUID that `text` spells, or
/// what is wrong with it.
#[verifier::external_body]
pub(crate) fn parse_uuid(text: &str) -> (r: Result<[u8; 16], uuid::Error>)
    ensures
        match r {
            Ok(bytes) => parsed_uuid(text@) == Ok::<Seq<u8>, uuid::Error>(bytes@),
            Err(e) => parsed_uuid(text@) == Err::<Seq<u8>, uuid::Error>(e),
        },
{
    Uuid::parse_str(text).map(|id| id.into_bytes())
}

/// The digit for `n`, with small letters.
pub open spec fn small_hex_char(n: int) -> char {
    if n < 10 {
        (48 + n) as char
    } else {
        (87 + n) as char
    }
}

/// The digits of `bytes`.
pub open spec fn small_hex(bytes: Seq<u8>) -> Seq<char>
    decreases bytes.len(),
{
    if bytes.len() == 0 {
        Seq::empty()
    } else {
        small_hex(bytes.drop_last()) + seq![
            small_hex_char(bytes.last() as int / 16),
            small_hex_char(bytes.last() as int % 16),
        ]
    }
}

/// The text of the UUID `id`: thirty-two digits in groups of eight, four, four, four and twelve,
/// with hyphens between them.
pub open spec fn uuid_text(id: Seq<u8>) -> Seq<char> {
    small_hex(id.subrange(0, 4)) + seq!['-'] + small_hex(id.subrange(4, 6)) + seq!['-']
        + small_hex(id.subrange(6, 8)) + seq!['-'] + small_hex(id.subrange(8, 10)) + seq!['-']
        + small_hex(id.subrange(10, 16))
}

/// `Uuid::to_string`: the digits of `id` with small letters, in groups with hyphens between
/// them. `Uuid::parse_str` reads that text back.
#[verifier::external_body]
pub(crate) fn uuid_to_text(id: &[u8; 16]) -> (s: String)
    ensures
        s@ == uuid_text(id@),
        (parsed_uuid(s@) == Ok::<Seq<u8>, uuid::Error>(id@)),
{
    Uuid::from_bytes(*id).to_string()
}

} // verus!
