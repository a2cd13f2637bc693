use vstd::prelude::*;
use vstd::arithmetic::power2::pow2;
use crate::task::Timestamp;

verus! {

/// The lowercase hexadecimal digit for a nibble value `n` in `0..16`.
pub open spec fn hex_digit(n: int) -> char {
    if n < 10 {
        (48 + n) as char
    } else {
        (97 + n - 10) as char
    }
}

/// The nibble of `id` at hexadecimal position `d` (0 is the most significant).
pub open spec fn uuid_nibble(id: u128, d: int) -> int {
    ((id as int) / (pow2((4 * (31 - d)) as nat) as int)) % 16
}

/// Which hexadecimal digit stands at character position `p` of the hyphenated form.
pub open spec fn uuid_digit_index(p: int) -> int {
    if p < 8 {
        p
    } else if p < 13 {
        p - 1
    } else if p < 18 {
        p - 2
    } else if p < 23 {
        p - 3
    } else {
        p - 4
    }
}

/// The hyphenated lowercase text of a 128-bit identifier:
/// 32 hex digits, most significant first, grouped 8-4-4-4-12.
pub open spec fn uuid_text(id: u128) -> Seq<char> {
    Seq::new(
        36,
        |p: int|
            if p == 8 || p == 13 || p == 18 || p == 23 {
                '-'
            } else {
                hex_digit(uuid_nibble(id, uuid_digit_index(p)))
            },
    )
}

/// The version field of a UUID held as a 128-bit big-endian integer (bits 76..80).
pub open spec fn uuid_version(id: u128) -> int {
    ((id as int) / (pow2(76) as int)) % 16
}

/// The two top bits of the variant field (bits 62..64).
pub open spec fn uuid_variant(id: u128) -> int {
    ((id as int) / (pow2(62) as int)) % 4
}

/// What `uuid::Uuid::parse_str` yields for a text, as a 128-bit value.
pub uninterp spec fn parsed_uuid(text: Seq<char>) -> Option<u128>;

/// The RFC 3339 text that `chrono` writes for a UTC time given as seconds
/// and nanoseconds since the Unix epoch, when that time is representable.
pub uninterp spec fn rfc3339_of(secs: i64, nanos: u32) -> Option<Seq<char>>;

/// Calls `uuid::Uuid::from_u128(id)` and formats it with `Display`, which
/// writes the hyphenated lowercase form. The contract claims that the text is
/// exactly `uuid_text(id)`.
#[verifier::external_body]
pub(crate) fn uuid_to_string(id: u128) -> (s: String)
    ensures
        s@ == uuid_text(id),
{
    uuid::Uuid::from_u128(id).to_string()
}

/// Calls `uuid::Uuid::parse_str` and reads a parsed UUID as its big-endian
/// 128-bit value. The contract names the result `parsed_uuid(text)` and claims
/// one fact the parser shows: the hyphenated lowercase text of an id parses
/// back to that id.
#[verifier::external_body]
pub(crate) fn uuid_from_text(text: &str) -> (r: Option<u128>)
    ensures
        r == parsed_uuid(text@),
        forall|id: u128| text@ == uuid_text(id) ==> r == Some(id),
{
    match uuid::Uuid::parse_str(text) {
        Ok(u) => Some(u.as_u128()),
        Err(_) => None,
    }
}

/// Calls `uuid::Uuid::new_v4` and reads the result as a big-endian 128-bit
/// integer. The value is random; the contract claims only that the version
/// bits read 4 and the variant bits read `0b10`, which `new_v4` sets by masking.
#[verifier::external_body]
pub(crate) fn new_task_id() -> (id: u128)
    ensures
        uuid_version(id) == 4,
        uuid_variant(id) == 2,
{
    uuid::Uuid::new_v4().as_u128()
}

/// Calls `chrono::Utc::now` and reads it as whole seconds and nanoseconds
/// since the Unix epoch. The value is the wall clock; the contract claims only
/// what holds of every outcome: `Utc::now` builds its result with
/// `DateTime::from_timestamp` from a duration's whole seconds and its
/// sub-second nanoseconds (below one second), and a time built that way
/// reads back the same seconds and nanoseconds and is representable, so it
/// has an RFC 3339 text.
#[verifier::external_body]
pub(crate) fn now() -> (t: Timestamp)
    ensures
        t.nanos < 1_000_000_000,
        rfc3339_of(t.secs, t.nanos) is Some,
{
    let t = chrono::Utc::now();
    Timestamp { secs: t.timestamp(), nanos: t.timestamp_subsec_nanos() }
}

/// Calls `chrono::DateTime::<Utc>::from_timestamp(secs, nanos)` and, when the
/// time is representable, formats it with `to_rfc3339`. The contract names
/// the result `rfc3339_of(secs, nanos)`.
#[verifier::external_body]
pub(crate) fn time_text(t: Timestamp) -> (r: Option<String>)
    ensures
        match r {
            Some(s) => rfc3339_of(t.secs, t.nanos) == Some(s@),
            None => rfc3339_of(t.secs, t.nanos) is None,
        },
{
    match chrono::DateTime::<chrono::Utc>::from_timestamp(t.secs, t.nanos) {
        Some(d) => Some(d.to_rfc3339()),
        None => None,
    }
}

} // verus!
