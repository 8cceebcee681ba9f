//! Unique ids of players and game servers, from the `uuid` crate. A UUID is
//! held as its 128-bit value.
use vstd::prelude::*;

verus! {

/// The lower-case hexadecimal digit of a value below 16.
pub open spec fn hex_digit(n: int) -> char {
    if n < 10 {
        (48 + n) as char
    } else {
        (87 + n) as char
    }
}

/// The position, among the 32 hexadecimal digits, of the character at `i`
/// of the hyphenated form (`8-4-4-4-12`).
pub open spec fn digit_index(i: int) -> int {
    if i < 8 {
        i
    } else if i < 13 {
        i - 1
    } else if i < 18 {
        i - 2
    } else if i < 23 {
        i - 3
    } else {
        i - 4
    }
}

/// The hyphenated lower-case form of the UUID of value `id`: its 32
/// hexadecimal digits, most significant first, in groups of 8, 4, 4, 4 and
/// 12 separated by `-`.
pub open spec fn uuid_text(id: u128) -> Seq<char> {
    Seq::new(
        36,
        |i: int|
            if i == 8 || i == 13 || i == 18 || i == 23 {
                '-'
            } else {
                hex_digit(((id >> ((4 * (31 - digit_index(i))) as u128)) & 0xf) as int)
            },
    )
}

/// `Uuid::new_v4`: a fresh random UUID, as its 128-bit value. Version 4
/// sets the version nibble to 4; nothing else is promised of the value.
#[verifier::external_body]
pub(crate) fn new_uuid_v4() -> (id: u128)
    ensures
        (id >> 76u128) & 0xf == 4,
{
    uuid::Uuid::new_v4().as_u128()
}

/// `Uuid::to_string` (through `Display`) of `Uuid::from_u128(id)`: the
/// hyphenated lower-case form of the value, as `uuid_text` states it.
#[verifier::external_body]
pub(crate) fn uuid_to_string(id: u128) -> (s: String)
    ensures
        s@ == uuid_text(id),
{
    uuid::Uuid::from_u128(id).to_string()
}

/// No character of a UUID's text is `s`.
pub proof fn lemma_uuid_text_has_no_s(id: u128, i: int)
    requires
        0 <= i < 36,
    ensures
        uuid_text(id)[i] != 's',
{
    let sh = (4 * (31 - digit_index(i))) as u128;
    let v = id >> sh;
    assert(v & 0xf < 16) by (bit_vector);
}

} // verus!
