use vstd::prelude::*;

verus! {

/// uuid's `Uuid::parse_str`: the 128 bits of the UUID that `text` writes, if it writes one.
pub uninterp spec fn uuid_from_text(text: Seq<char>) -> Option<u128>;

/// The lowercase hexadecimal digit for `n < 16`.
pub open spec fn hex_digit(n: u128) -> char {
    if n < 10 {
        (0x30 + n) as char
    } else {
        (0x61 + n - 10) as char
    }
}

/// The `j`-th hexadecimal digit of `v`, most significant first (`0 <= j < 32`).
pub open spec fn nibble(v: u128, j: int) -> u128 {
    (v >> (((31 - j) * 4) as u128)) & 0xfu128
}

/// Which hexadecimal digit the character at position `i` of the hyphenated form writes.
pub open spec fn digit_index(i: int) -> int {
    if i < 8 {
        i
    } else if i < 13 {
        i - 1
    } else if i < 18 {
        i - 2
    } else if i < 23 {
        i - 3
    } else {
        i - 4
    }
}

/// The hyphenated lowercase form of a UUID: 32 hexadecimal digits in groups of
/// 8, 4, 4, 4 and 12, separated by `-`.
pub open spec fn uuid_text(v: u128) -> Seq<char> {
    Seq::new(
        36,
        |i: int|
            if i == 8 || i == 13 || i == 18 || i == 23 {
                '-'
            } else {
                hex_digit(nibble(v, digit_index(i)))
            },
    )
}

/// Whether `v` is a version-4 UUID of the RFC variant: version nibble 4 and variant
/// bits `10`.
pub open spec fn is_v4_uuid(v: u128) -> bool {
    &&& (v >> 76u128) & 0xfu128 == 4
    &&& (v >> 62u128) & 0x3u128 == 2
}

/// uuid's `Uuid::new_v4`, as its 128 bits.
///
/// Trusted: the bits are random; the source sets the version nibble to 4 and the two
/// variant bits to `10`, and that is all that is stated.
#[verifier::external_body]
pub(crate) fn random_uuid() -> (r: u128)
    ensures
        is_v4_uuid(r),
{
    uuid::Uuid::new_v4().as_u128()
}

/// uuid's `Uuid::from_u128` followed by `to_string`.
///
/// Trusted: uuid's `Display` writes the hyphenated lowercase form, and `parse_str`
/// reads that form back to the same 128 bits.
#[verifier::external_body]
pub(crate) fn uuid_to_text(v: u128) -> (r: String)
    ensures
        r@ == uuid_text(v),
        uuid_from_text(r@) == Some(v),
{
    uuid::Uuid::from_u128(v).to_string()
}

/// uuid's `Uuid::parse_str`, giving the 128 bits of the UUID read.
///
/// Trusted: the result is named by `uuid_from_text`; which texts uuid accepts is
/// left unsaid here.
#[verifier::external_body]
pub(crate) fn parse_uuid(text: &str) -> (r: Option<u128>)
    ensures
        r == uuid_from_text(text@),
{
    match uuid::Uuid::parse_str(text) {
        Ok(u) => Some(u.as_u128()),
        Err(_) => None,
    }
}

} // verus!
