use vstd::prelude::*;
use vstd::utf8::*;

verus! {

/// Whether `b` is the ASCII code of a decimal digit.
pub open spec fn is_digit(b: u8) -> bool {
    0x30 <= b <= 0x39
}

/// Whether every byte of `d` is a decimal digit.
pub open spec fn all_digits(d: Seq<u8>) -> bool {
    forall|i: int| 0 <= i < d.len() ==> is_digit(#[trigger] d[i])
}

/// The number that a run of decimal digits writes, most significant first.
pub open spec fn decimal_value(d: Seq<u8>) -> nat
    decreases d.len(),
{
    if d.len() == 0 {
        0
    } else {
        decimal_value(d.drop_last()) * 10 + (d.last() - 0x30) as nat
    }
}

/// Extending a run of digits never lowers the number it writes.
pub proof fn lemma_decimal_value_grows(d: Seq<u8>, k: int)
    requires
        all_digits(d),
        0 <= k <= d.len(),
    ensures
        decimal_value(d.take(k)) <= decimal_value(d),
    decreases d.len(),
{
    if k < d.len() {
        assert(d.drop_last().take(k) =~= d.take(k));
        lemma_decimal_value_grows(d.drop_last(), k);
    } else {
        assert(d.take(k) =~= d);
    }
}

/// The digits that an unsigned number is read from: a leading `+` is dropped.
pub open spec fn unsigned_digits(b: Seq<u8>) -> Seq<u8> {
    if b.len() > 0 && b[0] == 0x2bu8 {
        b.drop_first()
    } else {
        b
    }
}

/// The `u16` that std's `str::parse::<u16>` reads from the UTF-8 bytes `b`:
/// an optional `+` and then one or more decimal digits whose value fits.
pub open spec fn spec_parse_u16(b: Seq<u8>) -> Option<u16> {
    let d = unsigned_digits(b);
    if d.len() > 0 && all_digits(d) && decimal_value(d) <= 0xffff {
        Some(decimal_value(d) as u16)
    } else {
        None
    }
}

/// Reads an unsigned 16-bit decimal number from the bytes of a string.
pub fn parse_u16(b: &[u8]) -> (r: Option<u16>)
    ensures
        r == spec_parse_u16(b@),
{
    let start: usize = if b.len() > 0 && b[0] == 0x2bu8 { 1 } else { 0 };
    let ghost d = unsigned_digits(b@);
    assert(d =~= b@.subrange(start as int, b@.len() as int));
    if start == b.len() {
        return None;
    }
    let mut v: u32 = 0;
    let mut i: usize = start;
    while i < b.len()
        invariant
            start <= i <= b.len(),
            d == unsigned_digits(b@),
            d =~= b@.subrange(start as int, b@.len() as int),
            all_digits(d.take(i - start)),
            v == decimal_value(d.take(i - start)),
            v <= 0xffff,
        decreases b.len() - i,
    {
        let c = b[i];
        if c < 0x30u8 || c > 0x39u8 {
            assert(!is_digit(d[i - start]));
            return None;
        }
        let nv: u32 = v * 10 + (c - 0x30u8) as u32;
        assert(d.take(i + 1 - start).drop_last() =~= d.take(i - start));
        if nv > 0xffff {
            proof {
                if all_digits(d) {
                    lemma_decimal_value_grows(d, i + 1 - start);
                }
            }
            return None;
        }
        v = nv;
        i = i + 1;
    }
    assert(d.take(i - start) =~= d);
    Some(v as u16)
}

/// Whether two strings hold the same characters.
pub fn str_eq(a: &str, b: &str) -> (r: bool)
    ensures
        r == (a@ == b@),
{
    let x = a.as_bytes();
    let y = b.as_bytes();
    proof {
        encode_utf8_decode_utf8(a@);
        encode_utf8_decode_utf8(b@);
    }
    if x.len() != y.len() {
        return false;
    }
    let mut i: usize = 0;
    while i < x.len()
        invariant
            i <= x@.len(),
            x@.len() == y@.len(),
            x@ == encode_utf8(a@),
            y@ == encode_utf8(b@),
            forall|j: int| 0 <= j < i ==> x@[j] == y@[j],
        decreases x@.len() - i,
    {
        if x[i] != y[i] {
            return false;
        }
        i = i + 1;
    }
    assert(x@ =~= y@);
    true
}

/// std's `String::from_utf8`: the string that the bytes encode, if they are valid UTF-8.
///
/// Trusted: std documents that `from_utf8` succeeds exactly on valid UTF-8 and that the
/// string then holds the characters those bytes encode; both are stated over vstd's
/// definitions of UTF-8.
#[verifier::external_body]
pub(crate) fn utf8_to_string(bytes: &[u8]) -> (r: Option<String>)
    ensures
        r is Some <==> valid_utf8(bytes@),
        r matches Some(s) ==> s@ == decode_utf8(bytes@),
{
    String::from_utf8(bytes.to_vec()).ok()
}

} // verus!
