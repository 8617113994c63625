//! Strings made from the bytes and code units of the image.

use vstd::prelude::*;

verus! {

/// The characters of a name made of ASCII bytes.
pub open spec fn spec_ascii_chars(bytes: Seq<u8>) -> Seq<char> {
    Seq::new(bytes.len(), |i: int| bytes[i] as char)
}

/// The text that UTF-16 code units stand for, or `None` where they are no
/// valid UTF-16. It is a name for what `String::from_utf16` makes of them,
/// and nothing more is known of it.
pub uninterp spec fn spec_utf16_text(units: Seq<u16>) -> Option<Seq<char>>;

/// The ASCII digit for `d`, which is below ten.
pub open spec fn spec_digit(d: nat) -> u8 {
    (0x30 + d) as u8
}

/// The decimal digits of `n` as ASCII bytes, without leading zeros.
pub open spec fn spec_decimal(n: nat) -> Seq<u8>
    decreases n,
{
    if n < 10 {
        seq![spec_digit(n)]
    } else {
        spec_decimal(n / 10).push(spec_digit(n % 10))
    }
}

/// Calls `String::from_utf8_lossy`. Taken on trust, not proved: of bytes that
/// are all ASCII it makes the string that has one character for each byte,
/// with the byte's value. (Other bytes would be decoded as UTF-8, and
/// replaced where that fails; the precondition rules them out.)
#[verifier::external_body]
pub(crate) fn ascii_string(bytes: &[u8]) -> (s: String)
    requires
        forall|i: int| 0 <= i < bytes@.len() ==> bytes@[i] < 0x80,
    ensures
        s@ == spec_ascii_chars(bytes@),
{
    String::from_utf8_lossy(bytes).into_owned()
}

/// Calls `String::from_utf16`. Taken on trust, not proved: it gives the text
/// of the code units, or nothing where they are no valid UTF-16, and the
/// same units always give the same result. What the text is, is not said
/// here: `spec_utf16_text` only names it.
#[verifier::external_body]
pub(crate) fn utf16_string(units: &[u16]) -> (r: Option<String>)
    ensures
        match r {
            Some(s) => spec_utf16_text(units@) == Some(s@),
            None => spec_utf16_text(units@).is_none(),
        },
{
    String::from_utf16(units).ok()
}

/// Every decimal digit is an ASCII byte.
proof fn lemma_decimal_ascii(n: nat)
    ensures
        forall|i: int| 0 <= i < spec_decimal(n).len() ==> #[trigger] spec_decimal(n)[i] < 0x80,
    decreases n,
{
    if n >= 10 {
        lemma_decimal_ascii(n / 10);
        let front = spec_decimal(n / 10);
        assert forall|i: int| 0 <= i < spec_decimal(n).len() implies #[trigger] spec_decimal(n)[i]
            < 0x80 by {
            if i < front.len() {
                assert(spec_decimal(n)[i] == front[i]);
            } else {
                assert(spec_decimal(n)[i] == spec_digit(n % 10));
            }
        }
    }
}

/// The decimal digits of `n` as ASCII bytes.
pub fn decimal(n: u64) -> (digits: Vec<u8>)
    ensures
        digits@ == spec_decimal(n as nat),
    decreases n,
{
    let last: u8 = 0x30 + (n % 10) as u8;
    if n < 10 {
        let mut digits: Vec<u8> = Vec::new();
        digits.push(last);
        proof {
            assert(digits@ =~= seq![spec_digit(n as nat)]);
        }
        digits
    } else {
        let mut digits: Vec<u8> = decimal(n / 10);
        digits.push(last);
        digits
    }
}

/// The text `prefix`, the decimal digits of `n`, and `suffix`.
pub open spec fn spec_numbered(prefix: Seq<char>, n: nat, suffix: Seq<char>) -> Seq<char> {
    prefix + spec_ascii_chars(spec_decimal(n)) + suffix
}

/// The text `prefix`, the decimal digits of `n`, and `suffix`.
pub fn numbered(prefix: &str, n: u64, suffix: &str) -> (s: String)
    ensures
        s@ == spec_numbered(prefix@, n as nat, suffix@),
{
    let digits: Vec<u8> = decimal(n);
    proof {
        lemma_decimal_ascii(n as nat);
    }
    let number: String = ascii_string(digits.as_slice());
    let mut s: String = prefix.to_owned();
    s.append(number.as_str());
    s.append(suffix);
    s
}

} // verus!
