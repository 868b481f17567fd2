//! Text forms of the values that a ledger call reports: lower-cased payout
//! addresses and amounts in decimal.

use vstd::prelude::*;

verus! {

/// The lower-case form of a string, as std computes it from the Unicode
/// tables.
pub uninterp spec fn lowercase_text(s: Seq<char>) -> Seq<char>;

/// `str::to_lowercase` of std returns a new string that holds the lower-case
/// equivalent of the whole of `s`. The claim here is only that the result
/// depends on the characters of `s` and on nothing else.
pub assume_specification[ str::to_lowercase ](s: &str) -> (lowered: String)
    ensures
        lowered@ == lowercase_text(s@),
;

/// `String::push` of std appends one character to the end of the string.
pub assume_specification[ String::push ](s: &mut String, ch: char)
    ensures
        final(s)@ == old(s)@.push(ch),
;

/// The character that writes the digit `d`, for `0 <= d <= 9`.
pub open spec fn digit_char(d: int) -> char {
    ((48 + d) as u8) as char
}

/// `n` written in decimal, without sign and without leading zeros.
pub open spec fn decimal_text(n: nat) -> Seq<char>
    decreases n,
{
    if n < 10 {
        seq![digit_char(n as int)]
    } else {
        decimal_text(n / 10).push(digit_char((n % 10) as int))
    }
}

/// Writes an amount in decimal.
pub fn decimal_string(n: u128) -> (text: String)
    ensures
        text@ == decimal_text(n as nat),
{
    let mut low: Vec<u8> = Vec::new();
    let mut rest: u128 = n;
    let ghost mut tail: Seq<char> = Seq::empty();
    while rest >= 10
        invariant
            decimal_text(n as nat) == decimal_text(rest as nat) + tail,
            tail.len() == low@.len(),
            forall|j: int| 0 <= j < low@.len() ==> low@[j] < 10,
            forall|j: int|
                0 <= j < low@.len() ==> tail[j] == digit_char(low@[low@.len() - 1 - j] as int),
        decreases rest,
    {
        let d: u8 = (rest % 10) as u8;
        proof {
            let shorter = decimal_text((rest / 10) as nat);
            assert(shorter.push(digit_char(d as int)) + tail =~= shorter + (seq![
                digit_char(d as int),
            ] + tail));
            tail = seq![digit_char(d as int)] + tail;
        }
        low.push(d);
        rest = rest / 10;
    }
    let mut text = String::new();
    text.push((48 + rest as u8) as char);
    let mut i: usize = low.len();
    assert(text@ =~= decimal_text(rest as nat) + tail.subrange(0, 0));
    while i > 0
        invariant
            i <= low@.len(),
            tail.len() == low@.len(),
            forall|j: int| 0 <= j < low@.len() ==> low@[j] < 10,
            forall|j: int|
                0 <= j < low@.len() ==> tail[j] == digit_char(low@[low@.len() - 1 - j] as int),
            text@ == decimal_text(rest as nat) + tail.subrange(0, low@.len() - i),
        decreases i,
    {
        i -= 1;
        let d: u8 = low[i];
        text.push((48 + d) as char);
        assert(text@ =~= decimal_text(rest as nat) + tail.subrange(0, low@.len() - i));
    }
    assert(tail.subrange(0, low@.len() as int) =~= tail);
    text
}

} // verus!
