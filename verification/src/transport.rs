//! The two text encodings in which a settlement payload travels: lower-case
//! hexadecimal and standard base64 with padding.

use vstd::prelude::*;

verus! {

/// The lower-case hexadecimal digit for `v`, for `0 <= v <= 15`.
pub open spec fn hex_digit(v: int) -> char {
    if v < 10 {
        ((48 + v) as u8) as char
    } else {
        ((87 + v) as u8) as char
    }
}

/// Two lower-case hexadecimal digits for each byte, the high half first.
pub open spec fn hex_text(bytes: Seq<u8>) -> Seq<char> {
    Seq::new(
        2 * bytes.len(),
        |i: int|
            if i % 2 == 0 {
                hex_digit(bytes[i / 2] as int / 16)
            } else {
                hex_digit(bytes[i / 2] as int % 16)
            },
    )
}

/// The value of a hexadecimal digit, if `c` is one in lower case.
pub open spec fn hex_value(c: char) -> Option<int> {
    let code = c as u32 as int;
    if 48 <= code <= 57 {
        Some(code - 48)
    } else if 97 <= code <= 102 {
        Some(code - 87)
    } else {
        None
    }
}

/// The bytes that a lower-case hexadecimal text stands for, if it is one.
pub open spec fn hex_bytes(text: Seq<char>) -> Option<Seq<u8>> {
    if text.len() % 2 == 0 && forall|i: int| 0 <= i < text.len() ==> hex_value(text[i]) is Some {
        Some(
            Seq::new(
                text.len() / 2,
                |i: int| (16 * hex_value(text[2 * i])->0 + hex_value(text[2 * i + 1])->0) as u8,
            ),
        )
    } else {
        None
    }
}

/// `hex::encode` walks the bytes in order and, for each, yields the digit of
/// its high four bits and then the digit of its low four bits, both taken
/// from the table `0123456789abcdef`, and collects them into a string.
#[verifier::external_body]
pub(crate) fn hex_string(bytes: &Vec<u8>) -> (text: String)
    ensures
        text@ == hex_text(bytes@),
{
    ::hex::encode(bytes)
}

/// The base64 character for a six-bit value, `0 <= v <= 63`, in the standard
/// alphabet: `A`-`Z`, `a`-`z`, `0`-`9`, `+`, `/`.
pub open spec fn sextet_char(v: int) -> char {
    if v < 26 {
        ((65 + v) as u8) as char
    } else if v < 52 {
        ((71 + v) as u8) as char
    } else if v < 62 {
        ((v - 4) as u8) as char
    } else if v == 62 {
        '+'
    } else {
        '/'
    }
}

/// Standard base64 with padding: each group of three bytes becomes four
/// characters, and a last group of one or two bytes is filled up with `=`.
pub open spec fn base64_text(bytes: Seq<u8>) -> Seq<char>
    decreases bytes.len(),
{
    if bytes.len() == 0 {
        Seq::empty()
    } else if bytes.len() == 1 {
        seq![
            sextet_char(bytes[0] as int / 4),
            sextet_char((bytes[0] as int % 4) * 16),
            '=',
            '=',
        ]
    } else if bytes.len() == 2 {
        seq![
            sextet_char(bytes[0] as int / 4),
            sextet_char((bytes[0] as int % 4) * 16 + bytes[1] as int / 16),
            sextet_char((bytes[1] as int % 16) * 4),
            '=',
        ]
    } else {
        seq![
            sextet_char(bytes[0] as int / 4),
            sextet_char((bytes[0] as int % 4) * 16 + bytes[1] as int / 16),
            sextet_char((bytes[1] as int % 16) * 4 + bytes[2] as int / 64),
            sextet_char(bytes[2] as int % 64),
        ] + base64_text(bytes.skip(3))
    }
}

/// The six-bit value of a base64 character, if `c` is in the alphabet.
pub open spec fn sextet_value(c: char) -> Option<int> {
    let code = c as u32 as int;
    if 65 <= code <= 90 {
        Some(code - 65)
    } else if 97 <= code <= 122 {
        Some(code - 71)
    } else if 48 <= code <= 57 {
        Some(code + 4)
    } else if c == '+' {
        Some(62)
    } else if c == '/' {
        Some(63)
    } else {
        None
    }
}

/// The bytes that a padded base64 text stands for, if it is one.
pub open spec fn base64_bytes(text: Seq<char>) -> Option<Seq<u8>>
    decreases text.len(),
{
    if text.len() == 0 {
        Some(Seq::empty())
    } else if text.len() < 4 {
        None
    } else {
        let a = sextet_value(text[0]);
        let b = sextet_value(text[1]);
        let c = sextet_value(text[2]);
        let d = sextet_value(text[3]);
        if a is None || b is None {
            None
        } else if text.len() == 4 && text[2] == '=' && text[3] == '=' {
            Some(seq![(a->0 * 4 + b->0 / 16) as u8])
        } else if c is None {
            None
        } else if text.len() == 4 && text[3] == '=' {
            Some(seq![(a->0 * 4 + b->0 / 16) as u8, ((b->0 % 16) * 16 + c->0 / 4) as u8])
        } else if d is None {
            None
        } else {
            match base64_bytes(text.skip(4)) {
                Some(rest) => Some(
                    seq![
                        (a->0 * 4 + b->0 / 16) as u8,
                        ((b->0 % 16) * 16 + c->0 / 4) as u8,
                        ((c->0 % 4) * 64 + d->0) as u8,
                    ] + rest,
                ),
                None => None,
            }
        }
    }
}

fn sextet(v: u8) -> (c: char)
    requires
        v < 64,
    ensures
        c == sextet_char(v as int),
{
    if v < 26 {
        (65 + v) as char
    } else if v < 52 {
        (71 + v) as char
    } else if v < 62 {
        (v - 4) as char
    } else if v == 62 {
        '+'
    } else {
        '/'
    }
}

/// Encodes bytes in standard base64 with padding.
pub fn base64_string(bytes: &Vec<u8>) -> (text: String)
    ensures
        text@ == base64_text(bytes@),
{
    let mut text = String::new();
    let n: usize = bytes.len();
    let mut i: usize = 0;
    assert(bytes@.skip(0) =~= bytes@);
    while n - i >= 3
        invariant
            n == bytes@.len(),
            i <= n,
            base64_text(bytes@) == text@ + base64_text(bytes@.skip(i as int)),
        decreases n - i,
    {
        let b0: u8 = bytes[i];
        let b1: u8 = bytes[i + 1];
        let b2: u8 = bytes[i + 2];
        let ghost before = text@;
        let ghost rest = bytes@.skip(i as int);
        text.push(sextet(b0 / 4));
        text.push(sextet((b0 % 4) * 16 + b1 / 16));
        text.push(sextet((b1 % 16) * 4 + b2 / 64));
        text.push(sextet(b2 % 64));
        proof {
            assert(rest.skip(3) =~= bytes@.skip(i + 3));
            assert(text@ =~= before + seq![
                sextet_char(rest[0] as int / 4),
                sextet_char((rest[0] as int % 4) * 16 + rest[1] as int / 16),
                sextet_char((rest[1] as int % 16) * 4 + rest[2] as int / 64),
                sextet_char(rest[2] as int % 64),
            ]);
        }
        i += 3;
    }
    let ghost before = text@;
    let ghost rest = bytes@.skip(i as int);
    if n - i == 1 {
        let b0: u8 = bytes[i];
        text.push(sextet(b0 / 4));
        text.push(sextet((b0 % 4) * 16));
        text.push('=');
        text.push('=');
        assert(text@ =~= before + base64_text(rest));
    } else if n - i == 2 {
        let b0: u8 = bytes[i];
        let b1: u8 = bytes[i + 1];
        text.push(sextet(b0 / 4));
        text.push(sextet((b0 % 4) * 16 + b1 / 16));
        text.push(sextet((b1 % 16) * 4));
        text.push('=');
        assert(text@ =~= before + base64_text(rest));
    } else {
        assert(text@ =~= before + base64_text(rest));
    }
    text
}

/// Decoding the hexadecimal text of any bytes gives the bytes back.
pub proof fn lemma_hex_round_trip(bytes: Seq<u8>)
    ensures
        hex_bytes(hex_text(bytes)) == Some(bytes),
{
    let text = hex_text(bytes);
    assert forall|v: int| 0 <= v < 16 implies #[trigger] hex_value(hex_digit(v)) == Some(v) by {}
    assert forall|i: int| 0 <= i < text.len() implies hex_value(text[i]) is Some by {
        let b = bytes[i / 2] as int;
        assert(hex_value(hex_digit(b / 16)) == Some(b / 16));
        assert(hex_value(hex_digit(b % 16)) == Some(b % 16));
    }
    let back = hex_bytes(text)->0;
    assert forall|i: int| 0 <= i < bytes.len() implies back[i] == bytes[i] by {
        let b = bytes[i] as int;
        assert(text[2 * i] == hex_digit(b / 16));
        assert(text[2 * i + 1] == hex_digit(b % 16));
        assert(hex_value(hex_digit(b / 16)) == Some(b / 16));
        assert(hex_value(hex_digit(b % 16)) == Some(b % 16));
    }
    assert(back =~= bytes);
}

/// Decoding the base64 text of any bytes gives the bytes back.
pub proof fn lemma_base64_round_trip(bytes: Seq<u8>)
    ensures
        base64_bytes(base64_text(bytes)) == Some(bytes),
    decreases bytes.len(),
{
    assert forall|v: int| 0 <= v < 64 implies #[trigger] sextet_value(sextet_char(v)) == Some(
        v,
    ) by {}
    assert(sextet_value('=') is None);
    let text = base64_text(bytes);
    if bytes.len() == 0 {
        assert(base64_bytes(text)->0 =~= bytes);
    } else {
        let b0 = bytes[0] as int;
        assert(sextet_value(sextet_char(b0 / 4)) == Some(b0 / 4));
        if bytes.len() == 1 {
            assert(sextet_value(sextet_char((b0 % 4) * 16)) == Some((b0 % 4) * 16));
            assert(base64_bytes(text)->0 =~= bytes);
        } else {
            let b1 = bytes[1] as int;
            let s1 = (b0 % 4) * 16 + b1 / 16;
            assert(sextet_value(sextet_char(s1)) == Some(s1));
            if bytes.len() == 2 {
                assert(sextet_value(sextet_char((b1 % 16) * 4)) == Some((b1 % 16) * 4));
                assert(base64_bytes(text)->0 =~= bytes);
            } else {
                let b2 = bytes[2] as int;
                let s2 = (b1 % 16) * 4 + b2 / 64;
                assert(sextet_value(sextet_char(s2)) == Some(s2));
                assert(sextet_value(sextet_char(b2 % 64)) == Some(b2 % 64));
                lemma_base64_round_trip(bytes.skip(3));
                assert(text.skip(4) =~= base64_text(bytes.skip(3)));
                assert(text[3] != '=');
                assert(seq![bytes[0], bytes[1], bytes[2]] + bytes.skip(3) =~= bytes);
                assert(base64_bytes(text)->0 =~= bytes);
            }
        }
    }
}

} // verus!
