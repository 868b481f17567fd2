//! The settlement payload: the record that tells a relayer whom to pay, how
//! much, and for which user, and its canonical JSON encoding.

use vstd::prelude::*;
use vstd::utf8::encode_utf8;
use crate::error::ContractError;
use crate::transport::hex_digit;

verus! {

/// What a JSON string literal holds in place of the byte `b` of a string's
/// UTF-8 form: a two-character escape for the quote, the backslash and the
/// five control characters that have a short name, `\u00` and two hexadecimal
/// digits for the other bytes below 0x20, and the byte itself otherwise.
pub open spec fn escaped_byte(b: u8) -> Seq<u8> {
    if b == 0x22 {
        seq![0x5cu8, 0x22u8]
    } else if b == 0x5c {
        seq![0x5cu8, 0x5cu8]
    } else if b == 0x08 {
        seq![0x5cu8, 0x62u8]
    } else if b == 0x09 {
        seq![0x5cu8, 0x74u8]
    } else if b == 0x0a {
        seq![0x5cu8, 0x6eu8]
    } else if b == 0x0c {
        seq![0x5cu8, 0x66u8]
    } else if b == 0x0d {
        seq![0x5cu8, 0x72u8]
    } else if b < 0x20 {
        seq![
            0x5cu8,
            0x75u8,
            0x30u8,
            0x30u8,
            hex_digit(b as int / 16) as u8,
            hex_digit(b as int % 16) as u8,
        ]
    } else {
        seq![b]
    }
}

/// The escaped forms of all bytes, in order.
pub open spec fn escaped(bytes: Seq<u8>) -> Seq<u8>
    decreases bytes.len(),
{
    if bytes.len() == 0 {
        Seq::empty()
    } else {
        escaped_byte(bytes[0]) + escaped(bytes.drop_first())
    }
}

/// The JSON string literal for `s`, as UTF-8 bytes: a quote, the escaped
/// bytes of `s`, a quote.
pub open spec fn json_string_text(s: Seq<char>) -> Seq<u8> {
    seq![0x22u8] + escaped(encode_utf8(s)) + seq![0x22u8]
}

/// The error type of `serde_json`. It is handed on and never looked into.
#[verifier::external_type_specification]
#[verifier::external_body]
pub struct ExJsonError(serde_json::Error);

/// `serde_json::to_vec`, called on a string. It writes into a fresh vector
/// with the compact formatter: a quote, then the string's bytes with each
/// byte that its escape table marks replaced by the escape, then a quote.
/// Its documentation names two causes of failure, a value whose own
/// serialization fails and a map whose keys are not strings; a string is
/// neither, and the vector takes every write, so the call succeeds.
#[verifier::external_body]
fn json_string(s: &str) -> (encoded: Result<Vec<u8>, serde_json::Error>)
    ensures
        encoded is Ok,
        encoded->Ok_0@ == json_string_text(s@),
{
    serde_json::to_vec(s)
}

/// What a relayer needs to execute one settlement.
#[derive(Clone, Debug, PartialEq, Eq)]
pub struct SettlementPayload {
    /// The payout address on the other chain.
    pub evm_recipient: String,
    /// The settled amount, in decimal.
    pub amount: String,
    /// The user whose balance was settled.
    pub user_id: String,
}

/// A payload as plain text values.
pub struct PayloadView {
    pub evm_recipient: Seq<char>,
    pub amount: Seq<char>,
    pub user_id: Seq<char>,
}

impl View for SettlementPayload {
    type V = PayloadView;

    open spec fn view(&self) -> PayloadView {
        PayloadView {
            evm_recipient: self.evm_recipient@,
            amount: self.amount@,
            user_id: self.user_id@,
        }
    }
}

/// The canonical encoding of a payload: one JSON object without white space
/// whose members are `evm_recipient`, `amount` and `user_id`, in this order.
pub open spec fn payload_json(p: PayloadView) -> Seq<u8> {
    encode_utf8("{\"evm_recipient\":"@) + json_string_text(p.evm_recipient) + encode_utf8(
        ",\"amount\":"@,
    ) + json_string_text(p.amount) + encode_utf8(",\"user_id\":"@) + json_string_text(p.user_id)
        + encode_utf8("}"@)
}

fn append(out: &mut Vec<u8>, part: &[u8])
    ensures
        final(out)@ == old(out)@ + part@,
{
    let mut i: usize = 0;
    while i < part.len()
        invariant
            i <= part@.len(),
            out@ == old(out)@ + part@.subrange(0, i as int),
        decreases part@.len() - i,
    {
        out.push(part[i]);
        i += 1;
        assert(out@ =~= old(out)@ + part@.subrange(0, i as int));
    }
    assert(part@.subrange(0, part@.len() as int) =~= part@);
}

impl SettlementPayload {
    /// Encodes the payload. The encoding is built whole before anything is
    /// returned, so a caller that commits only on `Ok` never reports a
    /// settlement without its payload. An error of the encoder would be
    /// handed on as `PayloadSerialisation`; on strings the encoder has none.
    pub fn to_json(&self) -> (r: Result<Vec<u8>, ContractError>)
        ensures
            r matches Ok(bytes) && bytes@ == payload_json(self@),
    {
        let recipient = match json_string(self.evm_recipient.as_str()) {
            Ok(bytes) => bytes,
            Err(_) => { return Err(ContractError::PayloadSerialisation); },
        };
        let amount = match json_string(self.amount.as_str()) {
            Ok(bytes) => bytes,
            Err(_) => { return Err(ContractError::PayloadSerialisation); },
        };
        let user = match json_string(self.user_id.as_str()) {
            Ok(bytes) => bytes,
            Err(_) => { return Err(ContractError::PayloadSerialisation); },
        };
        let mut out: Vec<u8> = Vec::new();
        append(&mut out, "{\"evm_recipient\":".as_bytes());
        append(&mut out, recipient.as_slice());
        append(&mut out, ",\"amount\":".as_bytes());
        append(&mut out, amount.as_slice());
        append(&mut out, ",\"user_id\":".as_bytes());
        append(&mut out, user.as_slice());
        append(&mut out, "}".as_bytes());
        assert(out@ =~= payload_json(self@));
        Ok(out)
    }
}

/// The payload that `bytes` are the canonical encoding of, if they are the
/// encoding of one.
pub open spec fn payload_of(bytes: Seq<u8>) -> Option<PayloadView> {
    if exists|p: PayloadView| payload_json(p) == bytes {
        Some(choose|p: PayloadView| payload_json(p) == bytes)
    } else {
        None
    }
}

/// What follows a common beginning is the same where the wholes are.
proof fn lemma_same_start(start: Seq<u8>, x: Seq<u8>, y: Seq<u8>)
    requires
        start + x == start + y,
    ensures
        x == y,
{
    assert(x =~= (start + x).skip(start.len() as int));
    assert(y =~= (start + y).skip(start.len() as int));
}

/// An escape never begins with a quote, and tells which byte it stands for.
proof fn lemma_escape_tells(a: u8, b: u8)
    ensures
        escaped_byte(a)[0] != 0x22,
        1 <= escaped_byte(a).len() <= 6,
        escaped_byte(a).len() <= escaped_byte(b).len() && (forall|i: int|
            0 <= i < escaped_byte(a).len() ==> escaped_byte(a)[i] == escaped_byte(b)[i]) ==> a == b,
{
    let ea = escaped_byte(a);
    let eb = escaped_byte(b);
    if ea.len() <= eb.len() && (forall|i: int| 0 <= i < ea.len() ==> ea[i] == eb[i]) {
        assert(ea[0] == eb[0]);
        if ea.len() >= 2 {
            assert(ea[1] == eb[1]);
        }
        if ea.len() == 6 {
            assert(ea[4] == eb[4]);
            assert(ea[5] == eb[5]);
            assert(a < 0x20 && b < 0x20);
            assert(a as int / 16 == b as int / 16);
            assert(a as int % 16 == b as int % 16);
        }
    }
}

/// Escaped bytes end where the first bare quote stands: two escaped strings
/// that are each followed by a quote and agree with what comes after them
/// are escapes of the same bytes, followed by the same.
proof fn lemma_escaped_ends_at_quote(x: Seq<u8>, r: Seq<u8>, y: Seq<u8>, s: Seq<u8>)
    requires
        escaped(x) + (seq![0x22u8] + r) == escaped(y) + (seq![0x22u8] + s),
    ensures
        x == y,
        r == s,
    decreases x.len(), y.len(),
{
    let left = escaped(x) + (seq![0x22u8] + r);
    let right = escaped(y) + (seq![0x22u8] + s);
    if x.len() == 0 && y.len() == 0 {
        assert(left =~= seq![0x22u8] + r);
        assert(right =~= seq![0x22u8] + s);
        lemma_same_start(seq![0x22u8], r, s);
        assert(x =~= y);
    } else if x.len() == 0 {
        lemma_escape_tells(y[0], y[0]);
        assert(left[0] == 0x22);
        assert(right[0] == escaped_byte(y[0])[0]);
    } else if y.len() == 0 {
        lemma_escape_tells(x[0], x[0]);
        assert(right[0] == 0x22);
        assert(left[0] == escaped_byte(x[0])[0]);
    } else {
        let ex = escaped_byte(x[0]);
        let ey = escaped_byte(y[0]);
        let rest_x = escaped(x.drop_first()) + (seq![0x22u8] + r);
        let rest_y = escaped(y.drop_first()) + (seq![0x22u8] + s);
        assert(left =~= ex + rest_x);
        assert(right =~= ey + rest_y);
        lemma_escape_tells(x[0], y[0]);
        lemma_escape_tells(y[0], x[0]);
        if ex.len() <= ey.len() {
            assert forall|i: int| 0 <= i < ex.len() implies ex[i] == ey[i] by {
                assert(left[i] == ex[i]);
                assert(right[i] == ey[i]);
            }
        } else {
            assert forall|i: int| 0 <= i < ey.len() implies ey[i] == ex[i] by {
                assert(left[i] == ex[i]);
                assert(right[i] == ey[i]);
            }
        }
        assert(x[0] == y[0]);
        lemma_same_start(ex, rest_x, rest_y);
        lemma_escaped_ends_at_quote(x.drop_first(), r, y.drop_first(), s);
        assert(x =~= seq![x[0]] + x.drop_first());
        assert(y =~= seq![y[0]] + y.drop_first());
    }
}

/// A JSON string literal tells its string and where it ends: two literals
/// that agree with what comes after them are literals of the same string,
/// followed by the same.
pub proof fn lemma_json_string_ends(a: Seq<char>, r: Seq<u8>, b: Seq<char>, s: Seq<u8>)
    requires
        json_string_text(a) + r == json_string_text(b) + s,
    ensures
        a == b,
        r == s,
{
    let x = encode_utf8(a);
    let y = encode_utf8(b);
    assert(json_string_text(a) + r =~= seq![0x22u8] + (escaped(x) + (seq![0x22u8] + r)));
    assert(json_string_text(b) + s =~= seq![0x22u8] + (escaped(y) + (seq![0x22u8] + s)));
    lemma_same_start(
        seq![0x22u8],
        escaped(x) + (seq![0x22u8] + r),
        escaped(y) + (seq![0x22u8] + s),
    );
    lemma_escaped_ends_at_quote(x, r, y, s);
    vstd::utf8::encode_utf8_decode_utf8(a);
    vstd::utf8::encode_utf8_decode_utf8(b);
}

proof fn lemma_joined(a: Seq<u8>, b: Seq<u8>, c: Seq<u8>)
    ensures
        (a + b) + c == a + (b + c),
{
    assert((a + b) + c =~= a + (b + c));
}

/// The encoding of a payload, read from the left: each part is followed by
/// all that comes after it.
proof fn lemma_payload_json_parts(p: PayloadView)
    ensures
        payload_json(p) == encode_utf8("{\"evm_recipient\":"@) + (json_string_text(p.evm_recipient)
            + (encode_utf8(",\"amount\":"@) + (json_string_text(p.amount) + (encode_utf8(
            ",\"user_id\":"@,
        ) + (json_string_text(p.user_id) + encode_utf8("}"@)))))),
{
    let k1 = encode_utf8("{\"evm_recipient\":"@);
    let k2 = encode_utf8(",\"amount\":"@);
    let k3 = encode_utf8(",\"user_id\":"@);
    let k4 = encode_utf8("}"@);
    let j1 = json_string_text(p.evm_recipient);
    let j2 = json_string_text(p.amount);
    let j3 = json_string_text(p.user_id);
    let t6 = j3 + k4;
    let t5 = k3 + t6;
    let t4 = j2 + t5;
    let t3 = k2 + t4;
    lemma_joined(k1 + j1 + k2 + j2 + k3, j3, k4);
    lemma_joined(k1 + j1 + k2 + j2, k3, t6);
    lemma_joined(k1 + j1 + k2, j2, t5);
    lemma_joined(k1 + j1, k2, t4);
    lemma_joined(k1, j1, t3);
}

/// No two payloads have the same encoding.
pub proof fn lemma_payload_json_tells(p: PayloadView, q: PayloadView)
    requires
        payload_json(p) == payload_json(q),
    ensures
        p == q,
{
    let k1 = encode_utf8("{\"evm_recipient\":"@);
    let k2 = encode_utf8(",\"amount\":"@);
    let k3 = encode_utf8(",\"user_id\":"@);
    let k4 = encode_utf8("}"@);
    let p3 = json_string_text(p.user_id) + k4;
    let q3 = json_string_text(q.user_id) + k4;
    let p2 = json_string_text(p.amount) + (k3 + p3);
    let q2 = json_string_text(q.amount) + (k3 + q3);
    let p1 = json_string_text(p.evm_recipient) + (k2 + p2);
    let q1 = json_string_text(q.evm_recipient) + (k2 + q2);
    lemma_payload_json_parts(p);
    lemma_payload_json_parts(q);
    lemma_same_start(k1, p1, q1);
    lemma_json_string_ends(p.evm_recipient, k2 + p2, q.evm_recipient, k2 + q2);
    lemma_same_start(k2, p2, q2);
    lemma_json_string_ends(p.amount, k3 + p3, q.amount, k3 + q3);
    lemma_same_start(k3, p3, q3);
    lemma_json_string_ends(p.user_id, k4, q.user_id, k4);
}

/// Decoding the encoding of a payload gives the payload back.
pub proof fn lemma_payload_round_trip(p: PayloadView)
    ensures
        payload_of(payload_json(p)) == Some(p),
{
    let found = choose|q: PayloadView| payload_json(q) == payload_json(p);
    lemma_payload_json_tells(found, p);
}

} // verus!
