//! Signatures of webhook bodies.
use hmac::{Hmac, Mac};
use sha2::Sha256;
use vstd::prelude::*;
use vstd::utf8::*;

use crate::bytes;
use crate::bytes::text_bytes;
use crate::relay::secret::Secret;
use crate::text;
use crate::text::{copy_text, decimal_text, join2, push_text};

verus! {

/// The HMAC-SHA256 of a message under a key.
pub uninterp spec fn hmac_sha256_of(key: Seq<u8>, message: Seq<u8>) -> Seq<u8>;

/// `hmac::Hmac<sha2::Sha256>` over a whole message: the code has 32 bytes and
/// depends on the key and the message alone. A key may have any length.
#[verifier::external_body]
fn hmac_sha256(key: &[u8], message: &[u8]) -> (r: Vec<u8>)
    ensures
        r@ == hmac_sha256_of(key@, message@),
        r@.len() == 32,
{
    let mut mac = <Hmac<Sha256> as Mac>::new_from_slice(key).expect("any key length is accepted");
    mac.update(message);
    mac.finalize().into_bytes().to_vec()
}

/// A hexadecimal digit, in lower case.
pub open spec fn hex_digit(d: int) -> char {
    if d < 10 {
        (48 + d) as char
    } else {
        (87 + d) as char
    }
}

/// Bytes in hexadecimal: two digits for each, the higher first.
pub open spec fn hex_text(b: Seq<u8>) -> Seq<char> {
    Seq::new(
        2 * b.len(),
        |i: int|
            hex_digit(
                if i % 2 == 0 {
                    b[i / 2] as int / 16
                } else {
                    b[i / 2] as int % 16
                },
            ),
    )
}

/// `hex::encode`: the bytes in hexadecimal, in lower case.
#[verifier::external_body]
fn hex_encode(b: &[u8]) -> (r: String)
    ensures
        r@ == hex_text(b@),
{
    hex::encode(b)
}

/// What is signed: the timestamp, a dot and the body.
pub open spec fn signed_payload(timestamp: u64, body: Seq<u8>) -> Seq<u8> {
    encode_utf8(text::decimal(timestamp as nat)) + seq![46u8] + body
}

/// The signature of a body that is sent at a given time.
pub open spec fn signature(secret: Seq<u8>, timestamp: u64, body: Seq<u8>) -> Seq<char> {
    "sha256="@ + hex_text(hmac_sha256_of(secret, signed_payload(timestamp, body)))
}

/// What may be shown of a signer: how long its secret is.
pub open spec fn description(secret_len: nat) -> Seq<char> {
    "Signer { secret_len: "@ + text::decimal(secret_len) + " }"@
}

/// Signs bodies with a secret.
pub struct Signer {
    /// The secret.
    pub secret: Secret,
}

impl Signer {
    /// A signer with that secret.
    pub fn new(secret: Vec<u8>) -> (r: Signer)
        ensures
            r.secret@ == secret@,
    {
        Signer { secret: Secret::new(secret) }
    }

    /// The signature of a body that is sent at a given time, in seconds since
    /// 1970.
    pub fn sign(&self, timestamp_secs: u64, body: &[u8]) -> (r: String)
        ensures
            r@ == signature(self.secret@, timestamp_secs, body@),
            r@.len() == 71,
    {
        proof {
            reveal_strlit("sha256=");
        }
        let mut payload = text_bytes(&decimal_text(timestamp_secs));
        payload.push(46);
        let ghost front = payload@;
        let mut i: usize = 0;
        let n: usize = body.len();
        while i < n
            invariant
                i <= n,
                n == body@.len(),
                payload@ == front + body@.take(i as int),
            decreases n - i,
        {
            payload.push(body[i]);
            i = i + 1;
            assert(payload@ =~= front + body@.take(i as int));
        }
        assert(payload@ =~= signed_payload(timestamp_secs, body@));
        let mac = hmac_sha256(self.secret.expose(), &payload);
        join2("sha256=", &hex_encode(&mac))
    }

    /// What may be shown of the signer: the length of its secret, never the
    /// secret.
    pub fn describe(&self) -> (r: String)
        ensures
            r@ == description(self.secret@.len()),
    {
        let mut out = copy_text("Signer { secret_len: ");
        push_text(&mut out, &decimal_text(self.secret.expose().len() as u64));
        push_text(&mut out, " }");
        out
    }
}

/// What is signed tells the timestamp and the body: another timestamp or another
/// body is another message.
pub proof fn law_payload_is_unambiguous(t1: u64, b1: Seq<u8>, t2: u64, b2: Seq<u8>)
    requires
        signed_payload(t1, b1) == signed_payload(t2, b2),
    ensures
        t1 == t2,
        b1 == b2,
{
    let d1 = text::decimal(t1 as nat);
    let d2 = text::decimal(t2 as nat);
    let e1 = encode_utf8(d1);
    let e2 = encode_utf8(d2);
    let p = signed_payload(t1, b1);
    text::lemma_decimal_digits(t1 as nat);
    text::lemma_decimal_digits(t2 as nat);
    bytes::lemma_encoding_keeps_out(d1, '.');
    bytes::lemma_encoding_keeps_out(d2, '.');
    assert('.' as u8 == 46);
    assert(p[e1.len() as int] == 46);
    assert(p[e2.len() as int] == 46);
    if e1.len() < e2.len() {
        assert(p[e1.len() as int] == e2[e1.len() as int]);
    }
    if e2.len() < e1.len() {
        assert(p[e2.len() as int] == e1[e2.len() as int]);
    }
    assert(e1 =~= p.take(e1.len() as int));
    assert(e2 =~= p.take(e2.len() as int));
    encode_utf8_decode_utf8(d1);
    encode_utf8_decode_utf8(d2);
    text::lemma_decimal_injective(t1 as nat, t2 as nat);
    assert(b1 =~= p.skip(e1.len() as int + 1));
    assert(b2 =~= p.skip(e2.len() as int + 1));
}

/// Each byte is written as two digits in base sixteen, the high one first.
pub proof fn law_each_byte_is_two_digits(b: Seq<u8>, i: int)
    requires
        0 <= i < b.len(),
    ensures
        hex_text(b).len() == 2 * b.len(),
        text::hex_value(hex_text(b)[2 * i]) == Some(b[i] as nat / 16),
        text::hex_value(hex_text(b)[2 * i + 1]) == Some(b[i] as nat % 16),
        !('A' <= hex_text(b)[2 * i] <= 'F') && !('A' <= hex_text(b)[2 * i + 1] <= 'F'),
{
    assert((2 * i) / 2 == i && (2 * i) % 2 == 0);
    assert((2 * i + 1) / 2 == i && (2 * i + 1) % 2 == 1);
}

} // verus!
