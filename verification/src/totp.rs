use vstd::prelude::*;

use crate::bytes::dec_digits;
use hmac::{Hmac, KeyInit, Mac};
use sha1::Sha1;

verus! {

/// The HMAC-SHA-1 digest, a function of key and message alone.
pub uninterp spec fn hmac_sha1(key: Seq<u8>, msg: Seq<u8>) -> Seq<u8>;

/// Relies on hmac::Hmac over sha1::Sha1 (the digest::Mac interface):
/// HMAC-SHA-1 accepts a key of any length, depends on key and message
/// alone, and yields a 20-byte digest.
#[verifier::external_body]
fn hmac_sha1_bytes(key: &[u8], msg: &[u8]) -> (r: Vec<u8>)
    ensures
        r@ == hmac_sha1(key@, msg@),
        r@.len() == 20,
{
    let mut mac = <Hmac<Sha1> as KeyInit>::new_from_slice(key).unwrap();
    mac.update(msg);
    mac.finalize().into_bytes().to_vec()
}

/// Relies on String::from_utf8: bytes under 128 are valid UTF-8 and become
/// the characters with the same code points.
#[verifier::external_body]
fn ascii_to_string(v: Vec<u8>) -> (r: String)
    requires
        forall|i: int| 0 <= i < v@.len() ==> v@[i] < 128,
    ensures
        r@.len() == v@.len(),
        forall|i: int| 0 <= i < v@.len() ==> r@[i] == v@[i] as char,
{
    String::from_utf8(v).unwrap()
}

/// The eight big-endian bytes of a 64-bit counter.
pub open spec fn be64(t: u64) -> Seq<u8> {
    seq![
        (t / 0x100000000000000) as u8,
        ((t / 0x1000000000000) % 256) as u8,
        ((t / 0x10000000000) % 256) as u8,
        ((t / 0x100000000) % 256) as u8,
        ((t / 0x1000000) % 256) as u8,
        ((t / 0x10000) % 256) as u8,
        ((t / 0x100) % 256) as u8,
        (t % 256) as u8,
    ]
}

fn be64_bytes(t: u64) -> (r: Vec<u8>)
    ensures
        r@ == be64(t),
{
    let mut r: Vec<u8> = Vec::new();
    r.push((t / 0x100000000000000) as u8);
    r.push(((t / 0x1000000000000) % 256) as u8);
    r.push(((t / 0x10000000000) % 256) as u8);
    r.push(((t / 0x100000000) % 256) as u8);
    r.push(((t / 0x1000000) % 256) as u8);
    r.push(((t / 0x10000) % 256) as u8);
    r.push(((t / 0x100) % 256) as u8);
    r.push((t % 256) as u8);
    assert(r@ =~= be64(t));
    r
}

/// Ten to the `d`-th power.
pub open spec fn pow10(d: nat) -> int
    decreases d,
{
    if d == 0 {
        1
    } else {
        10 * pow10((d - 1) as nat)
    }
}

/// The one-time code before padding: the counter is the elapsed periods
/// since `t0`; the digest's last nibble picks four bytes, read big-endian
/// with the top bit cleared, and reduced modulo ten to the `digits`.
pub open spec fn totp_value(secret: Seq<u8>, time: u64, period: u64, t0: u64, digits: nat) -> int {
    let t = (time - t0) as nat / period as nat;
    let hs = hmac_sha1(secret, be64(t as u64));
    let off = hs[19] as int % 16;
    let s1 = (hs[off] as int % 128) * 0x1000000 + hs[off + 1] * 0x10000 + hs[off + 2] * 0x100
        + hs[off + 3];
    s1 % pow10(digits)
}

/// The code as text: the decimal digits, left-padded with zeros up to
/// `digits` characters.
pub open spec fn totp_text(secret: Seq<u8>, time: u64, period: u64, t0: u64, digits: nat) -> Seq<
    u8,
> {
    let d = dec_digits(totp_value(secret, time, period, t0, digits) as nat);
    if d.len() >= digits {
        d
    } else {
        Seq::new((digits - d.len()) as nat, |i: int| 0x30u8) + d
    }
}

proof fn lemma_dec_digits_ascii(n: nat)
    ensures
        forall|i: int| 0 <= i < dec_digits(n).len() ==> 0x30 <= #[trigger] dec_digits(n)[i]
            <= 0x39,
    decreases n,
{
    if n < 10 {
        assert(dec_digits(n)[0] == (0x30 + n) as u8);
    } else {
        lemma_dec_digits_ascii(n / 10);
        assert forall|i: int| 0 <= i < dec_digits(n).len() implies 0x30 <= #[trigger] dec_digits(
            n,
        )[i] <= 0x39 by {
            if i < dec_digits(n / 10).len() {
                assert(dec_digits(n)[i] == dec_digits(n / 10)[i]);
            } else {
                assert(dec_digits(n)[i] == (0x30 + n % 10) as u8);
            }
        }
    }
}

/// The time-based one-time code over the shared secret, as the two-step
/// login verification requires it: `digits` characters, zero-padded.
pub fn compute_totp(secret: &[u8], time: u64, period: u64, t0: u64, digits: usize) -> (r: String)
    requires
        t0 <= time,
        period >= 1,
        1 <= digits <= 9,
    ensures
        r@.len() == totp_text(secret@, time, period, t0, digits as nat).len(),
        forall|i: int| 0 <= i < r@.len() ==> r@[i] == totp_text(
            secret@,
            time,
            period,
            t0,
            digits as nat,
        )[i] as char,
{
    let t = (time - t0) / period;
    let msg = be64_bytes(t);
    let hs = hmac_sha1_bytes(secret, msg.as_slice());
    let off = (hs[19] % 16) as usize;
    let s1: u32 = (hs[off] as u32 % 128) * 0x1000000 + hs[off + 1] as u32 * 0x10000 + hs[off
        + 2] as u32 * 0x100 + hs[off + 3] as u32;
    let mut modulus: u32 = 1;
    let mut d: usize = 0;
    while d < digits
        invariant
            0 <= d <= digits <= 9,
            modulus == pow10(d as nat),
            modulus <= 1000000000,
        decreases digits - d,
    {
        proof {
            reveal_with_fuel(pow10, 11);
        }
        modulus = modulus * 10;
        d = d + 1;
    }
    assert(modulus >= 10) by {
        reveal_with_fuel(pow10, 11);
    }
    let code = s1 % modulus;
    assert(code as int == totp_value(secret@, time, period, t0, digits as nat));
    let mut digits_buf: Vec<u8> = Vec::new();
    crate::bytes::push_dec(&mut digits_buf, code as u64);
    assert(digits_buf@ == dec_digits(code as nat));
    let mut out: Vec<u8> = Vec::new();
    let mut pad: usize = 0;
    let have = digits_buf.len();
    let need: usize = if have >= digits {
        0
    } else {
        digits - have
    };
    while pad < need
        invariant
            0 <= pad <= need,
            out@ =~= Seq::new(pad as nat, |i: int| 0x30u8),
        decreases need - pad,
    {
        out.push(0x30);
        assert(out@ =~= Seq::new((pad + 1) as nat, |i: int| 0x30u8));
        pad = pad + 1;
    }
    crate::bytes::push_all(&mut out, digits_buf.as_slice());
    proof {
        lemma_dec_digits_ascii(code as nat);
        assert(out@ =~= totp_text(secret@, time, period, t0, digits as nat));
    }
    ascii_to_string(out)
}

} // verus!
