use vstd::prelude::*;

use crate::error::Error;
use aes::cipher::{Array, BlockCipherDecrypt, BlockCipherEncrypt, KeyInit};
use vstd::slice::{slice_subrange, slice_to_vec};

verus! {

/// The AES-128 block encryption permutation, a function of the 16-byte key
/// and the 16-byte block alone.
pub uninterp spec fn aes128_enc(key: Seq<u8>, block: Seq<u8>) -> Seq<u8>;

/// The AES-128 block decryption permutation, a function of the 16-byte key
/// and the 16-byte block alone.
pub uninterp spec fn aes128_dec(key: Seq<u8>, block: Seq<u8>) -> Seq<u8>;

/// Relies on aes::Aes128 through cipher::BlockCipherEncrypt::encrypt_block:
/// AES-128 block encryption depends on the key and the block alone and
/// returns one 16-byte block; AES-128 block decryption inverts it.
#[verifier::external_body]
fn aes_encrypt_block(key: &[u8], block: &[u8]) -> (r: Vec<u8>)
    requires
        key@.len() == 16,
        block@.len() == 16,
    ensures
        r@ == aes128_enc(key@, block@),
        aes128_dec(key@, r@) == block@,
        r@.len() == 16,
{
    let cipher = aes::Aes128::new_from_slice(key).unwrap();
    let mut b = [0u8; 16];
    b.copy_from_slice(block);
    let mut arr = Array::from(b);
    cipher.encrypt_block(&mut arr);
    arr.to_vec()
}

/// Relies on aes::Aes128 through cipher::BlockCipherDecrypt::decrypt_block:
/// AES-128 block decryption depends on the key and the block alone and
/// returns one 16-byte block.
#[verifier::external_body]
fn aes_decrypt_block(key: &[u8], block: &[u8]) -> (r: Vec<u8>)
    requires
        key@.len() == 16,
        block@.len() == 16,
    ensures
        r@ == aes128_dec(key@, block@),
        r@.len() == 16,
{
    let cipher = aes::Aes128::new_from_slice(key).unwrap();
    let mut b = [0u8; 16];
    b.copy_from_slice(block);
    let mut arr = Array::from(b);
    cipher.decrypt_block(&mut arr);
    arr.to_vec()
}

/// The `i`-th 16-byte block of a byte sequence.
pub open spec fn nth_block(s: Seq<u8>, i: int) -> Seq<u8> {
    s.subrange(16 * i, 16 * i + 16)
}

/// The block XOR-ed into the `i`-th plaintext block of a CBC stream: the
/// initialization vector for the first block, else the previous ciphertext
/// block.
pub open spec fn chain_block(iv: Seq<u8>, ct: Seq<u8>, i: int) -> Seq<u8> {
    if i == 0 {
        iv
    } else {
        nth_block(ct, i - 1)
    }
}

/// The byte-wise XOR of two 16-byte blocks.
pub open spec fn xor16(a: Seq<u8>, b: Seq<u8>) -> Seq<u8> {
    Seq::new(16, |j: int| a[j] ^ b[j])
}

/// Byte `j` of the raw (still padded) AES-128-CBC decryption of `ct`.
pub open spec fn cbc_byte(key: Seq<u8>, iv: Seq<u8>, ct: Seq<u8>, j: int) -> u8 {
    aes128_dec(key, nth_block(ct, j / 16))[j % 16] ^ chain_block(iv, ct, j / 16)[j % 16]
}

/// The raw AES-128-CBC decryption of `ct` before the padding is removed.
pub open spec fn cbc_decrypt_raw(key: Seq<u8>, iv: Seq<u8>, ct: Seq<u8>) -> Seq<u8> {
    Seq::new(ct.len(), |j: int| cbc_byte(key, iv, ct, j))
}

/// Removes a PKCS#7 pad: the last byte `n` must lie in `1 ..= 16` and the
/// last `n` bytes must all equal `n`.
pub open spec fn pkcs7_unpad(s: Seq<u8>) -> Option<Seq<u8>> {
    if s.len() == 0 {
        None
    } else {
        let n = s[s.len() - 1] as int;
        if 1 <= n <= 16 && n <= s.len() && (forall|i: int|
            s.len() - n <= i < s.len() ==> s[i] == n as u8) {
            Some(s.subrange(0, s.len() - n))
        } else {
            None
        }
    }
}

/// What `decrypt` returns: `None` stands for a padding failure, on a length
/// that is no positive multiple of 16 or on a last block whose PKCS#7 pad is
/// invalid.
pub open spec fn cbc_decrypt(key: Seq<u8>, iv: Seq<u8>, ct: Seq<u8>) -> Option<Seq<u8>> {
    if ct.len() == 0 || ct.len() % 16 != 0 {
        None
    } else {
        pkcs7_unpad(cbc_decrypt_raw(key, iv, ct))
    }
}

proof fn lemma_div16(i: int, j: int)
    requires
        0 <= i,
        0 <= j < 16,
    ensures
        (16 * i + j) / 16 == i,
        (16 * i + j) % 16 == j,
{
    assert((16 * i + j) / 16 == i && (16 * i + j) % 16 == j) by (nonlinear_arith)
        requires
            0 <= i,
            0 <= j < 16,
    ;
}

proof fn lemma_xor_cancel(a: u8, b: u8)
    ensures
        (a ^ b) ^ b == a,
{
    assert((a ^ b) ^ b == a) by (bit_vector);
}

/// AES-128-CBC decryption with PKCS#7 unpadding of one segment's ciphertext.
/// Pure and stateless; fails with `Error::Padding` exactly when the
/// ciphertext length is no positive multiple of 16 or the final block's pad
/// is invalid.
pub fn decrypt(ciphertext: &[u8], key: &[u8], iv: &[u8]) -> (r: Result<Vec<u8>, Error>)
    requires
        key@.len() == 16,
        iv@.len() == 16,
    ensures
        match r {
            Ok(p) => cbc_decrypt(key@, iv@, ciphertext@) == Some(p@),
            Err(e) => e == Error::Padding && cbc_decrypt(key@, iv@, ciphertext@) is None,
        },
{
    let n = ciphertext.len();
    if n == 0 || n % 16 != 0 {
        return Err(Error::Padding);
    }
    let blocks = n / 16;
    let mut out: Vec<u8> = Vec::new();
    let mut i: usize = 0;
    while i < blocks
        invariant
            key@.len() == 16,
            iv@.len() == 16,
            n == ciphertext@.len(),
            n % 16 == 0,
            n > 0,
            blocks == n / 16,
            0 <= i <= blocks,
            out@.len() == 16 * i,
            forall|j: int| 0 <= j < 16 * i ==> out@[j] == cbc_byte(key@, iv@, ciphertext@, j),
        decreases blocks - i,
    {
        assert(16 * i + 16 <= n) by (nonlinear_arith)
            requires
                i < blocks,
                blocks == n / 16,
                n % 16 == 0,
                0 <= i,
                0 <= n,
        ;
        let block = slice_subrange(ciphertext, 16 * i, 16 * i + 16);
        let prev: &[u8] = if i == 0 {
            iv
        } else {
            slice_subrange(ciphertext, 16 * (i - 1), 16 * i)
        };
        let dec = aes_decrypt_block(key, block);
        let mut j: usize = 0;
        while j < 16
            invariant
                key@.len() == 16,
                iv@.len() == 16,
                n == ciphertext@.len(),
                0 <= i < blocks,
                16 * i + 16 <= n,
                block@ == nth_block(ciphertext@, i as int),
                prev@ == chain_block(iv@, ciphertext@, i as int),
                dec@ == aes128_dec(key@, block@),
                dec@.len() == 16,
                prev@.len() == 16,
                0 <= j <= 16,
                out@.len() == 16 * i + j,
                forall|k: int| 0 <= k < 16 * i + j ==> out@[k] == cbc_byte(
                    key@,
                    iv@,
                    ciphertext@,
                    k,
                ),
            decreases 16 - j,
        {
            let b = dec[j] ^ prev[j];
            out.push(b);
            proof {
                lemma_div16(i as int, j as int);
            }
            j = j + 1;
        }
        i = i + 1;
    }
    assert(out@ =~= cbc_decrypt_raw(key@, iv@, ciphertext@)) by {
        assert(16 * blocks == n) by (nonlinear_arith)
            requires
                blocks == n / 16,
                n % 16 == 0,
                0 <= n,
        ;
    }
    // PKCS#7 unpad of the raw decryption.
    let last = out[n - 1];
    if last < 1 || last > 16 {
        return Err(Error::Padding);
    }
    let pad = last as usize;
    let mut k: usize = n - pad;
    while k < n
        invariant
            out@ == cbc_decrypt_raw(key@, iv@, ciphertext@),
            out@.len() == n,
            n == ciphertext@.len(),
            n > 0,
            n % 16 == 0,
            last == out@[n - 1],
            pad == last as usize,
            1 <= pad <= 16,
            pad <= n,
            n - pad <= k <= n,
            forall|m: int| n - pad <= m < k ==> out@[m] == last,
        decreases n - k,
    {
        if out[k] != last {
            proof {
                let s = out@;
                assert(s[k as int] != s[s.len() - 1]);
                assert(!(forall|m: int|
                    s.len() - (s[s.len() - 1] as int) <= m < s.len() ==> #[trigger] s[m]
                        == s[s.len() - 1]));
                assert(pkcs7_unpad(s) is None);
            }
            return Err(Error::Padding);
        }
        k = k + 1;
    }
    assert(forall|m: int| n - pad <= m < n ==> out@[m] == (pad as u8)) by {
        assert(pad as u8 == last);
    }
    out.truncate(n - pad);
    assert(out@ =~= pkcs7_unpad(cbc_decrypt_raw(key@, iv@, ciphertext@)).unwrap());
    Ok(out)
}

/// The pad length PKCS#7 appends to a message of length `l`: always between
/// 1 and 16, bringing the total to a multiple of 16.
pub open spec fn pad_len(l: nat) -> int {
    16 - l % 16
}

/// A message with its PKCS#7 pad appended.
pub open spec fn pkcs7_pad(s: Seq<u8>) -> Seq<u8> {
    s + Seq::new(pad_len(s.len()) as nat, |j: int| pad_len(s.len()) as u8)
}

proof fn lemma_pad_unpad(s: Seq<u8>)
    ensures
        pkcs7_unpad(pkcs7_pad(s)) == Some(s),
{
    let p = pkcs7_pad(s);
    let n = pad_len(s.len());
    assert(1 <= n <= 16);
    assert(p.len() == s.len() + n);
    assert(p[p.len() - 1] == n as u8);
    assert(forall|i: int| p.len() - n <= i < p.len() ==> p[i] == n as u8);
    assert(p.subrange(0, p.len() - n) =~= s);
}

/// AES-128-CBC encryption with PKCS#7 padding, the inverse of `decrypt`: for
/// every 16-byte key and initialization vector and every plaintext,
/// decrypting the result yields the plaintext back. Each ciphertext block
/// is the block encryption of the padded plaintext block XOR-ed with the
/// previous ciphertext block (the initialization vector at first).
pub fn encrypt(plaintext: &[u8], key: &[u8], iv: &[u8]) -> (r: Vec<u8>)
    requires
        key@.len() == 16,
        iv@.len() == 16,
        plaintext@.len() + 16 <= usize::MAX,
    ensures
        cbc_decrypt(key@, iv@, r@) == Some(plaintext@),
        r@.len() == plaintext@.len() + pad_len(plaintext@.len()),
        forall|bi: int|
            0 <= bi < r@.len() / 16 ==> #[trigger] nth_block(r@, bi) == aes128_enc(
                key@,
                xor16(nth_block(pkcs7_pad(plaintext@), bi), chain_block(iv@, r@, bi)),
            ),
{
    let n = plaintext.len();
    let pad = 16 - n % 16;
    let mut padded: Vec<u8> = slice_to_vec(plaintext);
    let mut q: usize = 0;
    while q < pad
        invariant
            pad == pad_len(plaintext@.len()),
            n == plaintext@.len(),
            0 <= q <= pad,
            padded@ == plaintext@ + Seq::new(q as nat, |j: int| pad as u8),
        decreases pad - q,
    {
        padded.push(pad as u8);
        assert(padded@ =~= plaintext@ + Seq::new((q + 1) as nat, |j: int| pad as u8));
        q = q + 1;
    }
    assert(padded@ =~= pkcs7_pad(plaintext@));
    let total = padded.len();
    assert(total % 16 == 0 && total > 0 && total == n + pad) by (nonlinear_arith)
        requires
            total == n + pad,
            pad == 16 - n % 16,
            0 <= n,
    ;
    let blocks = total / 16;
    let mut out: Vec<u8> = Vec::new();
    let mut prev: Vec<u8> = slice_to_vec(iv);
    let mut i: usize = 0;
    while i < blocks
        invariant
            key@.len() == 16,
            iv@.len() == 16,
            padded@.len() == total,
            total % 16 == 0,
            total > 0,
            blocks == total / 16,
            0 <= i <= blocks,
            out@.len() == 16 * i,
            prev@.len() == 16,
            prev@ == chain_block(iv@, out@, i as int),
            forall|j: int| 0 <= j < 16 * i ==> cbc_byte(key@, iv@, out@, j) == padded@[j],
            padded@ == pkcs7_pad(plaintext@),
            forall|bi: int|
                0 <= bi < i ==> #[trigger] nth_block(out@, bi) == aes128_enc(
                    key@,
                    xor16(nth_block(padded@, bi), chain_block(iv@, out@, bi)),
                ),
        decreases blocks - i,
    {
        assert(16 * i + 16 <= total) by (nonlinear_arith)
            requires
                i < blocks,
                blocks == total / 16,
                total % 16 == 0,
                0 <= i,
                0 <= total,
        ;
        let ghost old_out = out@;
        let mut xored: Vec<u8> = Vec::new();
        let mut j: usize = 0;
        while j < 16
            invariant
                padded@.len() == total,
                16 * i + 16 <= total,
                prev@.len() == 16,
                0 <= j <= 16,
                0 <= i,
                xored@.len() == j,
                forall|k: int| 0 <= k < j ==> xored@[k] == (padded@[16 * i + k] ^ prev@[k]),
            decreases 16 - j,
        {
            let b = padded[16 * i + j] ^ prev[j];
            xored.push(b);
            j = j + 1;
        }
        let c = aes_encrypt_block(key, xored.as_slice());
        let mut m: usize = 0;
        while m < 16
            invariant
                c@.len() == 16,
                0 <= m <= 16,
                out@ == old_out + c@.subrange(0, m as int),
            decreases 16 - m,
        {
            out.push(c[m]);
            assert(out@ =~= old_out + c@.subrange(0, m + 1));
            m = m + 1;
        }
        assert(out@ =~= old_out + c@);
        proof {
            assert(nth_block(out@, i as int) =~= c@);
            // Earlier blocks of `out` are unchanged by the append.
            assert forall|j: int| 0 <= j < 16 * i implies cbc_byte(key@, iv@, out@, j)
                == cbc_byte(key@, iv@, old_out, j) by {
                assert(0 <= j / 16 < i && 16 * (j / 16) + 16 <= 16 * i) by (nonlinear_arith)
                    requires
                        0 <= j < 16 * i,
                        0 <= i,
                ;
                assert(nth_block(out@, j / 16) =~= nth_block(old_out, j / 16));
                if j / 16 != 0 {
                    assert(nth_block(out@, j / 16 - 1) =~= nth_block(old_out, j / 16 - 1));
                }
            }
            // The new block decrypts to the padded plaintext bytes.
            assert forall|j: int| 16 * i <= j < 16 * i + 16 implies cbc_byte(key@, iv@, out@, j)
                == padded@[j] by {
                lemma_div16(i as int, j - 16 * i);
                assert(j / 16 == i && j % 16 == j - 16 * i);
                assert(aes128_dec(key@, nth_block(out@, i as int)) == xored@);
                assert(chain_block(iv@, out@, i as int) =~= prev@);
                assert(xored@[j % 16] == (padded@[j] ^ prev@[j % 16]));
                lemma_xor_cancel(padded@[j], prev@[j % 16]);
            }
            // Earlier blocks keep their chaining relation, and the new
            // block is the encryption of its chained input.
            assert forall|bi: int| 0 <= bi < i implies #[trigger] nth_block(out@, bi)
                == aes128_enc(
                key@,
                xor16(nth_block(padded@, bi), chain_block(iv@, out@, bi)),
            ) by {
                assert(16 * bi + 16 <= 16 * i) by (nonlinear_arith)
                    requires
                        0 <= bi < i,
                ;
                assert(nth_block(out@, bi) =~= nth_block(old_out, bi));
                if bi != 0 {
                    assert(nth_block(out@, bi - 1) =~= nth_block(old_out, bi - 1));
                }
            }
            assert(chain_block(iv@, out@, i as int) =~= prev@);
            assert(xored@ =~= xor16(nth_block(padded@, i as int), prev@));
            assert(nth_block(out@, i as int) == aes128_enc(
                key@,
                xor16(nth_block(padded@, i as int), chain_block(iv@, out@, i as int)),
            ));
        }
        prev = c;
        i = i + 1;
        assert(prev@ =~= chain_block(iv@, out@, i as int));
    }
    proof {
        assert(16 * blocks == total) by (nonlinear_arith)
            requires
                blocks == total / 16,
                total % 16 == 0,
                0 <= total,
        ;
        assert(cbc_decrypt_raw(key@, iv@, out@) =~= padded@);
        lemma_pad_unpad(plaintext@);
        assert(out@.len() == total && total % 16 == 0 && total > 0);
        assert(cbc_decrypt(key@, iv@, out@) == Some(plaintext@));
        assert(out@.len() / 16 == blocks);
    }
    out
}

} // verus!
