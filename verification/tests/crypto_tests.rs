use aes::cipher::block_padding::Pkcs7;
use aes::cipher::{BlockCipherEncrypt, BlockModeDecrypt, BlockModeEncrypt, KeyInit, KeyIvInit};
use nicodl::{decrypt, encrypt, Error};

type Aes128CbcEnc = cbc::Encryptor<aes::Aes128>;
type Aes128CbcDec = cbc::Decryptor<aes::Aes128>;

fn hex_bytes(s: &str) -> Vec<u8> {
    let b = s.as_bytes();
    let mut out = Vec::new();
    let val = |c: u8| -> u8 {
        match c {
            b'0'..=b'9' => c - b'0',
            b'a'..=b'f' => c - b'a' + 10,
            b'A'..=b'F' => c - b'A' + 10,
            _ => panic!("not hex"),
        }
    };
    let mut i = 0;
    while i < b.len() {
        out.push(val(b[i]) * 16 + val(b[i + 1]));
        i += 2;
    }
    out
}

#[test]
fn round_trip_various_lengths() {
    let key = [0x42u8; 16];
    let iv = [0x24u8; 16];
    for pt in [
        b"".to_vec(),
        b"a".to_vec(),
        b"0123456789abcdef".to_vec(),
        b"hello world! this is my plaintext.".to_vec(),
        vec![0u8; 100],
    ] {
        let ct = encrypt(&pt, &key, &iv);
        assert_eq!(decrypt(&ct, &key, &iv).unwrap(), pt);
    }
}

#[test]
fn encrypt_matches_reference_implementation() {
    let key = [0x42u8; 16];
    let iv = [0x24u8; 16];
    let plaintext = *b"hello world! this is my plaintext.";
    let expected = hex_bytes(
        "c7fe247ef97b21f07cbdd26cb5d346bfd27867cb00d9486723e159978fb9a5f914cfb228a710de4171e396e7b6cf859e",
    );
    let ours = encrypt(&plaintext, &key, &iv);
    assert_eq!(ours, expected);
    let reference = Aes128CbcEnc::new(&key.into(), &iv.into()).encrypt_padded_vec::<Pkcs7>(&plaintext);
    assert_eq!(ours, reference);
}

#[test]
fn decrypt_matches_reference_implementation() {
    let key = [0x42u8; 16];
    let iv = [0x24u8; 16];
    let ciphertext = hex_bytes(
        "c7fe247ef97b21f07cbdd26cb5d346bfd27867cb00d9486723e159978fb9a5f914cfb228a710de4171e396e7b6cf859e",
    );
    let ours = decrypt(&ciphertext, &key, &iv).unwrap();
    assert_eq!(ours, b"hello world! this is my plaintext.".to_vec());
    let reference = Aes128CbcDec::new(&key.into(), &iv.into())
        .decrypt_padded_vec::<Pkcs7>(&ciphertext)
        .unwrap();
    assert_eq!(ours, reference);
}

#[test]
fn decrypt_round_trips_reference_encryption() {
    let key = [7u8; 16];
    let iv = [9u8; 16];
    let plaintext = b"segment payload bytes".to_vec();
    let ct = Aes128CbcEnc::new(&key.into(), &iv.into()).encrypt_padded_vec::<Pkcs7>(&plaintext);
    assert_eq!(decrypt(&ct, &key, &iv).unwrap(), plaintext);
}

#[test]
fn decrypt_rejects_length_not_multiple_of_sixteen() {
    let key = [0u8; 16];
    let iv = [0u8; 16];
    assert_eq!(decrypt(&[1u8; 15], &key, &iv), Err(Error::Padding));
    assert_eq!(decrypt(&[1u8; 17], &key, &iv), Err(Error::Padding));
    assert_eq!(decrypt(&[], &key, &iv), Err(Error::Padding));
}

#[test]
fn decrypt_rejects_invalid_final_pad() {
    let key = [3u8; 16];
    let iv = [5u8; 16];
    // A block whose decryption ends in a zero byte: zero is no valid pad
    // length, so the whole ciphertext must be refused.
    let mut plain_block = [0xAAu8; 16];
    plain_block[15] = 0;
    let mut ct = Vec::new();
    {
        let cipher = aes::Aes128::new_from_slice(&key).unwrap();
        let mut block = aes::cipher::Array::from({
            let mut b = [0u8; 16];
            for i in 0..16 {
                b[i] = plain_block[i] ^ iv[i];
            }
            b
        });
        cipher.encrypt_block(&mut block);
        ct.extend_from_slice(&block);
    }
    assert_eq!(decrypt(&ct, &key, &iv), Err(Error::Padding));
    // A pad value above sixteen is refused too.
    let mut plain_block17 = [0x11u8; 16];
    plain_block17[15] = 17;
    let mut ct17 = Vec::new();
    {
        let cipher = aes::Aes128::new_from_slice(&key).unwrap();
        let mut block = aes::cipher::Array::from({
            let mut b = [0u8; 16];
            for i in 0..16 {
                b[i] = plain_block17[i] ^ iv[i];
            }
            b
        });
        cipher.encrypt_block(&mut block);
        ct17.extend_from_slice(&block);
    }
    assert_eq!(decrypt(&ct17, &key, &iv), Err(Error::Padding));
}

#[test]
fn error_labels() {
    assert_eq!(Error::Download.label(), "DownloadError");
    assert_eq!(Error::Padding.label(), "PaddingError");
    assert_eq!(Error::Transport.label(), "TransportError");
}
