use roborockutil::crypto::{decrypt, encrypt, CryptoError};

const TOKEN: &[u8; 16] = b"0123456789abcdef";

fn hex(text: &str) -> Vec<u8> {
    (0..text.len() / 2).map(|i| u8::from_str_radix(&text[2 * i..2 * i + 2], 16).unwrap()).collect()
}

#[test]
fn empty_payload_encrypts_to_one_block() {
    assert_eq!(encrypt(b"", TOKEN), Ok(hex("514308e8954f566807fcde7eec7605f0")));
}

#[test]
fn short_payload_encrypts_to_one_block() {
    assert_eq!(encrypt(b"hello", TOKEN), Ok(hex("4857a1be9dac40f4ff3799610b593cac")));
}

#[test]
fn whole_block_gets_a_block_of_padding() {
    assert_eq!(
        encrypt(b"0123456789abcdef", TOKEN),
        Ok(hex("c7526a92635e3eac6b4accf35b6a95cc8e023a4e37813b2dec7726280b6e88b0"))
    );
}

#[test]
fn blocks_are_chained() {
    let body = b"{\"id\":1,\"method\":\"get_status\",\"params\":{}}";
    assert_eq!(
        encrypt(body, TOKEN),
        Ok(hex(
            "f0f5c0e4d6da90c64836175e2cbc9ea7a6a2f84285673e84633c0200d3f3b536\
             af3e3057379983bc2badd67cac9aaf30"
        ))
    );
}

#[test]
fn known_ciphertexts_decrypt() {
    assert_eq!(decrypt(&hex("514308e8954f566807fcde7eec7605f0"), TOKEN), Ok(Vec::new()));
    assert_eq!(decrypt(&hex("4857a1be9dac40f4ff3799610b593cac"), TOKEN), Ok(b"hello".to_vec()));
    assert_eq!(
        decrypt(
            &hex("c7526a92635e3eac6b4accf35b6a95cc8e023a4e37813b2dec7726280b6e88b0"),
            TOKEN
        ),
        Ok(b"0123456789abcdef".to_vec())
    );
}

#[test]
fn decrypt_undoes_encrypt() {
    for len in 0..100usize {
        let payload: Vec<u8> = (0..len).map(|i| (i * 7 + len) as u8).collect();
        let ciphertext = encrypt(&payload, TOKEN).unwrap();
        assert_eq!(ciphertext.len(), len - len % 16 + 16);
        assert_ne!(ciphertext, payload);
        assert_eq!(decrypt(&ciphertext, TOKEN), Ok(payload));
    }
}

#[test]
fn another_token_gives_another_ciphertext() {
    let one = encrypt(b"hello", TOKEN).unwrap();
    let two = encrypt(b"hello", b"fedcba9876543210").unwrap();
    assert_ne!(one, two);
}

#[test]
fn token_must_have_sixteen_bytes() {
    assert_eq!(encrypt(b"hello", b"short"), Err(CryptoError::BadTokenLength { len: 5 }));
    assert_eq!(encrypt(b"hello", b""), Err(CryptoError::BadTokenLength { len: 0 }));
    assert_eq!(
        encrypt(b"hello", b"0123456789abcdefg"),
        Err(CryptoError::BadTokenLength { len: 17 })
    );
    assert_eq!(
        decrypt(&hex("4857a1be9dac40f4ff3799610b593cac"), b"0123456789abcde"),
        Err(CryptoError::BadTokenLength { len: 15 })
    );
}

#[test]
fn ciphertext_must_be_whole_blocks() {
    assert_eq!(decrypt(&[0u8; 15], TOKEN), Err(CryptoError::Truncated { len: 15 }));
    assert_eq!(decrypt(&[0u8; 17], TOKEN), Err(CryptoError::Truncated { len: 17 }));
    assert_eq!(decrypt(&[0u8; 1], TOKEN), Err(CryptoError::Truncated { len: 1 }));
}

#[test]
fn empty_ciphertext_has_no_padding() {
    assert_eq!(decrypt(&[], TOKEN), Err(CryptoError::BadPadding));
}

#[test]
fn wrong_token_does_not_decrypt() {
    let ciphertext = encrypt(b"", TOKEN).unwrap();
    assert_eq!(decrypt(&ciphertext, b"fedcba9876543210"), Err(CryptoError::BadPadding));
}

#[test]
fn missing_last_block_is_bad_padding() {
    let ciphertext = encrypt(b"0123456789abcdef", TOKEN).unwrap();
    assert_eq!(decrypt(&ciphertext[..16], TOKEN), Err(CryptoError::BadPadding));
}
