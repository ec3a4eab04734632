use monami::utils::{aes_decrypt, aes_encrypt, try_aes_decrypt, CipherError};

#[test]
fn encrypt_known_vector() {
    assert_eq!(aes_encrypt("hello", "minamo").unwrap(), "QmfGrzcqj3WWy2EhP5s+Ug==");
}

#[test]
fn encrypt_empty_text_is_empty() {
    assert_eq!(aes_encrypt("", "minamo").unwrap(), "");
    assert_eq!(aes_decrypt("", "minamo"), Ok(String::new()));
}

#[test]
fn encrypt_long_text_keeps_every_block() {
    let data = "a".repeat(5000);
    let sealed = aes_encrypt(&data, "minamo").unwrap();
    assert_eq!(base64::decode(&sealed).unwrap().len(), 5008);
    assert_eq!(sealed.len(), 6680);
    assert_eq!(aes_decrypt(&sealed, "minamo"), Ok(data));
}

#[test]
fn encrypted_length_depends_on_data_length_only() {
    for n in [0usize, 1, 15, 16, 17, 31, 32, 100] {
        let blocks = if n == 0 { 0 } else { 16 * (n / 16 + 1) };
        let a = aes_encrypt(&"x".repeat(n), "minamo").unwrap();
        let b = aes_encrypt(&"y".repeat(n), "other").unwrap();
        assert_eq!(base64::decode(&a).unwrap().len(), blocks);
        assert_eq!(a.len(), 4 * ((blocks + 2) / 3));
        assert_eq!(a.len(), b.len());
    }
}

#[test]
fn encrypt_full_block_adds_padding_block() {
    assert_eq!(
        aes_encrypt("0123456789abcdef", "minamo").unwrap(),
        "0PFF2ZiVNmbT7A7q7aL+HeWF2jf3eHL5vbot2iUFe4Y="
    );
}

#[test]
fn decrypt_known_vector() {
    assert_eq!(aes_decrypt("QmfGrzcqj3WWy2EhP5s+Ug==", "minamo"), Ok("hello".to_string()));
}

#[test]
fn decrypt_inverts_encrypt() {
    for text in ["", "a", "{\"success\": true}", "0123456789abcdef", "héllo wörld ✓ 日本"] {
        for secret in ["minamo", "", "another secret"] {
            let sealed = aes_encrypt(text, secret).unwrap();
            assert_eq!(aes_decrypt(&sealed, secret), Ok(text.to_string()));
            assert_eq!(try_aes_decrypt(&sealed, secret), Some(Ok(text.to_string())));
        }
    }
}

#[test]
fn decrypt_with_other_secret_does_not_give_text_back() {
    let sealed = aes_encrypt("a message of some length", "minamo").unwrap();
    let opened = try_aes_decrypt(&sealed, "other");
    assert_ne!(opened, Some(Ok("a message of some length".to_string())));
}

#[test]
fn decrypt_rejects_non_base64() {
    assert_eq!(aes_decrypt("not base64!", "minamo"), Err(CipherError::InvalidLength));
}

#[test]
fn decrypt_rejects_partial_block() {
    assert_eq!(aes_decrypt("eHh4eHh4eHh4eHh4eHh4", "minamo"), Err(CipherError::InvalidLength));
}

#[test]
fn decrypt_empty_text_is_empty() {
    assert_eq!(aes_decrypt("", "minamo"), Ok(String::new()));
}

#[test]
fn decrypt_rejects_bad_padding() {
    assert_eq!(aes_decrypt("DlGjRwDMqvkX/oZEL5BgZQ==", "minamo"), Err(CipherError::InvalidPadding));
}

#[test]
fn decrypt_zero_padding_byte_keeps_block() {
    assert_eq!(
        aes_decrypt("1zrdlO7iD2fuMMYfBeUhmA==", "minamo"),
        Ok("abcdefghijklmno\u{0}".to_string())
    );
}

#[test]
fn try_decrypt_reports_overlong_padding() {
    assert_eq!(try_aes_decrypt("rlqzb1H5OHthQVSmrB4NZA==", "minamo"), None);
}

#[test]
fn try_decrypt_reports_non_utf8() {
    assert_eq!(try_aes_decrypt("7dn2mo1YLyDG3lubXcbjGQ==", "minamo"), None);
}

#[test]
fn try_decrypt_passes_errors_on() {
    assert_eq!(try_aes_decrypt("not base64!", "minamo"), Some(Err(CipherError::InvalidLength)));
    assert_eq!(
        try_aes_decrypt("DlGjRwDMqvkX/oZEL5BgZQ==", "minamo"),
        Some(Err(CipherError::InvalidPadding))
    );
}

#[test]
fn equal_inputs_seal_equally() {
    assert_eq!(aes_encrypt("same text", "minamo"), aes_encrypt("same text", "minamo"));
    assert_ne!(aes_encrypt("same text", "minamo"), aes_encrypt("same text", "other"));
}
