use i_wzu_auth::crypto::{custom_base64_encode, hmac_md5, l, s, sha1, xxtea_encode};

#[test]
fn test_hmac_md5() {
    let key = "token";
    let message = "password";
    let res = hmac_md5(key, message);
    assert_eq!(res.len(), 32);
}

#[test]
fn test_sha1() {
    let data = "test";
    let res = sha1(data);
    assert_eq!(res, "a94a8fe5ccb19ba61c4c0873d391e987982fbbd3");
}

#[test]
fn test_xxtea_and_base64_logic() {
    let info = r#"{"username":"test"}"#;
    let token = "1234567890";
    let encrypted = xxtea_encode(info, token);
    let encoded = custom_base64_encode(&encrypted);
    assert!(!encoded.is_empty());
}

#[test]
fn hmac_md5_known_values() {
    assert_eq!(hmac_md5("token", "password"), "fd07c716fa2b6a86413916082c8bfdc3");
    assert_eq!(
        hmac_md5("Jefe", "what do ya want for nothing?"),
        "750c783e6ab0b503eaa86e310a5db738"
    );
}

#[test]
fn sha1_known_value_and_length() {
    assert_eq!(sha1("abc"), "a9993e364706816aba3e25717850c26c9cd0d89d");
    assert_eq!(sha1("").len(), 40);
}

#[test]
fn pack_words_with_and_without_length() {
    assert_eq!(s(b"abcde", true), vec![0x6463_6261, 0x65, 5]);
    assert_eq!(s(b"abcd", false), vec![0x6463_6261]);
    assert_eq!(s(b"", true), vec![0]);
    assert_eq!(s(b"", false), Vec::<u32>::new());
}

#[test]
fn unpack_words_roundtrip_and_padding() {
    let data = b"hello world";
    assert_eq!(l(&s(data, true), true), data.to_vec());
    assert_eq!(l(&s(data, false), false), b"hello world\0".to_vec());
    assert_eq!(s(&l(&[1, 0xdead_beef], false), false), vec![1, 0xdead_beef]);
}

#[test]
fn unpack_words_rejects_overlong_length() {
    assert_eq!(l(&[0x6463_6261, 9], true), Vec::<u8>::new());
    assert_eq!(l(&[0x6463_6261, 8], true), vec![0x61, 0x62, 0x63, 0x64, 8, 0, 0, 0]);
}

#[test]
fn xxtea_known_ciphertexts() {
    assert_eq!(
        xxtea_encode(r#"{"username":"test"}"#, "1234567890"),
        vec![
            3, 88, 186, 192, 146, 85, 165, 55, 243, 58, 136, 46, 214, 64, 205, 70, 201, 71, 160,
            177, 105, 189, 203, 204
        ]
    );
    assert_eq!(xxtea_encode("a", ""), vec![142, 38, 29, 151, 173, 216, 244, 86]);
    assert_eq!(
        xxtea_encode("中文", "k"),
        vec![73, 174, 248, 120, 193, 200, 24, 176, 48, 135, 32, 251]
    );
}

#[test]
fn xxtea_empty_plaintext_gives_nothing() {
    assert!(xxtea_encode("", "key").is_empty());
}

#[test]
fn xxtea_length_is_words_plus_length_word() {
    assert_eq!(xxtea_encode("hello world", "key").len(), 16);
    assert_eq!(xxtea_encode("abcd", "key").len(), 8);
}

#[test]
fn custom_base64_known_values() {
    assert_eq!(custom_base64_encode(&[0, 0, 0]), "LLLL");
    assert_eq!(custom_base64_encode(&[0xff]), "Av==");
    assert_eq!(custom_base64_encode(b"ab"), "Za2=");
    assert_eq!(custom_base64_encode(b""), "");
    let c = xxtea_encode("hello world", "key");
    assert_eq!(custom_base64_encode(&c), "zEyNaeSKU/hvmxcVoS8xmS==");
    let c = xxtea_encode(r#"{"username":"test"}"#, "1234567890");
    assert_eq!(custom_base64_encode(&c), "LjXBvRRu3Fszy/SKjYJ0hbpN/Gi3wMw9");
}

#[test]
fn custom_base64_length_law() {
    for n in 0..10usize {
        let data = vec![0x5au8; n];
        assert_eq!(custom_base64_encode(&data).len(), 4 * ((n + 2) / 3));
    }
}

#[test]
fn xxtea_reads_only_first_sixteen_key_bytes() {
    assert_eq!(xxtea_encode("hello", "abc"), xxtea_encode("hello", "abc\0"));
    assert_eq!(xxtea_encode("hello", ""), xxtea_encode("hello", "\0\0\0\0"));
    assert_eq!(
        xxtea_encode("hello", "0123456789abcdefXYZ"),
        xxtea_encode("hello", "0123456789abcdef")
    );
    assert_ne!(xxtea_encode("hello", "0123456789abcdeX"), xxtea_encode("hello", "0123456789abcdef"));
}
