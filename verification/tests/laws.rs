use i_wzu_auth::api::{ChallengeResponse, SrunClient, UserInfo};
use i_wzu_auth::crypto::{custom_base64_encode, l, s, xxtea_encode};
use i_wzu_auth::status::format_duration;

const ALPHABET: &str = "LVoJPiCN2R8G90yg+hmFHuacZ1OWMnrsSTXkYpUq/3dlbfKwv6xztjI7DeBE45QA";

fn base64_decode(text: &str) -> Vec<u8> {
    let value = |c: char| ALPHABET.find(c).map(|i| i as u8).unwrap_or(64);
    let cs: Vec<char> = text.chars().collect();
    let mut out = Vec::new();
    for g in cs.chunks(4) {
        let v: Vec<u8> = g.iter().map(|&c| value(c)).collect();
        out.push((v[0] << 2) | (v[1] >> 4));
        if g[2] != '=' {
            out.push((v[1] << 4) | (v[2] >> 2));
            if g[3] != '=' {
                out.push((v[2] << 6) | v[3]);
            }
        }
    }
    out
}

fn mix(z: u32, y: u32, d: u32, kw: u32) -> u32 {
    ((z >> 5) ^ (y << 2))
        .wrapping_add(((y >> 3) ^ (z << 4)) ^ (d ^ y))
        .wrapping_add(kw ^ z)
}

fn xxtea_decrypt(cipher: &[u8], key: &str) -> Vec<u8> {
    let mut v = s(cipher, false);
    let mut k = s(key.as_bytes(), false);
    k.resize(4, 0);
    let nn = v.len();
    let q = 6 + 52 / nn as u32;
    let mut d = q.wrapping_mul(0x9e37_79b9);
    for _ in 0..q {
        let e = (d >> 2) & 3;
        for p in (0..nn).rev() {
            let z = if p == 0 { v[nn - 1] } else { v[p - 1] };
            let y = if p + 1 == nn { v[0] } else { v[p + 1] };
            v[p] = v[p].wrapping_sub(mix(z, y, d, k[((p as u32) & 3 ^ e) as usize]));
        }
        d = d.wrapping_sub(0x9e37_79b9);
    }
    l(&v, true)
}

#[test]
fn base64_decodes_back() {
    for n in 0..12usize {
        let data: Vec<u8> = (0..n).map(|i| (i as u8).wrapping_mul(97).wrapping_add(13)).collect();
        assert_eq!(base64_decode(&custom_base64_encode(&data)), data);
    }
}

#[test]
fn base64_uses_only_alphabet_and_padding() {
    let out = custom_base64_encode(&[1, 2, 3, 250, 251]);
    assert!(out.chars().all(|c| c == '=' || ALPHABET.contains(c)));
}

#[test]
fn xxtea_decrypts_back() {
    for (data, key) in [("a", ""), ("hello world", "key"), ("中文", "k"), ("{\"x\":1}", "a very long key indeed")] {
        assert_eq!(xxtea_decrypt(&xxtea_encode(data, key), key), data.as_bytes().to_vec());
    }
}

#[test]
fn xxtea_distinct_plaintexts_distinct_ciphertexts() {
    assert_ne!(xxtea_encode("abc", "k"), xxtea_encode("abd", "k"));
    assert_ne!(xxtea_encode("abc", "k"), xxtea_encode("abc\0", "k"));
}

#[test]
fn info_parameter_is_recoverable() {
    let client = SrunClient::new("http://gw", "2021001", "secret", "2", false, None, None);
    let info = UserInfo {
        online_ip: Some("10.0.0.5".to_string()),
        client_ip: None,
        nas_ip: None,
        user_name: None,
        domain: None,
        error: None,
    };
    let ch = ChallengeResponse { challenge: "abc123".to_string(), client_ip: String::new() };
    let r = client.login_request(&info, &ch, "Linux");
    let param = &r.query[5].1;
    assert!(param.starts_with("{SRBX1}"));
    let plain = xxtea_decrypt(&base64_decode(&param[7..]), "abc123");
    assert_eq!(plain, client.login_info_json("10.0.0.5").into_bytes());
}

#[test]
fn jsonp_unwraps_what_it_wraps() {
    for (name, body) in [("jQuery123", "{\"a\":[1,2]}"), ("f", ""), ("cb", "(x))")] {
        assert_eq!(SrunClient::jsonp_payload(&format!("{}({})", name, body)), body);
    }
}

#[test]
fn duration_parts_add_up() {
    assert_eq!(format_duration(93784), "1天 2小时 3分 4秒");
    assert_eq!(1 * 86400 + 2 * 3600 + 3 * 60 + 4, 93784);
}
