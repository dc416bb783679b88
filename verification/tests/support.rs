use i_wzu_auth::config::{password_source, username_source, CredentialSource, StoredConfig};
use i_wzu_auth::status::{format_duration, ipv6_assigned};
use i_wzu_auth::text::{str_contains, str_eq, trim, trim_end_char};

#[test]
fn credentials_must_both_be_present() {
    let ok = StoredConfig { username: "test_user".to_string(), password: "test_password".to_string() };
    assert_eq!(
        ok.into_credentials(),
        Ok(("test_user".to_string(), "test_password".to_string()))
    );
    let empty = StoredConfig { username: String::new(), password: "p".to_string() };
    assert_eq!(empty.into_credentials(), Err("配置文件中用户名或密码为空".to_string()));
    let empty = StoredConfig { username: "u".to_string(), password: String::new() };
    assert!(empty.into_credentials().is_err());
}

#[test]
fn duration_text_with_and_without_days() {
    assert_eq!(format_duration(0), "0小时 0分 0秒");
    assert_eq!(format_duration(3661), "1小时 1分 1秒");
    assert_eq!(format_duration(90061), "1天 1小时 1分 1秒");
    assert_eq!(format_duration(86399), "23小时 59分 59秒");
    assert_eq!(format_duration(u64::MAX), "213503982334601天 7小时 0分 15秒");
}

#[test]
fn ipv6_shown_only_when_assigned() {
    assert!(!ipv6_assigned("::"));
    assert!(!ipv6_assigned(""));
    assert!(ipv6_assigned("2001:db8::1"));
}

#[test]
fn trimming_like_std() {
    for s in ["  a b  ", "\t\n x\u{3000}", "", "   ", "abc", "\u{85}z\u{a0}"] {
        assert_eq!(trim(s), s.trim());
    }
    for s in ["http://gw///", "/", "a/b", ""] {
        assert_eq!(trim_end_char(s, '/'), s.trim_end_matches('/'));
    }
}

#[test]
fn substring_and_equality_like_std() {
    for (h, n) in [("abcabd", "abd"), ("abc", ""), ("", "a"), ("aaa", "aaaa"), ("中文字", "文")] {
        assert_eq!(str_contains(h, n), h.contains(n));
    }
    assert!(str_eq("ok", "ok"));
    assert!(!str_eq("ok", "o"));
}

#[test]
fn credential_sources_in_order() {
    assert_eq!(username_source(true, true), CredentialSource::Argument);
    assert_eq!(username_source(false, true), CredentialSource::ConfigFile);
    assert_eq!(username_source(false, false), CredentialSource::Missing);
    assert_eq!(password_source(true, true, true), CredentialSource::Stdin);
    assert_eq!(password_source(false, true, true), CredentialSource::Argument);
    assert_eq!(password_source(false, false, true), CredentialSource::ConfigFile);
    assert_eq!(password_source(false, false, false), CredentialSource::Missing);
}
