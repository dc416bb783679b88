use i_wzu_auth::api::{AuthResponse, ChallengeResponse, PortalRequest, SrunClient, UserInfo};

fn pairs(r: &PortalRequest) -> Vec<(&str, &str)> {
    r.query.iter().map(|(k, v)| (k.as_str(), v.as_str())).collect()
}

fn info(online: Option<&str>, client: Option<&str>) -> UserInfo {
    UserInfo {
        online_ip: online.map(|s| s.to_string()),
        client_ip: client.map(|s| s.to_string()),
        nas_ip: None,
        user_name: None,
        domain: None,
        error: None,
    }
}

fn client() -> SrunClient {
    SrunClient::new("http://192.168.16.66//", "2021001", "secret", "2", false, None, None)
}

#[test]
fn new_strips_trailing_slashes_and_keeps_settings() {
    let c = SrunClient::new("http://gw/", "u", "p", "5", true, Some("eth0"), None);
    assert_eq!(c.base_url, "http://gw");
    assert_eq!(c.username, "u");
    assert_eq!(c.password, "p");
    assert_eq!(c.ac_id, "5");
    assert!(c.double_stack);
    assert_eq!(c.interface.as_deref(), Some("eth0"));
    assert_eq!(c.target_ip, None);
    assert_eq!(client().base_url, "http://192.168.16.66");
    assert_eq!(SrunClient::new("/", "", "", "", false, None, None).base_url, "");
}

#[test]
fn online_only_on_204() {
    assert!(SrunClient::online_status(204));
    assert!(!SrunClient::online_status(200));
    assert!(!SrunClient::online_status(302));
}

#[test]
fn jsonp_payload_unwraps_callback() {
    assert_eq!(SrunClient::jsonp_payload(r#"jQuery123({"res":"ok"})"#), r#"{"res":"ok"}"#);
    assert_eq!(SrunClient::jsonp_payload("cb(a(b)c)"), "a(b)c");
    assert_eq!(SrunClient::jsonp_payload("  {\"x\":1}\n"), "{\"x\":1}");
    // No name before the parenthesis, or a line feed inside: not a JSONP wrapper.
    assert_eq!(SrunClient::jsonp_payload(" (1) "), "(1)");
    assert_eq!(SrunClient::jsonp_payload("cb(1\n2)"), "cb(1\n2)");
    assert_eq!(SrunClient::jsonp_payload("cb()"), "");
}

#[test]
fn info_request_adds_ip_only_when_given() {
    let c = client();
    let r = c.info_request("");
    assert_eq!(r.url, "http://192.168.16.66/cgi-bin/rad_user_info");
    assert_eq!(pairs(&r), vec![("callback", "jQuery123")]);
    let r = c.info_request("10.1.2.3");
    assert_eq!(pairs(&r), vec![("callback", "jQuery123"), ("ip", "10.1.2.3")]);
}

#[test]
fn challenge_request_query() {
    let r = client().challenge_request("10.0.0.5");
    assert_eq!(r.url, "http://192.168.16.66/cgi-bin/get_challenge");
    assert_eq!(
        pairs(&r),
        vec![("username", "2021001"), ("ip", "10.0.0.5"), ("callback", "jQuery123")]
    );
}

#[test]
fn session_ip_prefers_online_then_client_then_zero() {
    assert_eq!(client().session_ip(&info(Some("1.1.1.1"), Some("2.2.2.2"))), "1.1.1.1");
    assert_eq!(client().session_ip(&info(None, Some("2.2.2.2"))), "2.2.2.2");
    assert_eq!(client().session_ip(&info(None, None)), "0.0.0.0");
}

#[test]
fn final_ip_prefers_challenge_address() {
    let ch = ChallengeResponse { challenge: "t".to_string(), client_ip: "9.9.9.9".to_string() };
    assert_eq!(client().final_ip(&ch, "1.1.1.1"), "9.9.9.9");
    let ch = ChallengeResponse { challenge: "t".to_string(), client_ip: String::new() };
    assert_eq!(client().final_ip(&ch, "1.1.1.1"), "1.1.1.1");
}

#[test]
fn login_info_json_text() {
    assert_eq!(
        client().login_info_json("10.0.0.5"),
        r#"{"username":"2021001","password":"secret","ip":"10.0.0.5","acid":"2","enc_ver":"srun_bx1"}"#
    );
}

#[test]
fn login_request_full_query() {
    let mut i = info(Some("10.0.0.5"), None);
    i.nas_ip = Some("172.16.0.1".to_string());
    let ch = ChallengeResponse { challenge: "abc123".to_string(), client_ip: String::new() };
    let r = client().login_request(&i, &ch, "Linux");
    assert_eq!(r.url, "http://192.168.16.66/cgi-bin/srun_portal");
    let info_param = "{SRBX1}Qo5RkDhv5NG2vL/z8LPMcoc+yGKwRnjrRNRfN4nrmpWEgxlv+CQai6ezzDm17bc4a/UBQgW0NqhN4NB8Zn/c93V9RiV46+BprEH0BDqe1tTKi9uCg91NOuSbT4F3HfcU";
    assert_eq!(
        pairs(&r),
        vec![
            ("action", "login"),
            ("username", "2021001"),
            ("password", "{MD5}3e3254223c487f2376871b226cc26bdf"),
            ("ac_id", "2"),
            ("ip", "10.0.0.5"),
            ("info", info_param),
            ("chksum", "44374894b19f14f8622e2578cbf5048256c23c3d"),
            ("n", "200"),
            ("type", "1"),
            ("os", "Linux"),
            ("name", "Linux"),
            ("double_stack", "0"),
            ("nas_ip", "172.16.0.1"),
            ("callback", "jQuery123"),
        ]
    );
}

#[test]
fn login_request_double_stack_and_missing_nas() {
    let ch = ChallengeResponse { challenge: "abc123".to_string(), client_ip: "10.0.0.5".to_string() };
    let mut c = client();
    c.double_stack = true;
    let r = c.login_request(&info(None, None), &ch, "Windows 10");
    let p = pairs(&r);
    assert_eq!(p[4], ("ip", "10.0.0.5"));
    assert_eq!(p[11], ("double_stack", "1"));
    assert_eq!(p[12], ("nas_ip", ""));
}

#[test]
fn logout_requests_sign_and_domain() {
    let mut i = info(Some("10.0.0.5"), None);
    i.user_name = Some("2021001".to_string());
    i.domain = Some("wzu".to_string());
    let c = SrunClient::new("http://gw", "", "", "2", false, None, None);
    let (dm, out) = c.logout_requests(&i, "1700000000");
    assert_eq!(dm.url, "http://gw/cgi-bin/rad_user_dm");
    assert_eq!(
        pairs(&dm),
        vec![
            ("username", "2021001"),
            ("ip", "10.0.0.5"),
            ("unbind", "1"),
            ("time", "1700000000"),
            ("sign", "40c406232132c019e445900d535559d5600454b1"),
            ("callback", "jQuery123"),
        ]
    );
    assert_eq!(out.url, "http://gw/cgi-bin/srun_portal");
    assert_eq!(
        pairs(&out),
        vec![
            ("action", "logout"),
            ("username", "2021001@wzu"),
            ("ip", "10.0.0.5"),
            ("ac_id", "2"),
            ("double_stack", "0"),
            ("callback", "jQuery123"),
        ]
    );
}

#[test]
fn logout_falls_back_to_own_user_without_domain() {
    let c = SrunClient::new("http://gw", "me", "", "2", false, None, None);
    let (dm, out) = c.logout_requests(&info(None, Some("3.3.3.3")), "0");
    assert_eq!(pairs(&dm)[0], ("username", "me"));
    assert_eq!(pairs(&dm)[1], ("ip", "3.3.3.3"));
    assert_eq!(pairs(&out)[1], ("username", "me"));
}

fn auth(res: &str, error: Option<&str>, msg: Option<&str>) -> AuthResponse {
    AuthResponse {
        res: res.to_string(),
        error: error.map(|s| s.to_string()),
        error_msg: msg.map(|s| s.to_string()),
    }
}

#[test]
fn auth_response_rules() {
    assert!(auth("ok", None, None).is_ok());
    assert!(!auth("login_error", None, None).is_ok());
    assert_eq!(auth("x", None, None).error_code(), "N/A");
    assert_eq!(auth("x", None, None).error_message(), "未知错误");
    assert_eq!(auth("x", Some("E2553"), Some("bad")).error_code(), "E2553");
    assert!(auth("no_response_data_error", None, None).is_no_response_error());
    assert!(auth("x", Some("no_response_data_error"), None).is_no_response_error());
    assert!(auth("x", None, Some("got no_response_data_error here")).is_no_response_error());
    assert!(!auth("x", Some("E1"), Some("Password is error.")).is_no_response_error());
}

#[test]
fn not_online_rule() {
    let mut i = info(None, None);
    assert!(!i.is_not_online());
    i.error = Some("not_online_error".to_string());
    assert!(i.is_not_online());
    i.error = Some("ok".to_string());
    assert!(!i.is_not_online());
}

fn targeted() -> SrunClient {
    SrunClient::new("http://gw", "2021001", "secret", "2", false, None, Some("192.168.1.100"))
}

#[test]
fn target_address_is_asked_about_and_used() {
    let c = targeted();
    assert_eq!(c.target_ip.as_deref(), Some("192.168.1.100"));
    assert_eq!(
        pairs(&c.session_info_request()),
        vec![("callback", "jQuery123"), ("ip", "192.168.1.100")]
    );
    assert_eq!(pairs(&client().session_info_request()), vec![("callback", "jQuery123")]);
    let i = info(Some("10.0.0.5"), Some("10.0.0.6"));
    assert_eq!(c.session_ip(&i), "192.168.1.100");
    let ch = ChallengeResponse { challenge: "abc123".to_string(), client_ip: "10.0.0.5".to_string() };
    assert_eq!(c.final_ip(&ch, "10.0.0.5"), "192.168.1.100");
}

#[test]
fn target_login_and_logout_requests_carry_target() {
    let c = targeted();
    let i = info(Some("10.0.0.5"), None);
    let ch = ChallengeResponse { challenge: "abc123".to_string(), client_ip: "10.0.0.5".to_string() };
    let ip = c.session_ip(&i);
    assert_eq!(pairs(&c.challenge_request(&ip))[1], ("ip", "192.168.1.100"));
    let r = c.login_request(&i, &ch, "Linux");
    assert_eq!(pairs(&r)[4], ("ip", "192.168.1.100"));
    let (dm, out) = c.logout_requests(&i, "1");
    assert_eq!(pairs(&dm)[1], ("ip", "192.168.1.100"));
    assert_eq!(pairs(&out)[2], ("ip", "192.168.1.100"));
}

#[test]
fn login_queries_differ_only_in_password_fields() {
    let i = info(Some("10.0.0.5"), None);
    let ch = ChallengeResponse { challenge: "abc123".to_string(), client_ip: String::new() };
    let c1 = SrunClient::new("http://gw", "u", "p1", "2", false, None, None);
    let c2 = SrunClient::new("http://gw", "u", "p2", "2", false, None, None);
    let (q1, q2) = (c1.login_request(&i, &ch, "Linux"), c2.login_request(&i, &ch, "Linux"));
    let (p1, p2) = (pairs(&q1), pairs(&q2));
    for k in 0..p1.len() {
        assert_eq!(p1[k].0, p2[k].0);
        if k == 2 || k == 5 || k == 6 {
            assert_ne!(p1[k].1, p2[k].1);
        } else {
            assert_eq!(p1[k], p2[k]);
        }
    }
}
