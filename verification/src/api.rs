//! The portal's requests and replies, and the rules that build each request from the
//! client's settings and the portal's earlier replies. Sending them is left to the caller.
use vstd::prelude::*;
use vstd::utf8::encode_utf8;
use crate::crypto::base64::{
    custom_base64, custom_base64_decode, custom_base64_encode, lemma_custom_base64_len,
    lemma_custom_base64_roundtrip,
};
use crate::crypto::digest::{hex_lower, hmac_md5, hmac_md5_tag, sha1, sha1_digest};
use crate::crypto::xxtea::{
    lemma_decrypt_encrypt, lemma_xxtea_encrypt_len, xxtea_decrypt, xxtea_encode, xxtea_encrypt, XXTEA_MAX_PLAINTEXT_LEN,
};
use crate::text::{
    chars_of, contains_seq, str_contains, str_eq, strip_trailing, trim_chars, trim_end_char,
    trim_spec,
};

verus! {

/// The reply to a challenge request: the token for this login and the address the
/// portal sees for the client.
pub struct ChallengeResponse {
    pub challenge: String,
    pub client_ip: String,
}

/// The reply to a login or logout request.
pub struct AuthResponse {
    pub res: String,
    pub error: Option<String>,
    pub error_msg: Option<String>,
}

/// The fields of the portal's user-info reply that the client reads; each is present
/// only where the reply holds a string there.
pub struct UserInfo {
    pub online_ip: Option<String>,
    pub client_ip: Option<String>,
    pub nas_ip: Option<String>,
    pub user_name: Option<String>,
    pub domain: Option<String>,
    pub error: Option<String>,
}

/// A GET request to the portal: the URL and its query parameters, in order.
pub struct PortalRequest {
    pub url: String,
    pub query: Vec<(String, String)>,
}

impl View for PortalRequest {
    type V = (Seq<char>, Seq<(Seq<char>, Seq<char>)>);

    open spec fn view(&self) -> (Seq<char>, Seq<(Seq<char>, Seq<char>)>) {
        (self.url@, self.query.deep_view())
    }
}

/// The client's settings.
pub struct SrunClient {
    pub base_url: String,
    pub username: String,
    pub password: String,
    pub ac_id: String,
    pub double_stack: bool,
    /// The network interface that requests are bound to, if any.
    pub interface: Option<String>,
    /// The address to log in, log out or ask about in place of the caller's own, if any.
    pub target_ip: Option<String>,
}

/// `o`'s string, or `d` where there is none.
pub open spec fn or_default(o: Option<Seq<char>>, d: Seq<char>) -> Seq<char> {
    match o {
        Some(s) => s,
        None => d,
    }
}

/// `a` where present, else `b`.
pub open spec fn first_present(a: Option<Seq<char>>, b: Option<Seq<char>>) -> Option<Seq<char>> {
    match a {
        Some(s) => Some(s),
        None => b,
    }
}

fn opt_or<'a>(o: &'a Option<String>, d: &'a str) -> (res: &'a str)
    ensures
        res@ == or_default(o.deep_view(), d@),
{
    match o {
        Some(s) => s.as_str(),
        None => d,
    }
}

fn param(key: &str, value: &str) -> (p: (String, String))
    ensures
        p.deep_view() == (key@, value@),
{
    (String::from_str(key), String::from_str(value))
}

fn join(a: &str, b: &str) -> (res: String)
    ensures
        res@ == a@ + b@,
{
    let mut r = String::from_str(a);
    r.append(b);
    r
}

/// The text inside a JSONP reply `name(...)`: a non-empty name free of `(`, the first
/// `(` at `p`, a final `)`, and no line feed between them.
pub open spec fn jsonp_open_at(t: Seq<char>, p: int) -> bool {
    &&& 1 <= p
    &&& p + 2 <= t.len()
    &&& t[p] == '('
    &&& forall|i: int| 0 <= i < p ==> t[i] != '('
    &&& t[t.len() - 1] == ')'
    &&& forall|i: int| p < i < t.len() - 1 ==> t[i] != '\n'
}

/// The JSON text of a portal reply: what a JSONP wrapper encloses, or else the whole
/// reply with surrounding white space removed.
pub open spec fn jsonp_payload_spec(t: Seq<char>) -> Seq<char> {
    if exists|p: int| jsonp_open_at(t, p) {
        let p = choose|p: int| jsonp_open_at(t, p);
        t.subrange(p + 1, t.len() - 1)
    } else {
        trim_spec(t)
    }
}

/// The query of a user-info request: the callback, then the address asked about, if any.
pub open spec fn info_query(ip: Seq<char>) -> Seq<(Seq<char>, Seq<char>)> {
    if ip.len() == 0 {
        seq![("callback"@, "jQuery123"@)]
    } else {
        seq![("callback"@, "jQuery123"@), ("ip"@, ip)]
    }
}

/// The query of a challenge request.
pub open spec fn challenge_query(username: Seq<char>, ip: Seq<char>) -> Seq<(Seq<char>, Seq<char>)> {
    seq![("username"@, username), ("ip"@, ip), ("callback"@, "jQuery123"@)]
}

/// The address a session is for: the target address where the client has one; else the
/// user-info reply's online address, else its client address, else `0.0.0.0`.
pub open spec fn session_ip(target: Option<Seq<char>>, info: UserInfo) -> Seq<char> {
    match target {
        Some(t) => t,
        None => or_default(
            first_present(info.online_ip.deep_view(), info.client_ip.deep_view()),
            "0.0.0.0"@,
        ),
    }
}

/// The address a login is for: the target address where the client has one; else the
/// one in the challenge reply where it is not empty, else `ip`.
pub open spec fn final_ip(target: Option<Seq<char>>, challenge_ip: Seq<char>, ip: Seq<char>) -> Seq<char> {
    match target {
        Some(t) => t,
        None => if challenge_ip.len() > 0 {
            challenge_ip
        } else {
            ip
        },
    }
}

/// The address that the user-info request asks about: the target address, or none (the
/// caller's own) where the client has no target.
pub open spec fn info_target(target: Option<Seq<char>>) -> Seq<char> {
    or_default(target, Seq::empty())
}

/// The login information that is encrypted into the `info` parameter.
pub open spec fn login_info_json(
    username: Seq<char>,
    password: Seq<char>,
    ip: Seq<char>,
    ac_id: Seq<char>,
) -> Seq<char> {
    "{\"username\":\""@ + username + "\",\"password\":\""@ + password + "\",\"ip\":\""@ + ip
        + "\",\"acid\":\""@ + ac_id + "\",\"enc_ver\":\"srun_bx1\"}"@
}

/// The HMAC-MD5 of the password under the challenge token, in hex.
pub open spec fn password_digest(token: Seq<char>, password: Seq<char>) -> Seq<char> {
    hex_lower(hmac_md5_tag(encode_utf8(token), encode_utf8(password)))
}

/// The `info` parameter: the login information encrypted under the token, in the
/// portal's Base64, after the `{SRBX1}` marker.
pub open spec fn info_param(json: Seq<char>, token: Seq<char>) -> Seq<char> {
    "{SRBX1}"@ + custom_base64(xxtea_encrypt(encode_utf8(json), encode_utf8(token)))
}

/// The text whose SHA-1 is the login checksum: the token before each of the user name,
/// password digest, AC id, address, `n`, `type` and `info` values, in that order.
pub open spec fn checksum_input(
    token: Seq<char>,
    username: Seq<char>,
    hmd5: Seq<char>,
    ac_id: Seq<char>,
    ip: Seq<char>,
    info: Seq<char>,
) -> Seq<char> {
    token + username + token + hmd5 + token + ac_id + token + ip + token + "200"@ + token + "1"@
        + token + info
}

/// The SHA-1 of `text`, in hex.
pub open spec fn sha1_hex(text: Seq<char>) -> Seq<char> {
    hex_lower(sha1_digest(encode_utf8(text)))
}

/// The login query for the given settings, token, address, NAS address and OS name.
pub open spec fn login_query(
    username: Seq<char>,
    password: Seq<char>,
    ac_id: Seq<char>,
    double_stack: bool,
    token: Seq<char>,
    ip: Seq<char>,
    nas_ip: Seq<char>,
    os_name: Seq<char>,
) -> Seq<(Seq<char>, Seq<char>)> {
    let hmd5 = password_digest(token, password);
    let info = info_param(login_info_json(username, password, ip, ac_id), token);
    let chksum = sha1_hex(checksum_input(token, username, hmd5, ac_id, ip, info));
    seq![
        ("action"@, "login"@),
        ("username"@, username),
        ("password"@, "{MD5}"@ + hmd5),
        ("ac_id"@, ac_id),
        ("ip"@, ip),
        ("info"@, info),
        ("chksum"@, chksum),
        ("n"@, "200"@),
        ("type"@, "1"@),
        ("os"@, os_name),
        ("name"@, os_name),
        ("double_stack"@, if double_stack { "1"@ } else { "0"@ }),
        ("nas_ip"@, nas_ip),
        ("callback"@, "jQuery123"@),
    ]
}

/// The user name that a logout is for: the user-info reply's, else the client's own.
pub open spec fn logout_user(info: UserInfo, username: Seq<char>) -> Seq<char> {
    or_default(info.user_name.deep_view(), username)
}

/// The user name with the reply's domain after an `@`, where the domain is not empty.
pub open spec fn user_with_domain(user: Seq<char>, domain: Seq<char>) -> Seq<char> {
    if domain.len() > 0 {
        user + "@"@ + domain
    } else {
        user
    }
}

/// The query that unbinds the session (`rad_user_dm`), signed with the SHA-1 of the time,
/// user, address, unbind flag and time again.
pub open spec fn unbind_query(user: Seq<char>, ip: Seq<char>, time: Seq<char>) -> Seq<(Seq<char>, Seq<char>)> {
    seq![
        ("username"@, user),
        ("ip"@, ip),
        ("unbind"@, "1"@),
        ("time"@, time),
        ("sign"@, sha1_hex(time + user + ip + "1"@ + time)),
        ("callback"@, "jQuery123"@),
    ]
}

/// The query of the ordinary logout that follows the unbinding.
pub open spec fn logout_query(user: Seq<char>, ip: Seq<char>, ac_id: Seq<char>) -> Seq<(Seq<char>, Seq<char>)> {
    seq![
        ("action"@, "logout"@),
        ("username"@, user),
        ("ip"@, ip),
        ("ac_id"@, ac_id),
        ("double_stack"@, "0"@),
        ("callback"@, "jQuery123"@),
    ]
}

/// The portal can read the login information back from the `info` parameter: dropping
/// the `{SRBX1}` marker, decoding the Base64 and decrypting under the token give the
/// bytes of the JSON text, whenever that text is not empty and its length fits in the
/// length word.
pub proof fn lemma_info_param_recoverable(json: Seq<char>, token: Seq<char>)
    requires
        0 < encode_utf8(json).len() <= u32::MAX,
    ensures
        xxtea_decrypt(custom_base64_decode(info_param(json, token).skip(7)), encode_utf8(token))
            == encode_utf8(json),
{
    reveal_strlit("{SRBX1}");
    let c = xxtea_encrypt(encode_utf8(json), encode_utf8(token));
    assert(info_param(json, token).skip(7) =~= custom_base64(c));
    lemma_custom_base64_roundtrip(c);
    lemma_decrypt_encrypt(encode_utf8(json), encode_utf8(token));
}

/// Encrypting and encoding a non-empty text never gives an empty parameter: it becomes at
/// least twelve characters.
pub proof fn lemma_encoded_ciphertext_nonempty(data: Seq<u8>, key: Seq<u8>)
    requires
        data.len() > 0,
    ensures
        custom_base64(xxtea_encrypt(data, key)).len() >= 12,
{
    lemma_xxtea_encrypt_len(data, key);
    lemma_custom_base64_len(xxtea_encrypt(data, key));
}

/// With a target address, a login and a logout are for that address: it is what the
/// user-info request asks about, the address of the challenge and unbind requests, and
/// the address of the login and logout requests, whatever the portal's replies say.
pub proof fn lemma_target_address(t: Seq<char>, info: UserInfo, challenge_ip: Seq<char>)
    ensures
        info_target(Some(t)) == t,
        session_ip(Some(t), info) == t,
        final_ip(Some(t), challenge_ip, session_ip(Some(t), info)) == t,
{
}

/// Two logins that differ only in the password send the same login query except for the
/// `password`, `info` and `chksum` values (the challenge and user-info requests do not
/// involve the password at all).
pub proof fn lemma_login_query_password_only(
    username: Seq<char>,
    p1: Seq<char>,
    p2: Seq<char>,
    ac_id: Seq<char>,
    double_stack: bool,
    token: Seq<char>,
    ip: Seq<char>,
    nas_ip: Seq<char>,
    os_name: Seq<char>,
)
    ensures
        ({
            let q1 = login_query(username, p1, ac_id, double_stack, token, ip, nas_ip, os_name);
            let q2 = login_query(username, p2, ac_id, double_stack, token, ip, nas_ip, os_name);
            &&& q1.len() == q2.len()
            &&& forall|i: int| 0 <= i < q1.len() && i != 2 && i != 5 && i != 6 ==> q1[i] == q2[i]
            &&& forall|i: int| 0 <= i < q1.len() ==> q1[i].0 == q2[i].0
        }),
{
}

/// The login query's `password` value is `{MD5}` and the hex HMAC-MD5 of the password
/// keyed with the whole challenge token; its `info` value is `{SRBX1}` and the portal's
/// Base64 of the login JSON encrypted under the whole token; its `chksum` value is the hex
/// SHA-1 of the token before each of the user name, that same password digest, the AC id,
/// the address, `200`, `1` and that same `info` value.
pub proof fn lemma_login_password_and_checksum(
    username: Seq<char>,
    password: Seq<char>,
    ac_id: Seq<char>,
    double_stack: bool,
    token: Seq<char>,
    ip: Seq<char>,
    nas_ip: Seq<char>,
    os_name: Seq<char>,
)
    ensures
        ({
            let q = login_query(username, password, ac_id, double_stack, token, ip, nas_ip, os_name);
            let h = hex_lower(hmac_md5_tag(encode_utf8(token), encode_utf8(password)));
            let json = "{\"username\":\""@ + username + "\",\"password\":\""@ + password
                + "\",\"ip\":\""@ + ip + "\",\"acid\":\""@ + ac_id
                + "\",\"enc_ver\":\"srun_bx1\"}"@;
            let info = "{SRBX1}"@ + custom_base64(xxtea_encrypt(encode_utf8(json), encode_utf8(token)));
            &&& q.len() == 14
            &&& q[2] == ("password"@, "{MD5}"@ + h)
            &&& q[4] == ("ip"@, ip)
            &&& q[5] == ("info"@, info)
            &&& q[6] == (
                "chksum"@,
                hex_lower(
                    sha1_digest(
                        encode_utf8(
                            token + username + token + h + token + ac_id + token + ip + token
                                + "200"@ + token + "1"@ + token + info,
                        ),
                    ),
                ),
            )
        }),
{
}

/// Unwrapping a JSONP reply `name(body)` gives `body` back, whenever the callback name is
/// not empty and holds no `(`, and the body holds no line feed.
pub proof fn lemma_jsonp_unwrap(name: Seq<char>, body: Seq<char>)
    requires
        name.len() > 0,
        forall|i: int| 0 <= i < name.len() ==> name[i] != '(',
        forall|i: int| 0 <= i < body.len() ==> body[i] != '\n',
    ensures
        jsonp_payload_spec(name + seq!['('] + body + seq![')']) == body,
{
    let t = name + seq!['('] + body + seq![')'];
    let p = name.len() as int;
    assert(t[p] == '(');
    assert forall|i: int| 0 <= i < p implies t[i] != '(' by {
        assert(t[i] == name[i]);
    }
    assert forall|i: int| p < i < t.len() - 1 implies t[i] != '\n' by {
        assert(t[i] == body[i - p - 1]);
    }
    assert(jsonp_open_at(t, p));
    assert forall|q: int| jsonp_open_at(t, q) implies q == p by {
        if q < p {
            assert(t[q] == name[q]);
        }
    }
    assert(t.subrange(p + 1, t.len() - 1) =~= body);
}

impl AuthResponse {
    /// Whether the portal accepted the request: `res` is `ok`.
    pub fn is_ok(&self) -> (b: bool)
        ensures
            b == (self.res@ == "ok"@),
    {
        str_eq(self.res.as_str(), "ok")
    }

    /// The error code of the reply, or `N/A` where it has none.
    pub fn error_code(&self) -> (res: String)
        ensures
            res@ == or_default(self.error.deep_view(), "N/A"@),
    {
        String::from_str(opt_or(&self.error, "N/A"))
    }

    /// The error message of the reply, or `未知错误` ("unknown error") where it has none.
    pub fn error_message(&self) -> (res: String)
        ensures
            res@ == or_default(self.error_msg.deep_view(), "未知错误"@),
    {
        String::from_str(opt_or(&self.error_msg, "未知错误"))
    }

    /// Whether the failure is `no_response_data_error`, which the portal gives when the
    /// request reached it through a tunnel: as the result, as the error code, or inside
    /// the error message.
    pub fn is_no_response_error(&self) -> (b: bool)
        ensures
            b == (self.res@ == "no_response_data_error"@ || or_default(self.error.deep_view(), "N/A"@)
                == "no_response_data_error"@ || contains_seq(
                or_default(self.error_msg.deep_view(), "未知错误"@),
                "no_response_data_error"@,
            )),
    {
        let code = self.error_code();
        let message = self.error_message();
        str_eq(self.res.as_str(), "no_response_data_error") || str_eq(
            code.as_str(),
            "no_response_data_error",
        ) || str_contains(message.as_str(), "no_response_data_error")
    }
}

impl UserInfo {
    /// Whether the reply says that the device is not online (error `not_online_error`).
    pub fn is_not_online(&self) -> (b: bool)
        ensures
            b == (self.error.deep_view() == Some("not_online_error"@)),
    {
        match &self.error {
            Some(e) => str_eq(e.as_str(), "not_online_error"),
            None => false,
        }
    }
}

impl SrunClient {
    /// A client for the portal at `base_url` (its trailing `/`s dropped), acting for
    /// `target_ip` where one is given.
    pub fn new(
        base_url: &str,
        username: &str,
        password: &str,
        ac_id: &str,
        double_stack: bool,
        interface: Option<&str>,
        target_ip: Option<&str>,
    ) -> (c: Self)
        ensures
            c.base_url@ == strip_trailing(base_url@, '/'),
            c.username@ == username@,
            c.password@ == password@,
            c.ac_id@ == ac_id@,
            c.double_stack == double_stack,
            c.interface.deep_view() == match interface {
                Some(i) => Some(i@),
                None => None::<Seq<char>>,
            },
            c.target_ip.deep_view() == match target_ip {
                Some(t) => Some(t@),
                None => None::<Seq<char>>,
            },
    {
        let iface = match interface {
            Some(i) => Some(String::from_str(i)),
            None => None,
        };
        let target = match target_ip {
            Some(t) => Some(String::from_str(t)),
            None => None,
        };
        SrunClient {
            base_url: trim_end_char(base_url, '/'),
            username: String::from_str(username),
            password: String::from_str(password),
            ac_id: String::from_str(ac_id),
            double_stack,
            interface: iface,
            target_ip: target,
        }
    }

    /// The user-info request that a login or logout starts with: about the target address
    /// where the client has one, else about the caller.
    pub fn session_info_request(&self) -> (r: PortalRequest)
        ensures
            r@ == (
                self.base_url@ + "/cgi-bin/rad_user_info"@,
                info_query(info_target(self.target_ip.deep_view())),
            ),
    {
        proof {
            reveal_strlit("");
        }
        self.info_request(opt_or(&self.target_ip, ""))
    }

    /// The user-info request (`rad_user_info`), about `ip` where it is not empty.
    pub fn info_request(&self, ip: &str) -> (r: PortalRequest)
        ensures
            r@ == (self.base_url@ + "/cgi-bin/rad_user_info"@, info_query(ip@)),
    {
        let url = join(self.base_url.as_str(), "/cgi-bin/rad_user_info");
        let mut query: Vec<(String, String)> = Vec::new();
        query.push(param("callback", "jQuery123"));
        if !ip.is_empty() {
            query.push(param("ip", ip));
        }
        assert(query.deep_view() =~= info_query(ip@));
        PortalRequest { url, query }
    }

    /// The challenge request (`get_challenge`) for the client's user at `ip`.
    pub fn challenge_request(&self, ip: &str) -> (r: PortalRequest)
        ensures
            r@ == (self.base_url@ + "/cgi-bin/get_challenge"@, challenge_query(self.username@, ip@)),
    {
        let url = join(self.base_url.as_str(), "/cgi-bin/get_challenge");
        let mut query: Vec<(String, String)> = Vec::new();
        query.push(param("username", self.username.as_str()));
        query.push(param("ip", ip));
        query.push(param("callback", "jQuery123"));
        assert(query.deep_view() =~= challenge_query(self.username@, ip@));
        PortalRequest { url, query }
    }

    /// The address to log in or out: the target address where the client has one; else
    /// the reply's online address, else its client address, else `0.0.0.0`.
    pub fn session_ip(&self, info: &UserInfo) -> (res: String)
        ensures
            res@ == session_ip(self.target_ip.deep_view(), *info),
    {
        if let Some(t) = &self.target_ip {
            return String::from_str(t.as_str());
        }
        match &info.online_ip {
            Some(ip) => String::from_str(ip.as_str()),
            None => String::from_str(opt_or(&info.client_ip, "0.0.0.0")),
        }
    }

    /// The login information for `ip`, as the JSON text that gets encrypted.
    pub fn login_info_json(&self, ip: &str) -> (res: String)
        ensures
            res@ == login_info_json(self.username@, self.password@, ip@, self.ac_id@),
    {
        let mut r = String::from_str("{\"username\":\"");
        r.append(self.username.as_str());
        r.append("\",\"password\":\"");
        r.append(self.password.as_str());
        r.append("\",\"ip\":\"");
        r.append(ip);
        r.append("\",\"acid\":\"");
        r.append(self.ac_id.as_str());
        r.append("\",\"enc_ver\":\"srun_bx1\"}");
        r
    }

    /// The address that a login with this challenge reply is for: the target address
    /// where the client has one; else the reply's where it is not empty, else `ip`.
    pub fn final_ip(&self, challenge: &ChallengeResponse, ip: &str) -> (res: String)
        ensures
            res@ == final_ip(self.target_ip.deep_view(), challenge.client_ip@, ip@),
    {
        if let Some(t) = &self.target_ip {
            return String::from_str(t.as_str());
        }
        if !challenge.client_ip.as_str().is_empty() {
            String::from_str(challenge.client_ip.as_str())
        } else {
            String::from_str(ip)
        }
    }

    /// The login request (`srun_portal`, action `login`) for the user-info reply `info`
    /// and the challenge reply `challenge`, reporting `os_name` as the device's system;
    /// for the target address where the client has one.
    pub fn login_request(&self, info: &UserInfo, challenge: &ChallengeResponse, os_name: &str) -> (r: PortalRequest)
        requires
            encode_utf8(
                login_info_json(
                    self.username@,
                    self.password@,
                    final_ip(self.target_ip.deep_view(), challenge.client_ip@, session_ip(self.target_ip.deep_view(), *info)),
                    self.ac_id@,
                ),
            ).len() <= XXTEA_MAX_PLAINTEXT_LEN,
            encode_utf8(
                login_info_json(
                    self.username@,
                    self.password@,
                    final_ip(self.target_ip.deep_view(), challenge.client_ip@, session_ip(self.target_ip.deep_view(), *info)),
                    self.ac_id@,
                ),
            ).len() + 7 <= usize::MAX,
        ensures
            r@ == (
                self.base_url@ + "/cgi-bin/srun_portal"@,
                login_query(
                    self.username@,
                    self.password@,
                    self.ac_id@,
                    self.double_stack,
                    challenge.challenge@,
                    final_ip(self.target_ip.deep_view(), challenge.client_ip@, session_ip(self.target_ip.deep_view(), *info)),
                    or_default(info.nas_ip.deep_view(), Seq::empty()),
                    os_name@,
                ),
            ),
            r@.1[2] == (
                "password"@,
                "{MD5}"@ + hex_lower(
                    hmac_md5_tag(encode_utf8(challenge.challenge@), encode_utf8(self.password@)),
                ),
            ),
    {
        proof {
            reveal_strlit("");
        }
        let ip = self.session_ip(info);
        let nas_ip = opt_or(&info.nas_ip, "");
        let token = challenge.challenge.as_str();
        let fip = self.final_ip(challenge, ip.as_str());
        let hmd5 = hmac_md5(token, self.password.as_str());
        let json = self.login_info_json(fip.as_str());
        let encrypted = xxtea_encode(json.as_str(), token);
        let encoded = custom_base64_encode(encrypted.as_slice());
        let info_value = join("{SRBX1}", encoded.as_str());
        let mut chk = String::from_str(token);
        chk.append(self.username.as_str());
        chk.append(token);
        chk.append(hmd5.as_str());
        chk.append(token);
        chk.append(self.ac_id.as_str());
        chk.append(token);
        chk.append(fip.as_str());
        chk.append(token);
        chk.append("200");
        chk.append(token);
        chk.append("1");
        chk.append(token);
        chk.append(info_value.as_str());
        let chksum = sha1(chk.as_str());
        assert(hmd5@ == password_digest(token@, self.password@));
        assert(fip@ == final_ip(self.target_ip.deep_view(), challenge.client_ip@, session_ip(self.target_ip.deep_view(), *info)));
        assert(json@ == login_info_json(self.username@, self.password@, fip@, self.ac_id@));
        assert(info_value@ == info_param(json@, token@));
        assert(chk@ == checksum_input(token@, self.username@, hmd5@, self.ac_id@, fip@, info_value@));
        assert(chksum@ == sha1_hex(chk@));
        let password_value = join("{MD5}", hmd5.as_str());
        let double_stack_value = if self.double_stack {
            "1"
        } else {
            "0"
        };
        let url = join(self.base_url.as_str(), "/cgi-bin/srun_portal");
        let mut query: Vec<(String, String)> = Vec::new();
        query.push(param("action", "login"));
        query.push(param("username", self.username.as_str()));
        query.push(param("password", password_value.as_str()));
        query.push(param("ac_id", self.ac_id.as_str()));
        query.push(param("ip", fip.as_str()));
        query.push(param("info", info_value.as_str()));
        query.push(param("chksum", chksum.as_str()));
        query.push(param("n", "200"));
        query.push(param("type", "1"));
        query.push(param("os", os_name));
        query.push(param("name", os_name));
        query.push(param("double_stack", double_stack_value));
        query.push(param("nas_ip", nas_ip));
        query.push(param("callback", "jQuery123"));
        let ghost expected = login_query(
            self.username@,
            self.password@,
            self.ac_id@,
            self.double_stack,
            challenge.challenge@,
            final_ip(self.target_ip.deep_view(), challenge.client_ip@, session_ip(self.target_ip.deep_view(), *info)),
            or_default(info.nas_ip.deep_view(), Seq::empty()),
            os_name@,
        );
        assert(query.deep_view().len() == expected.len());
        assert(query.deep_view()[0] == expected[0]);
        assert(query.deep_view()[2] == expected[2]);
        assert(query.deep_view()[5] == expected[5]);
        assert(query.deep_view()[6] == expected[6]);
        assert(query.deep_view()[11] == expected[11]);
        assert(query.deep_view()[12] == expected[12]);
        assert(query.deep_view() =~= expected);
        PortalRequest { url, query }
    }

    /// The two logout requests for the user-info reply `info` (about the target address
    /// where the client has one) at the Unix time `time`
    /// (in decimal): first the unbinding (`rad_user_dm`), then the ordinary logout
    /// (`srun_portal`, action `logout`).
    pub fn logout_requests(&self, info: &UserInfo, time: &str) -> (r: (PortalRequest, PortalRequest))
        ensures
            r.0@ == (
                self.base_url@ + "/cgi-bin/rad_user_dm"@,
                unbind_query(logout_user(*info, self.username@), session_ip(self.target_ip.deep_view(), *info), time@),
            ),
            r.1@ == (
                self.base_url@ + "/cgi-bin/srun_portal"@,
                logout_query(
                    user_with_domain(
                        logout_user(*info, self.username@),
                        or_default(info.domain.deep_view(), Seq::empty()),
                    ),
                    session_ip(self.target_ip.deep_view(), *info),
                    self.ac_id@,
                ),
            ),
    {
        proof {
            reveal_strlit("");
        }
        let ip = self.session_ip(info);
        let user = opt_or(&info.user_name, self.username.as_str());
        let domain = opt_or(&info.domain, "");
        let full_user = if !domain.is_empty() {
            let mut u = join(user, "@");
            u.append(domain);
            u
        } else {
            String::from_str(user)
        };
        let mut sign_data = String::from_str(time);
        sign_data.append(user);
        sign_data.append(ip.as_str());
        sign_data.append("1");
        sign_data.append(time);
        let sign = sha1(sign_data.as_str());
        let url_dm = join(self.base_url.as_str(), "/cgi-bin/rad_user_dm");
        let mut q1: Vec<(String, String)> = Vec::new();
        q1.push(param("username", user));
        q1.push(param("ip", ip.as_str()));
        q1.push(param("unbind", "1"));
        q1.push(param("time", time));
        q1.push(param("sign", sign.as_str()));
        q1.push(param("callback", "jQuery123"));
        assert(q1.deep_view() =~= unbind_query(logout_user(*info, self.username@), session_ip(self.target_ip.deep_view(), *info), time@));
        let url_logout = join(self.base_url.as_str(), "/cgi-bin/srun_portal");
        let mut q2: Vec<(String, String)> = Vec::new();
        q2.push(param("action", "logout"));
        q2.push(param("username", full_user.as_str()));
        q2.push(param("ip", ip.as_str()));
        q2.push(param("ac_id", self.ac_id.as_str()));
        q2.push(param("double_stack", "0"));
        q2.push(param("callback", "jQuery123"));
        assert(q2.deep_view() =~= logout_query(
            user_with_domain(
                logout_user(*info, self.username@),
                or_default(info.domain.deep_view(), Seq::empty()),
            ),
            session_ip(self.target_ip.deep_view(), *info),
            self.ac_id@,
        ));
        (PortalRequest { url: url_dm, query: q1 }, PortalRequest { url: url_logout, query: q2 })
    }

    /// Whether the connectivity probe's HTTP status shows that the network is reachable:
    /// only 204 does.
    pub fn online_status(status: u16) -> (res: bool)
        ensures
            res == (status == 204),
    {
        status == 204
    }

    /// The JSON text of a portal reply, with any JSONP wrapper removed.
    pub fn jsonp_payload(text: &str) -> (res: String)
        ensures
            res@ == jsonp_payload_spec(text@),
    {
        let cs = chars_of(text);
        let len = cs.len();
        let mut p: usize = 0;
        while p < len && cs[p] != '('
            invariant
                cs@ == text@,
                len == cs@.len(),
                p <= len,
                forall|i: int| 0 <= i < p ==> cs@[i] != '(',
            decreases len - p,
        {
            p += 1;
        }
        if p >= 1 && p < len && len - p >= 2 && cs[len - 1] == ')' {
            let mut i = p + 1;
            let mut clean = true;
            while i < len - 1
                invariant
                    cs@ == text@,
                    len == cs@.len(),
                    p + 2 <= len,
                    p + 1 <= i <= len - 1,
                    clean == (forall|k: int| p < k < i ==> cs@[k] != '\n'),
                decreases len - 1 - i,
            {
                if cs[i] == '\n' {
                    clean = false;
                }
                i += 1;
            }
            if clean {
                assert(jsonp_open_at(text@, p as int));
                assert forall|q: int| jsonp_open_at(text@, q) implies q == p by {
                    if q < p {
                        assert(text@[q] != '(');
                    }
                    if q > p {
                        assert(text@[p as int] != '(');
                    }
                }
                return crate::text::string_from_chars(cs.as_slice(), p + 1, len - 1);
            }
        }
        assert forall|q: int| !jsonp_open_at(text@, q) by {
            if jsonp_open_at(text@, q) {
                if q < p {
                    assert(text@[q] != '(');
                }
                if q > p {
                    assert(text@[p as int] != '(');
                }
            }
        }
        assert(cs@.subrange(0, len as int) =~= text@);
        trim_chars(cs.as_slice(), 0, len)
    }
}

} // verus!
