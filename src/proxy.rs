//! Reverse and forward proxy rules that do not touch the network: the
//! headers added on each upstream hop, forward-proxy credentials, per-client
//! rate counting, and PROXY-protocol headers.
use crate::rewrite::pairs_view;
use crate::text::{
    chars_of, eq_chars, lower, lower_vec, push_all, starts_with, string_of,
};
use crate::fastcgi::{is_ws, parse_u16, parse_u16_bytes};
use vstd::prelude::*;
use vstd::utf8::encode_utf8;

verus! {

#[derive(Clone, Copy, Debug, PartialEq, Eq, Structural)]
pub enum ProxyMode {
    Reverse,
    Forward,
    Transparent,
    Socks4,
    Socks5,
}

#[derive(Clone, Copy, Debug, PartialEq, Eq, Structural)]
pub enum AuthType {
    Basic,
    Digest,
    Ntlm,
    Bearer,
}

#[derive(Clone, Debug)]
pub struct ProxyAuth {
    pub auth_type: AuthType,
    pub username: String,
    pub password: String,
    pub realm: Option<String>,
}

#[derive(Clone, Debug)]
pub struct UpstreamProxy {
    pub url: String,
    pub auth: Option<ProxyAuth>,
    pub use_for_https: bool,
}

#[derive(Clone, Copy, Debug)]
pub struct ConnectionPoolConfig {
    pub max_idle_per_host: usize,
    pub idle_timeout_seconds: u64,
    pub max_lifetime_seconds: u64,
    pub http2: bool,
    pub keep_alive: bool,
}

#[derive(Clone, Debug)]
pub struct HeaderConfig {
    pub preserve_host: bool,
    pub add_forwarded_headers: bool,
    pub add_real_ip: bool,
    pub add_proxy_headers: bool,
    pub remove_headers: Vec<String>,
    pub add_headers: Vec<(String, String)>,
    pub via_header: Option<String>,
}

#[derive(Clone, Copy, Debug)]
pub struct TimeoutConfig {
    pub connect_timeout_seconds: u64,
    pub read_timeout_seconds: u64,
    pub write_timeout_seconds: u64,
    pub idle_timeout_seconds: u64,
}

#[derive(Clone, Copy, Debug)]
pub struct ProxyLimits {
    pub max_request_size: u64,
    pub max_response_size: u64,
    pub max_concurrent_connections: usize,
    pub rate_limit_per_ip: Option<u32>,
    pub bandwidth_limit_kbps: Option<u32>,
}

#[derive(Clone, Copy, Debug)]
pub struct ProxyLogging {
    pub log_requests: bool,
    pub log_responses: bool,
    pub log_headers: bool,
    pub log_body: bool,
    pub max_body_size: usize,
}

#[derive(Clone, Debug)]
pub struct ProxyConfig {
    pub mode: ProxyMode,
    pub upstream_proxy: Option<UpstreamProxy>,
    pub authentication: Option<ProxyAuth>,
    pub connection_pool: ConnectionPoolConfig,
    pub headers: HeaderConfig,
    pub timeout: TimeoutConfig,
    pub limits: ProxyLimits,
    pub logging: ProxyLogging,
}

/// Header names compare without regard to ASCII case.
pub open spec fn same_name(a: Seq<char>, b: Seq<char>) -> bool {
    lower(a) == lower(b)
}

/// `hs` without the headers named `name`.
pub open spec fn without(hs: Seq<(Seq<char>, Seq<char>)>, name: Seq<char>) -> Seq<(Seq<char>, Seq<char>)>
    decreases hs.len(),
{
    if hs.len() == 0 {
        hs
    } else {
        let p = without(hs.drop_last(), name);
        if same_name(hs.last().0, name) {
            p
        } else {
            p.push(hs.last())
        }
    }
}

/// Sets a header: every header of that name goes, the new one is added last.
pub open spec fn set_header(hs: Seq<(Seq<char>, Seq<char>)>, name: Seq<char>, value: Seq<char>) -> Seq<
    (Seq<char>, Seq<char>),
> {
    without(hs, name).push((name, value))
}

/// The value of the first header named `name`.
pub open spec fn first_value(hs: Seq<(Seq<char>, Seq<char>)>, name: Seq<char>) -> Option<Seq<char>>
    decreases hs.len(),
{
    if hs.len() == 0 {
        None
    } else if same_name(hs[0].0, name) {
        Some(hs[0].1)
    } else {
        first_value(hs.skip(1), name)
    }
}

pub open spec fn set_all(hs: Seq<(Seq<char>, Seq<char>)>, adds: Seq<(Seq<char>, Seq<char>)>) -> Seq<
    (Seq<char>, Seq<char>),
>
    decreases adds.len(),
{
    if adds.len() == 0 {
        hs
    } else {
        let p = set_all(hs, adds.drop_last());
        set_header(p, adds.last().0, adds.last().1)
    }
}

pub open spec fn remove_all(hs: Seq<(Seq<char>, Seq<char>)>, names: Seq<String>) -> Seq<(Seq<char>, Seq<char>)>
    decreases names.len(),
{
    if names.len() == 0 {
        hs
    } else {
        without(remove_all(hs, names.drop_last()), names.last()@)
    }
}

/// The `X-Forwarded-For` value: the client appended to an inbound list.
pub open spec fn forwarded_for(hs: Seq<(Seq<char>, Seq<char>)>, client: Seq<char>) -> Seq<char> {
    match first_value(hs, "X-Forwarded-For"@) {
        Some(v) => v + ", "@ + client,
        None => client,
    }
}

/// The headers of an upstream request.
pub open spec fn proxied_headers(
    cfg: HeaderConfig,
    hs: Seq<(Seq<char>, Seq<char>)>,
    client: Seq<char>,
    host: Seq<char>,
) -> Seq<(Seq<char>, Seq<char>)> {
    let a = if cfg.add_forwarded_headers {
        set_header(hs, "Forwarded"@, "for="@ + client + ";host="@ + host + ";proto=http"@)
    } else {
        hs
    };
    let b = if cfg.add_real_ip {
        let x = set_header(a, "X-Real-IP"@, client);
        let y = set_header(x, "X-Forwarded-For"@, forwarded_for(hs, client));
        set_header(y, "X-Forwarded-Proto"@, "http"@)
    } else {
        a
    };
    let c = if cfg.add_proxy_headers {
        set_header(b, "X-Proxied-By"@, "miwidothttp"@)
    } else {
        b
    };
    let d = match cfg.via_header {
        Some(v) => set_header(c, "Via"@, v@),
        None => c,
    };
    remove_all(set_all(d, pairs_view(cfg.add_headers@)), cfg.remove_headers@)
}

fn same_name_of(a: &Vec<char>, b: &Vec<char>) -> (r: bool)
    ensures
        r == same_name(a@, b@),
{
    eq_chars(&lower_vec(a), &lower_vec(b))
}

fn remove_header(hs: &mut Vec<(String, String)>, name: &Vec<char>)
    ensures
        pairs_view(final(hs)@) == without(pairs_view(old(hs)@), name@),
{
    let ghost src = pairs_view(hs@);
    let mut out: Vec<(String, String)> = Vec::new();
    let mut i: usize = 0;
    while i < hs.len()
        invariant
            src == pairs_view(hs@),
            i <= hs@.len(),
            pairs_view(out@) == without(src.take(i as int), name@),
        decreases hs@.len() - i,
    {
        assert(src.take(i + 1).drop_last() =~= src.take(i as int));
        if !same_name_of(&chars_of(hs[i].0.as_str()), name) {
            let ghost prev = pairs_view(out@);
            out.push((hs[i].0.clone(), hs[i].1.clone()));
            assert(pairs_view(out@) =~= prev.push(src[i as int]));
        }
        i = i + 1;
    }
    assert(src.take(i as int) =~= src);
    *hs = out;
}

pub(crate) fn insert_header(hs: &mut Vec<(String, String)>, name: &str, value: String)
    ensures
        pairs_view(final(hs)@) == set_header(pairs_view(old(hs)@), name@, value@),
{
    remove_header(hs, &chars_of(name));
    let ghost prev = pairs_view(hs@);
    hs.push((name.to_owned(), value));
    assert(pairs_view(hs@) =~= prev.push((name@, value@)));
}

pub(crate) fn first_value_of(hs: &Vec<(String, String)>, name: &Vec<char>) -> (r: Option<String>)
    ensures
        match r {
            Some(v) => first_value(pairs_view(hs@), name@) == Some(v@),
            None => first_value(pairs_view(hs@), name@) is None,
        },
{
    let ghost s = pairs_view(hs@);
    let mut i: usize = 0;
    assert(s.skip(0) =~= s);
    while i < hs.len()
        invariant
            s == pairs_view(hs@),
            i <= hs@.len(),
            first_value(s, name@) == first_value(s.skip(i as int), name@),
        decreases hs@.len() - i,
    {
        assert(s.skip(i as int).skip(1) =~= s.skip(i + 1));
        assert(s.skip(i as int)[0] == s[i as int]);
        if same_name_of(&chars_of(hs[i].0.as_str()), name) {
            return Some(hs[i].1.clone());
        }
        i = i + 1;
    }
    None
}

impl HeaderConfig {
    /// Adds the forwarding headers of an upstream hop to `headers`, then the
    /// configured extra headers, then removes the configured ones.
    pub fn add_proxy_headers(&self, headers: &mut Vec<(String, String)>, client_ip: &str, requested_host: &str)
        ensures
            pairs_view(final(headers)@) == proxied_headers(*self, pairs_view(old(headers)@), client_ip@, requested_host@),
    {
        let ghost orig = pairs_view(headers@);
        let client = chars_of(client_ip);
        let xff = match first_value_of(headers, &chars_of("X-Forwarded-For")) {
            Some(v) => {
                let mut s = chars_of(v.as_str());
                push_all(&mut s, &chars_of(", "));
                push_all(&mut s, &client);
                string_of(&s)
            },
            None => client_ip.to_owned(),
        };
        if self.add_forwarded_headers {
            let mut f = chars_of("for=");
            push_all(&mut f, &client);
            push_all(&mut f, &chars_of(";host="));
            push_all(&mut f, &chars_of(requested_host));
            push_all(&mut f, &chars_of(";proto=http"));
            insert_header(headers, "Forwarded", string_of(&f));
        }
        if self.add_real_ip {
            insert_header(headers, "X-Real-IP", client_ip.to_owned());
            insert_header(headers, "X-Forwarded-For", xff);
            insert_header(headers, "X-Forwarded-Proto", "http".to_owned());
        }
        if self.add_proxy_headers {
            insert_header(headers, "X-Proxied-By", "miwidothttp".to_owned());
        }
        match &self.via_header {
            Some(v) => insert_header(headers, "Via", v.clone()),
            None => {},
        }
        let ghost adds = pairs_view(self.add_headers@);
        let ghost base = pairs_view(headers@);
        let mut i: usize = 0;
        while i < self.add_headers.len()
            invariant
                adds == pairs_view(self.add_headers@),
                i <= adds.len(),
                pairs_view(headers@) == set_all(base, adds.take(i as int)),
            decreases adds.len() - i,
        {
            insert_header(headers, self.add_headers[i].0.as_str(), self.add_headers[i].1.clone());
            i = i + 1;
            assert(adds.take(i as int).drop_last() =~= adds.take(i - 1));
        }
        assert(adds.take(i as int) =~= adds);
        let ghost base2 = pairs_view(headers@);
        let mut k: usize = 0;
        while k < self.remove_headers.len()
            invariant
                k <= self.remove_headers@.len(),
                pairs_view(headers@) == remove_all(base2, self.remove_headers@.take(k as int)),
            decreases self.remove_headers@.len() - k,
        {
            remove_header(headers, &chars_of(self.remove_headers[k].as_str()));
            k = k + 1;
            assert(self.remove_headers@.take(k as int).drop_last() =~= self.remove_headers@.take(k - 1));
        }
        assert(self.remove_headers@.take(k as int) =~= self.remove_headers@);
    }
}

/// Whether the request asks to switch to WebSocket.
pub fn is_websocket_request(headers: &Vec<(String, String)>) -> (r: bool)
    ensures
        r == (first_value(pairs_view(headers@), "upgrade"@) matches Some(v) && lower(v) == "websocket"@),
{
    match first_value_of(headers, &chars_of("upgrade")) {
        Some(v) => eq_chars(&lower_vec(&chars_of(v.as_str())), &chars_of("websocket")),
        None => false,
    }
}

/// The bytes that standard base64 decoding gives for `s`, if it is valid base64.
pub uninterp spec fn base64_decoded(s: Seq<char>) -> Option<Seq<u8>>;

/// Relies on `base64`'s standard engine `decode`: the decoded bytes, or
/// `None` for text that is not valid base64.
#[verifier::external_body]
fn decode_base64(s: &str) -> (r: Option<Vec<u8>>)
    ensures
        match r {
            Some(v) => base64_decoded(s@) == Some(v@),
            None => base64_decoded(s@) is None,
        },
{
    base64::Engine::decode(&base64::engine::general_purpose::STANDARD, s).ok()
}

pub open spec fn str_bytes(s: Seq<char>) -> Seq<u8> {
    encode_utf8(s)
}

/// Basic credentials: the decoded token must be exactly `user:password`.
pub open spec fn credentials_accepted(decoded: Option<Seq<u8>>, auth: ProxyAuth) -> bool {
    auth.auth_type == AuthType::Basic && decoded == Some(str_bytes(auth.username@ + seq![':'] + auth.password@))
}

pub open spec fn basic_token(header: Seq<char>) -> Option<Seq<char>> {
    if header.len() >= 6 && header.take(6) == "Basic "@ {
        Some(header.skip(6))
    } else {
        None
    }
}

/// Whether decoded Basic credentials are the configured ones; only Basic
/// authentication is supported.
pub fn credentials_match(decoded: &Option<Vec<u8>>, auth: &ProxyAuth) -> (r: bool)
    ensures
        r == credentials_accepted(
            match decoded {
                Some(v) => Some(v@),
                None => None,
            },
            *auth,
        ),
{
    if auth.auth_type != AuthType::Basic {
        return false;
    }
    match decoded {
        None => false,
        Some(d) => {
            let mut expected = chars_of(auth.username.as_str());
            expected.push(':');
            push_all(&mut expected, &chars_of(auth.password.as_str()));
            assert(expected@ =~= auth.username@ + seq![':'] + auth.password@);
            let e = string_of(&expected);
            let eb = e.as_str().as_bytes();
            assert(eb@ == str_bytes(auth.username@ + seq![':'] + auth.password@));
            if d.len() != eb.len() {
                return false;
            }
            let mut i: usize = 0;
            while i < d.len()
                invariant
                    d@.len() == eb@.len(),
                    eb@ == str_bytes(auth.username@ + seq![':'] + auth.password@),
                    auth.auth_type == AuthType::Basic,
                    *decoded == Some(*d),
                    i <= d@.len(),
                    forall|k: int| 0 <= k < i ==> d@[k] == eb@[k],
                decreases d@.len() - i,
            {
                if d[i] != eb[i] {
                    assert(d@[i as int] != eb@[i as int]);
                    return false;
                }
                i = i + 1;
            }
            assert(d@ =~= eb@);
            true
        },
    }
}

/// Checks a `Proxy-Authorization` value against the configured credentials.
pub fn validate_proxy_auth(auth_header: &str, auth: &ProxyAuth) -> (r: bool)
    ensures
        basic_token(auth_header@) is None ==> !r,
        basic_token(auth_header@) matches Some(t) ==> r == credentials_accepted(base64_decoded(t), *auth),
{
    let h = chars_of(auth_header);
    proof {
        reveal_strlit("Basic ");
    }
    if !starts_with(&h, &chars_of("Basic ")) {
        return false;
    }
    let token = string_of(&crate::text::slice(&h, 6, h.len()));
    assert(token@ =~= auth_header@.skip(6));
    let decoded = decode_base64(token.as_str());
    credentials_match(&decoded, auth)
}

/// The number of requests seen from each client address.
pub struct RateCounter {
    counts: Vec<(String, u32)>,
}

pub open spec fn count_of(cs: Seq<(String, u32)>, ip: Seq<char>) -> u32
    decreases cs.len(),
{
    if cs.len() == 0 {
        0
    } else if cs[0].0@ == ip {
        cs[0].1
    } else {
        count_of(cs.skip(1), ip)
    }
}

impl RateCounter {
    pub closed spec fn count(&self, ip: Seq<char>) -> u32 {
        count_of(self.counts@, ip)
    }

    pub fn new() -> (r: Self)
        ensures
            forall|ip: Seq<char>| r.count(ip) == 0,
    {
        RateCounter { counts: Vec::new() }
    }

    fn index_of(&self, ip: &Vec<char>) -> (r: Option<usize>)
        ensures
            match r {
                Some(i) => i < self.counts@.len() && self.counts@[i as int].0@ == ip@ && count_of(self.counts@, ip@)
                    == self.counts@[i as int].1 && forall|k: int| 0 <= k < i ==> self.counts@[k].0@ != ip@,
                None => count_of(self.counts@, ip@) == 0 && forall|k: int|
                    0 <= k < self.counts@.len() ==> self.counts@[k].0@ != ip@,
            },
    {
        let mut i: usize = 0;
        assert(self.counts@.skip(0) =~= self.counts@);
        while i < self.counts.len()
            invariant
                i <= self.counts@.len(),
                count_of(self.counts@, ip@) == count_of(self.counts@.skip(i as int), ip@),
                forall|k: int| 0 <= k < i ==> self.counts@[k].0@ != ip@,
            decreases self.counts@.len() - i,
        {
            assert(self.counts@.skip(i as int).skip(1) =~= self.counts@.skip(i + 1));
            assert(self.counts@.skip(i as int)[0] == self.counts@[i as int]);
            if eq_chars(&chars_of(self.counts[i].0.as_str()), ip) {
                return Some(i);
            }
            i = i + 1;
        }
        None
    }

    /// Admits a request from `client_ip` when no limit is set or the client
    /// is below it; an admitted request is counted.
    pub fn check_rate_limit(&mut self, client_ip: &str, limit: Option<u32>) -> (r: bool)
        ensures
            r == match limit {
                Some(l) => old(self).count(client_ip@) < l,
                None => true,
            },
            forall|ip: Seq<char>|
                #![trigger final(self).count(ip)]
                ip != client_ip@ ==> final(self).count(ip) == old(self).count(ip),
            final(self).count(client_ip@) == if r && limit is Some {
                (old(self).count(client_ip@) + 1) as u32
            } else {
                old(self).count(client_ip@)
            },
    {
        let l = match limit {
            Some(l) => l,
            None => {
                return true;
            },
        };
        let ip = chars_of(client_ip);
        match self.index_of(&ip) {
            Some(i) => {
                let c = self.counts[i].1;
                if c >= l {
                    return false;
                }
                let name = self.counts[i].0.clone();
                let ghost before = self.counts@;
                self.counts.set(i, (name, c + 1));
                proof {
                    lemma_count_update(before, i as int, client_ip@, (c + 1) as u32);
                }
                true
            },
            None => {
                if l == 0 {
                    return false;
                }
                let ghost before = self.counts@;
                let name = client_ip.to_owned();
                proof {
                    lemma_count_push(before, name, 1);
                }
                self.counts.push((name, 1));
                true
            },
        }
    }
}

proof fn lemma_count_update(cs: Seq<(String, u32)>, i: int, ip: Seq<char>, n: u32)
    requires
        0 <= i < cs.len(),
        cs[i].0@ == ip,
        forall|k: int| 0 <= k < i ==> cs[k].0@ != ip,
    ensures
        forall|other: Seq<char>|
            #![trigger count_of(cs.update(i, (cs[i].0, n)), other)]
            count_of(cs.update(i, (cs[i].0, n)), other) == if other == ip {
                n
            } else {
                count_of(cs, other)
            },
    decreases cs.len(),
{
    let u = cs.update(i, (cs[i].0, n));
    assert forall|other: Seq<char>| #![trigger count_of(u, other)] count_of(u, other) == if other == ip {
        n
    } else {
        count_of(cs, other)
    } by {
        if i == 0 {
            assert(u.skip(1) =~= cs.skip(1));
        } else {
            let t = cs.skip(1);
            assert forall|k: int| 0 <= k < i - 1 implies t[k].0@ != ip by {
                assert(t[k] == cs[k + 1]);
            }
            lemma_count_update(t, i - 1, ip, n);
            assert(u.skip(1) =~= t.update(i - 1, (t[i - 1].0, n)));
            assert(count_of(u.skip(1), other) == if other == ip { n } else { count_of(t, other) });
        }
    }
}

proof fn lemma_count_push(cs: Seq<(String, u32)>, name: String, n: u32)
    requires
        forall|k: int| 0 <= k < cs.len() ==> cs[k].0@ != name@,
    ensures
        forall|other: Seq<char>|
            #![trigger count_of(cs.push((name, n)), other)]
            count_of(cs.push((name, n)), other) == if other == name@ {
                n
            } else {
                count_of(cs, other)
            },
    decreases cs.len(),
{
    let u = cs.push((name, n));
    assert forall|other: Seq<char>| #![trigger count_of(u, other)] count_of(u, other) == if other == name@ {
        n
    } else {
        count_of(cs, other)
    } by {
        assert(u.len() > 0);
        assert(count_of(u, other) == if u[0].0@ == other {
            u[0].1
        } else {
            count_of(u.skip(1), other)
        });
        if cs.len() > 0 {
            let t = cs.skip(1);
            assert(count_of(cs, other) == if cs[0].0@ == other {
                cs[0].1
            } else {
                count_of(t, other)
            });
            assert forall|k: int| 0 <= k < t.len() implies t[k].0@ != name@ by {
                assert(t[k] == cs[k + 1]);
            }
            lemma_count_push(t, name, n);
            assert(u.skip(1) =~= t.push((name, n)));
            assert(count_of(t.push((name, n)), other) == if other == name@ {
                n
            } else {
                count_of(t, other)
            });
            assert(u[0] == cs[0]);
            assert(cs[0].0@ != name@);
        } else {
            assert(u.skip(1) =~= Seq::<(String, u32)>::empty());
            assert(u[0] == (name, n));
        }
    }
}

#[derive(Clone, Copy, Debug, PartialEq, Eq, Structural)]
pub enum ProxyCommand {
    Local,
    Proxy,
}

#[derive(Clone, Copy, Debug, PartialEq, Eq, Structural)]
pub enum ProxyFamily {
    Inet,
    Inet6,
    Unix,
}

#[derive(Clone, Copy, Debug, PartialEq, Eq, Structural)]
pub enum ProxyTransport {
    Stream,
    Dgram,
}

/// A PROXY-protocol header: the real client and the address it reached.
/// Addresses are text as the header gives them (version 1) or in dotted
/// form (version 2).
#[derive(Clone, Debug)]
pub struct ProxyProtocol {
    pub version: u8,
    pub command: ProxyCommand,
    pub family: ProxyFamily,
    pub protocol: ProxyTransport,
    pub src_ip: String,
    pub src_port: u16,
    pub dest_ip: String,
    pub dest_port: u16,
}

#[derive(Clone, Copy, Debug, PartialEq, Eq, Structural)]
pub enum ProxyProtocolError {
    /// A port of a version-1 header is not a number that fits 16 bits.
    BadPort,
}

/// The twelve-byte signature of a version-2 header.
pub open spec fn v2_signature() -> Seq<u8> {
    seq![13u8, 10u8, 13u8, 10u8, 0u8, 13u8, 10u8, 81u8, 85u8, 73u8, 84u8, 10u8]
}

/// Whitespace-separated words: the words finished so far and the current one.
pub open spec fn word_state(s: Seq<u8>) -> (Seq<Seq<u8>>, Seq<u8>)
    decreases s.len(),
{
    if s.len() == 0 {
        (Seq::empty(), Seq::empty())
    } else {
        let (done, cur) = word_state(s.drop_last());
        if is_ws(s.last()) {
            if cur.len() > 0 {
                (done.push(cur), Seq::empty())
            } else {
                (done, cur)
            }
        } else {
            (done, cur.push(s.last()))
        }
    }
}

pub open spec fn words(s: Seq<u8>) -> Seq<Seq<u8>> {
    let (done, cur) = word_state(s);
    if cur.len() > 0 {
        done.push(cur)
    } else {
        done
    }
}

pub open spec fn ascii(s: Seq<char>) -> Seq<u8> {
    s.map_values(|c: char| c as u8)
}

pub open spec fn bytes_text(b: Seq<u8>) -> Seq<char> {
    b.map_values(|x: u8| x as char)
}

pub ghost struct HeaderView {
    pub version: u8,
    pub command: ProxyCommand,
    pub family: ProxyFamily,
    pub src_ip: Seq<char>,
    pub src_port: nat,
    pub dest_ip: Seq<char>,
    pub dest_port: nat,
}

/// A version-1 header: `PROXY TCP4|TCP6 src dst sport dport`.
pub open spec fn parse_v1_spec(buf: Seq<u8>) -> Result<Option<HeaderView>, ProxyProtocolError> {
    let w = words(buf);
    if w.len() >= 6 && w[0] == ascii("PROXY"@) && (w[1] == ascii("TCP4"@) || w[1] == ascii("TCP6"@)) {
        match (parse_u16(w[4]), parse_u16(w[5])) {
            (Some(sp), Some(dp)) => Ok(
                Some(
                    HeaderView {
                        version: 1,
                        command: ProxyCommand::Proxy,
                        family: if w[1] == ascii("TCP4"@) { ProxyFamily::Inet } else { ProxyFamily::Inet6 },
                        src_ip: bytes_text(w[2]),
                        src_port: sp,
                        dest_ip: bytes_text(w[3]),
                        dest_port: dp,
                    },
                ),
            ),
            _ => Err(ProxyProtocolError::BadPort),
        }
    } else {
        Ok(None)
    }
}

pub open spec fn dotted(a: u8, b: u8, c: u8, d: u8) -> Seq<char> {
    crate::text::decimal(a as nat) + seq!['.'] + crate::text::decimal(b as nat) + seq!['.']
        + crate::text::decimal(c as nat) + seq!['.'] + crate::text::decimal(d as nat)
}

/// A version-2 header with IPv4 addresses; anything else gives nothing.
pub open spec fn parse_v2_spec(buf: Seq<u8>) -> Option<HeaderView> {
    let len = buf[14] as nat * 256 + buf[15] as nat;
    if buf[12] / 16 != 2 || buf.len() < 16 + len || buf[13] / 16 != 1 || len < 12 {
        None
    } else {
        Some(
            HeaderView {
                version: 2,
                command: if buf[12] % 16 == 1 { ProxyCommand::Proxy } else { ProxyCommand::Local },
                family: ProxyFamily::Inet,
                src_ip: dotted(buf[16], buf[17], buf[18], buf[19]),
                src_port: buf[24] as nat * 256 + buf[25] as nat,
                dest_ip: dotted(buf[20], buf[21], buf[22], buf[23]),
                dest_port: buf[26] as nat * 256 + buf[27] as nat,
            },
        )
    }
}

/// Detects and reads a PROXY-protocol header at the start of a connection.
pub open spec fn parse_spec(buf: Seq<u8>) -> Result<Option<HeaderView>, ProxyProtocolError> {
    if buf.len() >= 16 && buf.take(12) == v2_signature() {
        Ok(parse_v2_spec(buf))
    } else if buf.len() >= 6 && buf.take(6) == ascii("PROXY "@) {
        parse_v1_spec(buf)
    } else {
        Ok(None)
    }
}

impl ProxyProtocol {
    pub open spec fn view(&self) -> HeaderView {
        HeaderView {
            version: self.version,
            command: self.command,
            family: self.family,
            src_ip: self.src_ip@,
            src_port: self.src_port as nat,
            dest_ip: self.dest_ip@,
            dest_port: self.dest_port as nat,
        }
    }
}

pub open spec fn parsed_view(r: Result<Option<ProxyProtocol>, ProxyProtocolError>) -> Result<Option<HeaderView>, ProxyProtocolError> {
    match r {
        Ok(Some(p)) => Ok(Some(p.view())),
        Ok(None) => Ok(None),
        Err(e) => Err(e),
    }
}

fn ascii_of(s: &str) -> (r: Vec<u8>)
    requires
        forall|i: int| 0 <= i < s@.len() ==> (s@[i] as u32) < 128,
    ensures
        r@ == ascii(s@),
{
    let c = chars_of(s);
    let mut r: Vec<u8> = Vec::new();
    let mut i: usize = 0;
    while i < c.len()
        invariant
            c@ == s@,
            forall|i: int| 0 <= i < s@.len() ==> (s@[i] as u32) < 128,
            i <= c@.len(),
            r@ == ascii(c@.take(i as int)),
        decreases c@.len() - i,
    {
        r.push(c[i] as u8);
        i = i + 1;
        assert(r@ =~= ascii(c@.take(i as int)));
    }
    assert(c@.take(i as int) =~= c@);
    r
}

fn text_of(b: &Vec<u8>) -> (r: String)
    ensures
        r@ == bytes_text(b@),
{
    let mut v: Vec<char> = Vec::new();
    let mut i: usize = 0;
    while i < b.len()
        invariant
            i <= b@.len(),
            v@ == bytes_text(b@.take(i as int)),
        decreases b@.len() - i,
    {
        v.push(b[i] as char);
        i = i + 1;
        assert(v@ =~= bytes_text(b@.take(i as int)));
    }
    assert(b@.take(i as int) =~= b@);
    string_of(&v)
}

fn words_of(s: &Vec<u8>) -> (r: Vec<Vec<u8>>)
    ensures
        r@.map_values(|w: Vec<u8>| w@) == words(s@),
{
    let mut done: Vec<Vec<u8>> = Vec::new();
    let mut cur: Vec<u8> = Vec::new();
    let mut i: usize = 0;
    while i < s.len()
        invariant
            i <= s@.len(),
            done@.map_values(|w: Vec<u8>| w@) == word_state(s@.take(i as int)).0,
            cur@ == word_state(s@.take(i as int)).1,
        decreases s@.len() - i,
    {
        let b = s[i];
        assert(s@.take(i + 1).drop_last() =~= s@.take(i as int));
        if b == 32 || b == 9 || b == 10 || b == 11 || b == 12 || b == 13 {
            if cur.len() > 0 {
                let ghost prev = done@.map_values(|w: Vec<u8>| w@);
                done.push(cur);
                assert(done@.map_values(|w: Vec<u8>| w@) =~= prev.push(word_state(s@.take(i as int)).1));
                cur = Vec::new();
                assert(cur@ =~= Seq::<u8>::empty());
            }
        } else {
            cur.push(b);
        }
        i = i + 1;
    }
    assert(s@.take(i as int) =~= s@);
    if cur.len() > 0 {
        let ghost prev = done@.map_values(|w: Vec<u8>| w@);
        done.push(cur);
        assert(done@.map_values(|w: Vec<u8>| w@) =~= prev.push(word_state(s@).1));
    }
    done
}

fn dotted_of(a: u8, b: u8, c: u8, d: u8) -> (r: String)
    ensures
        r@ == dotted(a, b, c, d),
{
    let mut v = decimal_of_u8(a);
    v.push('.');
    push_all(&mut v, &decimal_of_u8(b));
    v.push('.');
    push_all(&mut v, &decimal_of_u8(c));
    v.push('.');
    push_all(&mut v, &decimal_of_u8(d));
    assert(v@ =~= dotted(a, b, c, d));
    string_of(&v)
}

fn decimal_of_u8(x: u8) -> (r: Vec<char>)
    ensures
        r@ == crate::text::decimal(x as nat),
{
    crate::text::decimal_of(x as u64)
}

impl ProxyProtocol {
    /// Reads a PROXY-protocol header from the first bytes of a connection:
    /// `None` when they hold none, or one that is not understood.
    pub fn parse(buf: &Vec<u8>) -> (r: Result<Option<ProxyProtocol>, ProxyProtocolError>)
        ensures
            parsed_view(r) == parse_spec(buf@),
    {
        let sig: Vec<u8> = vec![13, 10, 13, 10, 0, 13, 10, 81, 85, 73, 84, 10];
        assert(sig@ =~= v2_signature());
        if buf.len() >= 16 && buf_starts_with(buf, &sig) {
            return Ok(Self::parse_v2(buf));
        }
        proof {
            reveal_strlit("PROXY ");
        }
        let magic = ascii_of("PROXY ");
        if buf.len() >= 6 && buf_starts_with(buf, &magic) {
            return Self::parse_v1(buf);
        }
        Ok(None)
    }

    fn parse_v1(buf: &Vec<u8>) -> (r: Result<Option<ProxyProtocol>, ProxyProtocolError>)
        ensures
            parsed_view(r) == parse_v1_spec(buf@),
    {
        let w = words_of(buf);
        let ghost wv = w@.map_values(|x: Vec<u8>| x@);
        proof {
            reveal_strlit("PROXY");
            reveal_strlit("TCP4");
            reveal_strlit("TCP6");
        }
        if w.len() < 6 {
            return Ok(None);
        }
        assert(wv[0] == w@[0]@ && wv[1] == w@[1]@ && wv[2] == w@[2]@ && wv[3] == w@[3]@ && wv[4] == w@[4]@
            && wv[5] == w@[5]@);
        let tcp4 = eq_bytes(&w[1], &ascii_of("TCP4"));
        let tcp6 = eq_bytes(&w[1], &ascii_of("TCP6"));
        if !eq_bytes(&w[0], &ascii_of("PROXY")) || !(tcp4 || tcp6) {
            return Ok(None);
        }
        let sp = parse_u16_bytes(&w[4]);
        let dp = parse_u16_bytes(&w[5]);
        match (sp, dp) {
            (Some(sp), Some(dp)) => {
                Ok(
                    Some(
                        ProxyProtocol {
                            version: 1,
                            command: ProxyCommand::Proxy,
                            family: if tcp4 {
                                ProxyFamily::Inet
                            } else {
                                ProxyFamily::Inet6
                            },
                            protocol: ProxyTransport::Stream,
                            src_ip: text_of(&w[2]),
                            src_port: sp,
                            dest_ip: text_of(&w[3]),
                            dest_port: dp,
                        },
                    ),
                )
            },
            _ => Err(ProxyProtocolError::BadPort),
        }
    }

    fn parse_v2(buf: &Vec<u8>) -> (r: Option<ProxyProtocol>)
        requires
            buf@.len() >= 16,
        ensures
            match r {
                Some(p) => parse_v2_spec(buf@) == Some(p.view()),
                None => parse_v2_spec(buf@) is None,
            },
    {
        let version = buf[12] / 16;
        let command = buf[12] % 16;
        let family = buf[13] / 16;
        let length = (buf[14] as usize) * 256 + (buf[15] as usize);
        if version != 2 || buf.len() - 16 < length || family != 1 || length < 12 {
            return None;
        }
        Some(
            ProxyProtocol {
                version: 2,
                command: if command == 1 {
                    ProxyCommand::Proxy
                } else {
                    ProxyCommand::Local
                },
                family: ProxyFamily::Inet,
                protocol: ProxyTransport::Stream,
                src_ip: dotted_of(buf[16], buf[17], buf[18], buf[19]),
                src_port: (buf[24] as u16) * 256 + (buf[25] as u16),
                dest_ip: dotted_of(buf[20], buf[21], buf[22], buf[23]),
                dest_port: (buf[26] as u16) * 256 + (buf[27] as u16),
            },
        )
    }
}

fn eq_bytes(a: &Vec<u8>, b: &Vec<u8>) -> (r: bool)
    ensures
        r == (a@ == b@),
{
    if a.len() != b.len() {
        return false;
    }
    assert(a@.take(b@.len() as int) =~= a@);
    buf_starts_with(a, b)
}

fn buf_starts_with(a: &Vec<u8>, p: &Vec<u8>) -> (r: bool)
    ensures
        r == (p@.len() <= a@.len() && a@.take(p@.len() as int) == p@),
{
    if p.len() > a.len() {
        return false;
    }
    let mut i: usize = 0;
    while i < p.len()
        invariant
            p@.len() <= a@.len(),
            i <= p@.len(),
            forall|k: int| 0 <= k < i ==> a@[k] == p@[k],
        decreases p@.len() - i,
    {
        if a[i] != p[i] {
            assert(a@.take(p@.len() as int)[i as int] != p@[i as int]);
            return false;
        }
        i = i + 1;
    }
    assert(a@.take(p@.len() as int) =~= p@);
    true
}

impl Default for ProxyConfig {
    fn default() -> (r: Self)
        ensures
            r.mode == ProxyMode::Reverse,
            r.upstream_proxy is None && r.authentication is None,
            r.connection_pool.max_idle_per_host == 32 && r.connection_pool.idle_timeout_seconds == 90
                && r.connection_pool.max_lifetime_seconds == 3600,
            r.headers.add_forwarded_headers && r.headers.add_real_ip && r.headers.add_proxy_headers,
            !r.headers.preserve_host,
            r.headers.remove_headers@.len() == 2 && r.headers.remove_headers@[0]@ == "Connection"@
                && r.headers.remove_headers@[1]@ == "Upgrade"@,
            r.headers.add_headers@.len() == 0,
            r.headers.via_header matches Some(v) && v@ == "miwidothttp/1.0"@,
            r.timeout.connect_timeout_seconds == 10 && r.timeout.read_timeout_seconds == 30,
            r.limits.max_request_size == 100 * 1024 * 1024 && r.limits.rate_limit_per_ip == Some(1000u32),
    {
        ProxyConfig {
            mode: ProxyMode::Reverse,
            upstream_proxy: None,
            authentication: None,
            connection_pool: ConnectionPoolConfig {
                max_idle_per_host: 32,
                idle_timeout_seconds: 90,
                max_lifetime_seconds: 3600,
                http2: true,
                keep_alive: true,
            },
            headers: HeaderConfig {
                preserve_host: false,
                add_forwarded_headers: true,
                add_real_ip: true,
                add_proxy_headers: true,
                remove_headers: vec!["Connection".to_owned(), "Upgrade".to_owned()],
                add_headers: Vec::new(),
                via_header: Some("miwidothttp/1.0".to_owned()),
            },
            timeout: TimeoutConfig {
                connect_timeout_seconds: 10,
                read_timeout_seconds: 30,
                write_timeout_seconds: 30,
                idle_timeout_seconds: 90,
            },
            limits: ProxyLimits {
                max_request_size: 100 * 1024 * 1024,
                max_response_size: 100 * 1024 * 1024,
                max_concurrent_connections: 10000,
                rate_limit_per_ip: Some(1000),
                bandwidth_limit_kbps: None,
            },
            logging: ProxyLogging {
                log_requests: true,
                log_responses: false,
                log_headers: false,
                log_body: false,
                max_body_size: 4096,
            },
        }
    }
}

/// The CONNECT target `host:port`, port 443 when none is given.
pub fn connect_target(host: &str, port: Option<u16>) -> (r: String)
    ensures
        r@ == host@ + seq![':'] + crate::text::decimal(
            match port {
                Some(p) => p as nat,
                None => 443,
            },
        ),
{
    let mut v = chars_of(host);
    v.push(':');
    let p: u16 = match port {
        Some(p) => p,
        None => 443,
    };
    push_all(&mut v, &crate::text::decimal_of(p as u64));
    string_of(&v)
}

/// The CONNECT request sent to an upstream proxy, with Basic credentials when configured.
pub open spec fn connect_request_text(target: Seq<char>, auth: Option<ProxyAuth>) -> Seq<char> {
    "CONNECT "@ + target + " HTTP/1.1\r\nHost: "@ + target + "\r\n"@ + match auth {
        Some(a) => "Proxy-Authorization: Basic "@ + crate::session::base64_encoded(
            str_bytes(a.username@ + seq![':'] + a.password@),
        ) + "\r\n"@,
        None => Seq::empty(),
    } + "\r\n"@
}

pub fn upstream_connect_request(target: &str, auth: &Option<ProxyAuth>) -> (r: String)
    ensures
        r@ == connect_request_text(target@, *auth),
{
    let mut v = chars_of("CONNECT ");
    push_all(&mut v, &chars_of(target));
    push_all(&mut v, &chars_of(" HTTP/1.1\r\nHost: "));
    push_all(&mut v, &chars_of(target));
    push_all(&mut v, &chars_of("\r\n"));
    match auth {
        Some(a) => {
            let mut cred = chars_of(a.username.as_str());
            cred.push(':');
            push_all(&mut cred, &chars_of(a.password.as_str()));
            assert(cred@ =~= a.username@ + seq![':'] + a.password@);
            let cs = string_of(&cred);
            let bytes = cs.as_str().as_bytes();
            let mut b: Vec<u8> = Vec::new();
            let mut i: usize = 0;
            while i < bytes.len()
                invariant
                    i <= bytes@.len(),
                    b@ == bytes@.take(i as int),
                decreases bytes@.len() - i,
            {
                b.push(bytes[i]);
                i = i + 1;
                assert(b@ =~= bytes@.take(i as int));
            }
            assert(b@ =~= bytes@);
            push_all(&mut v, &chars_of("Proxy-Authorization: Basic "));
            push_all(&mut v, &chars_of(crate::session::encode_base64(&b).as_str()));
            push_all(&mut v, &chars_of("\r\n"));
        },
        None => {},
    }
    push_all(&mut v, &chars_of("\r\n"));
    assert(v@ =~= connect_request_text(target@, *auth));
    string_of(&v)
}

/// `i` is the first space of the status line of `r` (no line feed before it).
pub open spec fn status_space(r: Seq<u8>, i: int) -> bool {
    0 <= i < r.len() && r[i] == 32 && forall|k: int| 0 <= k < i ==> #[trigger] r[k] != 32 && r[k] != 10
}

/// Whether an upstream proxy's reply accepts the tunnel: its status line is
/// `HTTP/...` with the status code 200.
pub open spec fn upstream_accepts(reply: Seq<u8>) -> bool {
    &&& reply.len() >= 5
    &&& reply.take(5) == seq![72u8, 84u8, 84u8, 80u8, 47u8]
    &&& exists|i: int|
        status_space(reply, i) && i + 4 <= reply.len() && reply[i + 1] == 50 && reply[i + 2] == 48
            && reply[i + 3] == 48 && (i + 4 == reply.len() || reply[i + 4] == 32 || reply[i + 4] == 13
            || reply[i + 4] == 10)
}

pub fn upstream_accepted(reply: &Vec<u8>) -> (r: bool)
    ensures
        r == upstream_accepts(reply@),
{
    let n = reply.len();
    let http: Vec<u8> = vec![72, 84, 84, 80, 47];
    if n < 5 || !buf_starts_with(reply, &http) {
        assert(http@ =~= seq![72u8, 84u8, 84u8, 80u8, 47u8]);
        return false;
    }
    assert(http@ =~= seq![72u8, 84u8, 84u8, 80u8, 47u8]);
    let mut i: usize = 0;
    while i < n && reply[i] != 32 && reply[i] != 10
        invariant
            n == reply@.len(),
            i <= n,
            forall|k: int| 0 <= k < i ==> #[trigger] reply@[k] != 32 && reply@[k] != 10,
        decreases n - i,
    {
        i = i + 1;
    }
    if i == n || reply[i] == 10 {
        assert(!exists|j: int| status_space(reply@, j)) by {
            if exists|j: int| status_space(reply@, j) {
                let j = choose|j: int| status_space(reply@, j);
                if j < i {
                    assert(reply@[j] != 32);
                } else if j > i {
                    assert(i < n);
                    assert(reply@[i as int] != 10);
                }
            }
        }
        return false;
    }
    assert(status_space(reply@, i as int));
    assert forall|j: int| status_space(reply@, j) implies j == i by {
        if j < i {
            assert(reply@[j] != 32);
        } else if j > i {
            assert(reply@[i as int] != 32);
        }
    }
    if n - i < 4 {
        return false;
    }
    reply[i + 1] == 50 && reply[i + 2] == 48 && reply[i + 3] == 48 && (i + 4 == n || reply[i + 4] == 32
        || reply[i + 4] == 13 || reply[i + 4] == 10)
}

/// The request line target and the headers of a reverse-proxied request:
/// the backend address followed by the path and query, and the client's
/// headers without `Host`, `Content-Length` and the hop-by-hop ones.
pub fn upstream_request(
    backend_url: &str,
    path_and_query: &str,
    headers: &Vec<(String, String)>,
    hop_by_hop: &Vec<String>,
) -> (r: (String, Vec<(String, String)>))
    ensures
        r.0@ == backend_url@ + path_and_query@,
        pairs_view(r.1@) == remove_all(
            without(without(pairs_view(headers@), "host"@), "content-length"@),
            hop_by_hop@,
        ),
{
    let mut url = chars_of(backend_url);
    push_all(&mut url, &chars_of(path_and_query));
    let mut hs: Vec<(String, String)> = Vec::new();
    let mut i: usize = 0;
    while i < headers.len()
        invariant
            i <= headers@.len(),
            pairs_view(hs@) == pairs_view(headers@.take(i as int)),
        decreases headers@.len() - i,
    {
        let ghost prev = pairs_view(hs@);
        hs.push((headers[i].0.clone(), headers[i].1.clone()));
        assert(pairs_view(hs@) =~= prev.push((headers@[i as int].0@, headers@[i as int].1@)));
        i = i + 1;
        assert(pairs_view(headers@.take(i as int)) =~= pairs_view(headers@.take(i - 1)).push(
            (headers@[i - 1].0@, headers@[i - 1].1@),
        ));
    }
    assert(headers@.take(i as int) =~= headers@);
    remove_header(&mut hs, &chars_of("host"));
    remove_header(&mut hs, &chars_of("content-length"));
    let ghost base = pairs_view(hs@);
    let mut k: usize = 0;
    while k < hop_by_hop.len()
        invariant
            k <= hop_by_hop@.len(),
            pairs_view(hs@) == remove_all(base, hop_by_hop@.take(k as int)),
        decreases hop_by_hop@.len() - k,
    {
        remove_header(&mut hs, &chars_of(hop_by_hop[k].as_str()));
        k = k + 1;
        assert(hop_by_hop@.take(k as int).drop_last() =~= hop_by_hop@.take(k - 1));
    }
    assert(hop_by_hop@.take(k as int) =~= hop_by_hop@);
    (string_of(&url), hs)
}

/// Where a host's backend listens: its configured target, else the local
/// port of the process that serves it.
pub fn backend_target(target: &Option<String>, port: Option<u16>) -> (r: Option<String>)
    ensures
        match *target {
            Some(t) => r matches Some(x) && x@ == t@,
            None => match port {
                Some(p) => r matches Some(x) && x@ == "http://localhost:"@ + crate::text::decimal(p as nat),
                None => r is None,
            },
        },
{
    match target {
        Some(t) => Some(t.clone()),
        None => match port {
            Some(p) => {
                let mut v = chars_of("http://localhost:");
                push_all(&mut v, &crate::text::decimal_of(p as u64));
                Some(string_of(&v))
            },
            None => None,
        },
    }
}

impl ProxyConfig {
    /// Whether a forward-proxy request may pass: always without configured
    /// credentials, else only with a `Proxy-Authorization` header that they accept.
    pub fn authenticate_request(&self, headers: &Vec<(String, String)>) -> (r: bool)
        ensures
            match self.authentication {
                None => r,
                Some(auth) => match first_value(pairs_view(headers@), "proxy-authorization"@) {
                    None => !r,
                    Some(h) => (basic_token(h) is None ==> !r) && (basic_token(h) matches Some(t) ==> r
                        == credentials_accepted(base64_decoded(t), auth)),
                },
            },
    {
        let auth = match &self.authentication {
            Some(a) => a,
            None => {
                return true;
            },
        };
        match first_value_of(headers, &chars_of("proxy-authorization")) {
            Some(h) => validate_proxy_auth(h.as_str(), auth),
            None => false,
        }
    }
}

} // verus!
