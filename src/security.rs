//! Response hardening and request admission: security headers, a sliding
//! window rate limiter per client, and request size ceilings.
use crate::proxy::{first_value, first_value_of, insert_header, set_header};
use crate::rewrite::pairs_view;
use crate::text::{chars_of, decimal, decimal_of, eq_chars, push_all, string_of};
use crate::vhost::{digits_val, is_digit_char};
use vstd::prelude::*;
use vstd::utf8::encode_utf8;

verus! {

#[derive(Clone, Debug)]
pub struct SecurityConfig {
    pub enable_hsts: bool,
    pub hsts_max_age: u32,
    pub enable_csp: bool,
    pub csp_policy: String,
    pub enable_rate_limiting: bool,
    pub rate_limit_requests: u32,
    /// Length of the rate-limit window, in milliseconds.
    pub rate_limit_window_ms: u64,
    pub max_body_size: usize,
    pub max_header_size: usize,
}

impl Default for SecurityConfig {
    fn default() -> (r: Self)
        ensures
            r.enable_hsts && r.hsts_max_age == 31536000,
            r.enable_csp,
            r.csp_policy@ == "default-src 'self'; script-src 'self' 'unsafe-inline'; style-src 'self' 'unsafe-inline'"@,
            r.enable_rate_limiting && r.rate_limit_requests == 100 && r.rate_limit_window_ms == 60000,
            r.max_body_size == 10 * 1024 * 1024 && r.max_header_size == 8192,
    {
        SecurityConfig {
            enable_hsts: true,
            hsts_max_age: 31536000,
            enable_csp: true,
            csp_policy: "default-src 'self'; script-src 'self' 'unsafe-inline'; style-src 'self' 'unsafe-inline'".to_owned(),
            enable_rate_limiting: true,
            rate_limit_requests: 100,
            rate_limit_window_ms: 60000,
            max_body_size: 10 * 1024 * 1024,
            max_header_size: 8192,
        }
    }
}

/// The headers every response carries, then HSTS and CSP when configured.
pub open spec fn secured(cfg: SecurityConfig, hs: Seq<(Seq<char>, Seq<char>)>) -> Seq<(Seq<char>, Seq<char>)> {
    let a = set_header(hs, "X-Frame-Options"@, "DENY"@);
    let b = set_header(a, "X-Content-Type-Options"@, "nosniff"@);
    let c = set_header(b, "X-XSS-Protection"@, "1; mode=block"@);
    let d = set_header(c, "Referrer-Policy"@, "strict-origin-when-cross-origin"@);
    let e = set_header(d, "Permissions-Policy"@, "geolocation=(), microphone=(), camera=()"@);
    let f = if cfg.enable_hsts {
        set_header(e, "Strict-Transport-Security"@, "max-age="@ + decimal(cfg.hsts_max_age as nat) + "; includeSubDomains; preload"@)
    } else {
        e
    };
    if cfg.enable_csp {
        set_header(f, "Content-Security-Policy"@, cfg.csp_policy@)
    } else {
        f
    }
}

impl SecurityConfig {
    /// Adds the security headers of a response.
    pub fn add_security_headers(&self, headers: &mut Vec<(String, String)>)
        ensures
            pairs_view(final(headers)@) == secured(*self, pairs_view(old(headers)@)),
    {
        insert_header(headers, "X-Frame-Options", "DENY".to_owned());
        insert_header(headers, "X-Content-Type-Options", "nosniff".to_owned());
        insert_header(headers, "X-XSS-Protection", "1; mode=block".to_owned());
        insert_header(headers, "Referrer-Policy", "strict-origin-when-cross-origin".to_owned());
        insert_header(headers, "Permissions-Policy", "geolocation=(), microphone=(), camera=()".to_owned());
        if self.enable_hsts {
            let mut v = chars_of("max-age=");
            push_all(&mut v, &decimal_of(self.hsts_max_age as u64));
            push_all(&mut v, &chars_of("; includeSubDomains; preload"));
            insert_header(headers, "Strict-Transport-Security", string_of(&v));
        }
        if self.enable_csp {
            insert_header(headers, "Content-Security-Policy", self.csp_policy.clone());
        }
    }
}

pub open spec fn str_len(s: Seq<char>) -> nat {
    encode_utf8(s).len()
}

/// Total size of the header names and values, in bytes.
pub open spec fn header_bytes(hs: Seq<(Seq<char>, Seq<char>)>) -> nat
    decreases hs.len(),
{
    if hs.len() == 0 {
        0
    } else {
        header_bytes(hs.drop_last()) + str_len(hs.last().0) + str_len(hs.last().1)
    }
}

/// A decimal number that fits `usize`.
pub open spec fn parse_usize(t: Seq<char>) -> Option<nat> {
    if t.len() > 0 && (forall|i: int| 0 <= i < t.len() ==> is_digit_char(#[trigger] t[i])) && digits_val(t)
        <= usize::MAX {
        Some(digits_val(t))
    } else {
        None
    }
}

/// The size ceilings of a request: 431 when the headers are too large, else
/// 413 when the declared body is, else nothing.
pub open spec fn size_verdict(cfg: SecurityConfig, hs: Seq<(Seq<char>, Seq<char>)>) -> Option<u16> {
    if header_bytes(hs) > cfg.max_header_size {
        Some(431)
    } else {
        match first_value(hs, "content-length"@) {
            Some(v) => match parse_usize(v) {
                Some(n) => if n > cfg.max_body_size { Some(413) } else { None },
                None => None,
            },
            None => None,
        }
    }
}

proof fn lemma_digits_mono(t: Seq<char>, k: int)
    requires
        0 <= k <= t.len(),
    ensures
        digits_val(t) >= digits_val(t.take(k)),
    decreases t.len(),
{
    if k < t.len() {
        lemma_digits_mono(t.drop_last(), k);
        assert(t.drop_last().take(k) =~= t.take(k));
    } else {
        assert(t.take(k) =~= t);
    }
}

fn parse_usize_of(t: &Vec<char>) -> (r: Option<usize>)
    ensures
        match r {
            Some(v) => parse_usize(t@) == Some(v as nat),
            None => parse_usize(t@) is None,
        },
{
    if t.len() == 0 {
        return None;
    }
    let mut acc: usize = 0;
    let mut i: usize = 0;
    while i < t.len()
        invariant
            i <= t@.len(),
            forall|k: int| 0 <= k < i ==> is_digit_char(#[trigger] t@[k]),
            acc as nat == digits_val(t@.take(i as int)),
        decreases t@.len() - i,
    {
        let c = t[i];
        if !('0' <= c && c <= '9') {
            assert(!is_digit_char(t@[i as int]));
            return None;
        }
        assert(t@.take(i + 1).drop_last() =~= t@.take(i as int));
        let d = ((c as u32) - 48) as usize;
        if acc > (usize::MAX - d) / 10 {
            proof {
                lemma_digits_mono(t@, i + 1);
                assert(digits_val(t@.take(i + 1)) == acc * 10 + d);
                assert(acc * 10 + d > usize::MAX) by (nonlinear_arith)
                    requires
                        acc > (usize::MAX - d) / 10,
                        d <= 9,
                ;
            }
            return None;
        }
        acc = acc * 10 + d;
        i = i + 1;
    }
    assert(t@.take(i as int) =~= t@);
    Some(acc)
}

/// Checks the size ceilings of a request.
pub fn check_request_size(cfg: &SecurityConfig, headers: &Vec<(String, String)>) -> (r: Option<u16>)
    ensures
        r == size_verdict(*cfg, pairs_view(headers@)),
{
    let ghost hs = pairs_view(headers@);
    let mut total: usize = 0;
    let mut over = false;
    let mut i: usize = 0;
    while i < headers.len()
        invariant
            hs == pairs_view(headers@),
            i <= headers@.len(),
            !over ==> total as nat == header_bytes(hs.take(i as int)) && total <= cfg.max_header_size,
            over ==> header_bytes(hs.take(i as int)) > cfg.max_header_size,
        decreases headers@.len() - i,
    {
        assert(hs.take(i + 1).drop_last() =~= hs.take(i as int));
        assert(hs.take(i + 1).last() == hs[i as int]);
        assert(hs[i as int] == (headers@[i as int].0@, headers@[i as int].1@));
        let n = headers[i].0.as_str().as_bytes().len();
        let v = headers[i].1.as_str().as_bytes().len();
        if !over {
            if n > cfg.max_header_size - total || v > cfg.max_header_size - total - n {
                over = true;
            } else {
                total = total + n + v;
            }
        }
        i = i + 1;
    }
    assert(hs.take(i as int) =~= hs);
    if over {
        return Some(431);
    }
    match first_value_of(headers, &chars_of("content-length")) {
        Some(v) => match parse_usize_of(&chars_of(v.as_str())) {
            Some(n) => if n > cfg.max_body_size {
                Some(413)
            } else {
                None
            },
            None => None,
        },
        None => None,
    }
}

/// The request times, in milliseconds, kept for each client.
pub struct RateLimiter {
    requests: Vec<(String, Vec<u64>)>,
    config: SecurityConfig,
}

pub open spec fn times_of(rs: Seq<(String, Vec<u64>)>, ip: Seq<char>) -> Seq<u64>
    decreases rs.len(),
{
    if rs.len() == 0 {
        Seq::empty()
    } else if rs[0].0@ == ip {
        rs[0].1@
    } else {
        times_of(rs.skip(1), ip)
    }
}

/// The times still inside the window that ends at `now`.
pub open spec fn recent(ts: Seq<u64>, now: u64, window: u64) -> Seq<u64>
    decreases ts.len(),
{
    if ts.len() == 0 {
        ts
    } else {
        let p = recent(ts.drop_last(), now, window);
        if now < ts.last() || now - ts.last() < window {
            p.push(ts.last())
        } else {
            p
        }
    }
}

impl RateLimiter {
    fn index_of(&self, ip: &str) -> (r: Option<usize>)
        ensures
            match r {
                Some(i) => i < self.requests@.len() && self.requests@[i as int].0@ == ip@ && times_of(
                    self.requests@,
                    ip@,
                ) == self.requests@[i as int].1@ && forall|k: int|
                    0 <= k < i ==> self.requests@[k].0@ != ip@,
                None => times_of(self.requests@, ip@) == Seq::<u64>::empty() && forall|k: int|
                    0 <= k < self.requests@.len() ==> self.requests@[k].0@ != ip@,
            },
    {
        let key = chars_of(ip);
        let ghost rs = self.requests@;
        let mut i: usize = 0;
        assert(rs.skip(0) =~= rs);
        while i < self.requests.len()
            invariant
                rs == self.requests@,
                key@ == ip@,
                i <= rs.len(),
                times_of(rs, ip@) == times_of(rs.skip(i as int), ip@),
                forall|k: int| 0 <= k < i ==> rs[k].0@ != ip@,
            decreases rs.len() - i,
        {
            assert(rs.skip(i as int).skip(1) =~= rs.skip(i + 1));
            assert(rs.skip(i as int)[0] == rs[i as int]);
            if eq_chars(&chars_of(self.requests[i].0.as_str()), &key) {
                return Some(i);
            }
            i = i + 1;
        }
        None
    }

    pub closed spec fn times(&self, ip: Seq<char>) -> Seq<u64> {
        times_of(self.requests@, ip)
    }

    pub closed spec fn config(&self) -> SecurityConfig {
        self.config
    }

    pub fn window_ms(&self) -> (r: u64)
        ensures
            r == self.config().rate_limit_window_ms,
    {
        self.config.rate_limit_window_ms
    }

    pub fn new(config: SecurityConfig) -> (r: Self)
        ensures
            r.config() == config,
            forall|ip: Seq<char>| r.times(ip).len() == 0,
    {
        RateLimiter { requests: Vec::new(), config }
    }

    /// Sliding-window admission of a request from `ip` at `now_ms`: the
    /// client's times leave the window as it moves; a request is admitted,
    /// and recorded, while fewer than the limit remain in it.
    pub fn check_rate_limit(&mut self, ip: &str, now_ms: u64) -> (r: bool)
        ensures
            final(self).config() == old(self).config(),
            !old(self).config().enable_rate_limiting ==> r && final(self).times(ip@) == old(self).times(ip@),
            old(self).config().enable_rate_limiting ==> {
                let w = recent(old(self).times(ip@), now_ms, old(self).config().rate_limit_window_ms);
                &&& r == (w.len() < old(self).config().rate_limit_requests)
                &&& final(self).times(ip@) == if r { w.push(now_ms) } else { w }
            },
    {
        if !self.config.enable_rate_limiting {
            return true;
        }
        let ghost rs = self.requests@;
        let found = self.index_of(ip);
        let i: usize = match found {
            Some(k) => k,
            None => self.requests.len(),
        };
        let old_times: Vec<u64> = match found {
            Some(k) => self.requests[k].1.clone(),
            None => Vec::new(),
        };
        let window = self.config.rate_limit_window_ms;
        let mut kept: Vec<u64> = Vec::new();
        let mut j: usize = 0;
        while j < old_times.len()
            invariant
                j <= old_times@.len(),
                kept@ == recent(old_times@.take(j as int), now_ms, window),
            decreases old_times@.len() - j,
        {
            assert(old_times@.take(j + 1).drop_last() =~= old_times@.take(j as int));
            let t = old_times[j];
            if now_ms < t || now_ms - t < window {
                kept.push(t);
            }
            j = j + 1;
        }
        assert(old_times@.take(j as int) =~= old_times@);
        let allowed = kept.len() < self.config.rate_limit_requests as usize;
        if allowed {
            kept.push(now_ms);
        }
        let ghost new_times = kept@;
        let entry = (ip.to_owned(), kept);
        if i < self.requests.len() {
            proof {
                lemma_times_update(rs, i as int, ip@, entry);
            }
            self.requests.set(i, entry);
        } else {
            proof {
                lemma_times_push(rs, ip@, entry);
            }
            self.requests.push(entry);
        }
        allowed
    }
}

proof fn lemma_times_update(rs: Seq<(String, Vec<u64>)>, i: int, ip: Seq<char>, e: (String, Vec<u64>))
    requires
        0 <= i < rs.len(),
        rs[i].0@ == ip,
        e.0@ == ip,
        forall|k: int| 0 <= k < i ==> rs[k].0@ != ip,
    ensures
        times_of(rs.update(i, e), ip) == e.1@,
    decreases rs.len(),
{
    if i > 0 {
        let t = rs.skip(1);
        assert forall|k: int| 0 <= k < i - 1 implies t[k].0@ != ip by {
            assert(t[k] == rs[k + 1]);
        }
        lemma_times_update(t, i - 1, ip, e);
        assert(rs.update(i, e).skip(1) =~= t.update(i - 1, e));
    }
}

proof fn lemma_times_push(rs: Seq<(String, Vec<u64>)>, ip: Seq<char>, e: (String, Vec<u64>))
    requires
        e.0@ == ip,
        forall|k: int| 0 <= k < rs.len() ==> rs[k].0@ != ip,
    ensures
        times_of(rs.push(e), ip) == e.1@,
    decreases rs.len(),
{
    if rs.len() > 0 {
        let t = rs.skip(1);
        assert forall|k: int| 0 <= k < t.len() implies t[k].0@ != ip by {
            assert(t[k] == rs[k + 1]);
        }
        lemma_times_push(t, ip, e);
        assert(rs.push(e).skip(1) =~= t.push(e));
    } else {
        assert(rs.push(e)[0] == e);
    }
}

} // verus!
