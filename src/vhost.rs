//! Virtual-host registry: resolves a host name to the virtual host that
//! serves it, and answers access-control questions for that host.
use crate::pattern::{captures, compiles, escape, match_groups, regex_escaped, regex_valid};
use crate::rewrite::{one_char, RewriteRule};
use crate::text::{
    chars_of, contains_char, eq_chars, find_char, push_all, replace_all, replaced, slice,
    starts_with, string_of,
};
use vstd::arithmetic::power2::{
    lemma2_to64, lemma_pow2_pos, lemma_pow2_strictly_increases, lemma_pow2_unfold, pow2,
};
use vstd::prelude::*;

verus! {

#[derive(Clone, Copy, Debug, PartialEq, Eq, Structural)]
pub enum ClientAuth {
    /// No client certificate is asked for.
    Off,
    Optional,
    Required,
}

#[derive(Clone, Debug)]
pub struct VHostSSL {
    pub cert_path: Option<String>,
    pub key_path: Option<String>,
    pub client_auth: Option<ClientAuth>,
    pub protocols: Option<Vec<String>>,
    pub ciphers: Option<String>,
}

#[derive(Clone, Copy, Debug, PartialEq, Eq, Structural)]
pub enum LoadBalanceStrategy {
    RoundRobin,
    LeastConn,
    IpHash,
    Random,
    Weighted,
}

#[derive(Clone, Copy, Debug)]
pub struct RetryConfig {
    pub attempts: u32,
    pub delay_ms: u64,
    pub backoff: bool,
}

#[derive(Clone, Debug)]
pub struct VHostBackend {
    pub urls: Vec<String>,
    pub strategy: LoadBalanceStrategy,
    pub health_check: Option<String>,
    pub timeout: Option<u64>,
    pub retry: Option<RetryConfig>,
}

#[derive(Clone, Debug)]
pub struct VHostLogging {
    pub access_log: Option<String>,
    pub error_log: Option<String>,
    pub format: Option<String>,
}

#[derive(Clone, Debug)]
pub struct VHostLimits {
    pub rate_limit: Option<u32>,
    pub max_connections: Option<u32>,
    pub max_request_size: Option<String>,
    pub timeout: Option<u64>,
}

#[derive(Clone, Debug)]
pub struct Redirect {
    pub from: String,
    pub to: String,
    pub status: u16,
    pub permanent: bool,
}

#[derive(Clone, Copy, Debug, PartialEq, Eq, Structural)]
pub enum AuthType {
    Basic,
    Bearer,
    Digest,
}

#[derive(Clone, Debug)]
pub struct AuthConfig {
    pub auth_type: AuthType,
    pub realm: String,
    pub users: Option<Vec<(String, String)>>,
}

#[derive(Clone, Debug)]
pub struct AccessControl {
    pub allow: Option<Vec<String>>,
    pub deny: Option<Vec<String>>,
    pub auth: Option<AuthConfig>,
}

#[derive(Clone, Debug)]
pub struct VirtualHost {
    pub domains: Vec<String>,
    pub priority: i32,
    pub ssl: Option<VHostSSL>,
    pub root: Option<String>,
    pub backend: Option<VHostBackend>,
    pub logging: Option<VHostLogging>,
    pub limits: Option<VHostLimits>,
    pub headers: Option<Vec<(String, String)>>,
    pub error_pages: Option<Vec<(u16, String)>>,
    pub redirects: Option<Vec<Redirect>>,
    pub rewrites: Option<Vec<RewriteRule>>,
    pub access_control: Option<AccessControl>,
}

/// `_` and `default` name the host that serves every name no other host claims.
pub open spec fn is_default_domain(d: Seq<char>) -> bool {
    d == "_"@ || d == "default"@
}

pub open spec fn is_wildcard_domain(d: Seq<char>) -> bool {
    !is_default_domain(d) && contains_char(d, '*')
}

pub open spec fn is_exact_domain(d: Seq<char>) -> bool {
    !is_default_domain(d) && !contains_char(d, '*')
}

/// The regular expression of a wildcard domain: the domain escaped, with
/// each `*` standing for one label.
pub open spec fn wildcard_regex(d: Seq<char>) -> Seq<char> {
    seq!['^'] + replaced(regex_escaped(d), seq!['\\', '*'], "[^.]+"@) + seq!['$']
}

pub open spec fn exact_hit(v: VirtualHost, h: Seq<char>) -> bool {
    exists|k: int| 0 <= k < v.domains@.len() && is_exact_domain(v.domains@[k]@) && v.domains@[k]@ == h
}

pub open spec fn wildcard_hit(v: VirtualHost, h: Seq<char>) -> bool {
    exists|k: int|
        0 <= k < v.domains@.len() && is_wildcard_domain(#[trigger] v.domains@[k]@) && match_groups(
            wildcard_regex(v.domains@[k]@),
            h,
        ) is Some
}

pub open spec fn default_hit(v: VirtualHost) -> bool {
    exists|k: int| 0 <= k < v.domains@.len() && is_default_domain(#[trigger] v.domains@[k]@)
}

/// `vs[i]` has the property, and no host with the property ranks above it:
/// higher priority first, then the earlier one.
pub open spec fn best(vs: Seq<VirtualHost>, i: int, p: spec_fn(VirtualHost) -> bool) -> bool {
    &&& 0 <= i < vs.len()
    &&& p(vs[i])
    &&& forall|j: int|
        0 <= j < vs.len() && #[trigger] p(vs[j]) ==> vs[j].priority < vs[i].priority || (vs[j].priority
            == vs[i].priority && i <= j)
}

pub open spec fn has_best(vs: Seq<VirtualHost>, p: spec_fn(VirtualHost) -> bool) -> bool {
    exists|i: int| best(vs, i, p)
}

pub open spec fn the_best(vs: Seq<VirtualHost>, p: spec_fn(VirtualHost) -> bool) -> int {
    choose|i: int| best(vs, i, p)
}

pub open spec fn exact_pred(h: Seq<char>) -> spec_fn(VirtualHost) -> bool {
    |v: VirtualHost| exact_hit(v, h)
}

pub open spec fn wildcard_pred(h: Seq<char>) -> spec_fn(VirtualHost) -> bool {
    |v: VirtualHost| wildcard_hit(v, h)
}

pub open spec fn default_pred() -> spec_fn(VirtualHost) -> bool {
    |v: VirtualHost| default_hit(v)
}

/// The host that serves `h`: the best exact match, else the best wildcard
/// match, else the best default host.
pub open spec fn resolve_host(vs: Seq<VirtualHost>, h: Seq<char>) -> Option<int> {
    let ex = exact_pred(h);
    let wi = wildcard_pred(h);
    let de = default_pred();
    if has_best(vs, ex) {
        Some(the_best(vs, ex))
    } else if has_best(vs, wi) {
        Some(the_best(vs, wi))
    } else if has_best(vs, de) {
        Some(the_best(vs, de))
    } else {
        None
    }
}

/// At most one host is best for a property.
pub proof fn lemma_best_unique(vs: Seq<VirtualHost>, i: int, j: int, p: spec_fn(VirtualHost) -> bool)
    requires
        best(vs, i, p),
        best(vs, j, p),
    ensures
        i == j,
{
    assert(p(vs[j]));
    assert(p(vs[i]));
}

/// Some host with the property is best, when one has it.
proof fn lemma_best_exists(vs: Seq<VirtualHost>, p: spec_fn(VirtualHost) -> bool, n: int)
    requires
        0 < n <= vs.len(),
        exists|k: int| 0 <= k < n && #[trigger] p(vs[k]),
    ensures
        exists|i: int|
            0 <= i < n && p(vs[i]) && forall|j: int|
                0 <= j < n && #[trigger] p(vs[j]) ==> vs[j].priority < vs[i].priority || (
                vs[j].priority == vs[i].priority && i <= j),
    decreases n,
{
    if n > 1 && exists|k: int| 0 <= k < n - 1 && #[trigger] p(vs[k]) {
        lemma_best_exists(vs, p, n - 1);
        let i = choose|i: int|
            0 <= i < n - 1 && p(vs[i]) && forall|j: int|
                0 <= j < n - 1 && #[trigger] p(vs[j]) ==> vs[j].priority < vs[i].priority || (
                vs[j].priority == vs[i].priority && i <= j);
        if p(vs[n - 1]) && vs[n - 1].priority > vs[i].priority {
            assert(forall|j: int|
                0 <= j < n && #[trigger] p(vs[j]) ==> vs[j].priority < vs[n - 1].priority || (
                vs[j].priority == vs[n - 1].priority && n - 1 <= j));
        } else {
            assert(forall|j: int|
                0 <= j < n && #[trigger] p(vs[j]) ==> vs[j].priority < vs[i].priority || (
                vs[j].priority == vs[i].priority && i <= j));
        }
    } else {
        let i = choose|k: int| 0 <= k < n && #[trigger] p(vs[k]);
        assert(i == n - 1);
        assert(forall|j: int|
            0 <= j < n && #[trigger] p(vs[j]) ==> j == n - 1);
    }
}

proof fn lemma_has_best(vs: Seq<VirtualHost>, p: spec_fn(VirtualHost) -> bool, k: int)
    requires
        0 <= k < vs.len(),
        p(vs[k]),
    ensures
        has_best(vs, p),
{
    lemma_best_exists(vs, p, vs.len() as int);
    let i = choose|i: int|
        0 <= i < vs.len() && p(vs[i]) && forall|j: int|
            0 <= j < vs.len() && #[trigger] p(vs[j]) ==> vs[j].priority < vs[i].priority || (
            vs[j].priority == vs[i].priority && i <= j);
    assert(best(vs, i, p));
}

/// Every host name resolves to at most one host, determined by the
/// registered hosts and the name; a name that resolves to nothing meets no
/// exact, wildcard or default host.
pub proof fn lemma_resolution_unique(vs: Seq<VirtualHost>, h: Seq<char>)
    ensures
        resolve_host(vs, h) matches Some(k) ==> 0 <= k < vs.len(),
        resolve_host(vs, h) is None ==> forall|k: int|
            0 <= k < vs.len() ==> !exact_hit(#[trigger] vs[k], h) && !wildcard_hit(vs[k], h)
                && !default_hit(vs[k]),
{
    let ex = exact_pred(h);
    let wi = wildcard_pred(h);
    let de = default_pred();
    if resolve_host(vs, h) is None {
        assert forall|k: int| 0 <= k < vs.len() implies !exact_hit(#[trigger] vs[k], h) && !wildcard_hit(
            vs[k],
            h,
        ) && !default_hit(vs[k]) by {
            if ex(vs[k]) {
                lemma_has_best(vs, ex, k);
            }
            if wi(vs[k]) {
                lemma_has_best(vs, wi, k);
            }
            if de(vs[k]) {
                lemma_has_best(vs, de, k);
            }
        }
    }
}

#[derive(Clone, Debug)]
pub enum VHostError {
    /// A wildcard domain whose regular expression does not compile.
    InvalidDomainPattern { domain: String },
}

/// Which of the three kinds of match a scan looks for.
#[derive(Clone, Copy, PartialEq, Eq, Structural)]
enum HitKind {
    Exact,
    Wildcard,
    Default,
}

spec fn kind_pred(kind: HitKind, h: Seq<char>) -> spec_fn(VirtualHost) -> bool {
    match kind {
        HitKind::Exact => exact_pred(h),
        HitKind::Wildcard => wildcard_pred(h),
        HitKind::Default => default_pred(),
    }
}

pub open spec fn wildcards_compile(vs: Seq<VirtualHost>) -> bool {
    forall|i: int, k: int|
        0 <= i < vs.len() && 0 <= k < vs[i].domains@.len() && is_wildcard_domain(
            #[trigger] vs[i].domains@[k]@,
        ) ==> regex_valid(wildcard_regex(vs[i].domains@[k]@))
}

fn is_default_of(d: &Vec<char>) -> (r: bool)
    ensures
        r == is_default_domain(d@),
{
    eq_chars(d, &chars_of("_")) || eq_chars(d, &chars_of("default"))
}

/// The regular expression of a wildcard domain.
pub fn domain_to_regex(domain: &String) -> (r: String)
    ensures
        r@ == wildcard_regex(domain@),
{
    let escaped = chars_of(escape(domain.as_str()).as_str());
    let mut star = one_char('\\');
    star.push('*');
    assert(star@ =~= seq!['\\', '*']);
    let body = replace_all(&escaped, &star, &chars_of("[^.]+"));
    let mut r = one_char('^');
    push_all(&mut r, &body);
    r.push('$');
    assert(r@ =~= wildcard_regex(domain@));
    string_of(&r)
}

fn hits(v: &VirtualHost, h: &Vec<char>, kind: HitKind) -> (r: bool)
    ensures
        r == kind_pred(kind, h@)(*v),
{
    let mut k: usize = 0;
    while k < v.domains.len()
        invariant
            k <= v.domains@.len(),
            forall|j: int|
                0 <= j < k ==> !(match kind {
                    HitKind::Exact => is_exact_domain(v.domains@[j]@) && v.domains@[j]@ == h@,
                    HitKind::Wildcard => is_wildcard_domain(v.domains@[j]@) && match_groups(
                        wildcard_regex(v.domains@[j]@),
                        h@,
                    ) is Some,
                    HitKind::Default => is_default_domain(v.domains@[j]@),
                }),
        decreases v.domains@.len() - k,
    {
        let d = chars_of(v.domains[k].as_str());
        let dflt = is_default_of(&d);
        let wild = !dflt && find_char(&d, '*').is_some();
        let hit = match kind {
            HitKind::Exact => !dflt && !wild && eq_chars(&d, h),
            HitKind::Wildcard => wild && captures(
                domain_to_regex(&v.domains[k]).as_str(),
                string_of(h).as_str(),
            ).is_some(),
            HitKind::Default => dflt,
        };
        if hit {
            return true;
        }
        k = k + 1;
    }
    false
}

pub struct VHostManager {
    vhosts: Vec<VirtualHost>,
}

impl VHostManager {
    pub closed spec fn vhosts(&self) -> Seq<VirtualHost> {
        self.vhosts@
    }

    /// Builds the registry; it is refused when a wildcard domain does not
    /// give a regular expression that compiles.
    pub fn new(vhosts: Vec<VirtualHost>) -> (r: Result<Self, VHostError>)
        ensures
            r is Ok <==> wildcards_compile(vhosts@),
            r matches Ok(m) ==> m.vhosts() == vhosts@,
    {
        let mut i: usize = 0;
        while i < vhosts.len()
            invariant
                i <= vhosts@.len(),
                forall|a: int, k: int|
                    0 <= a < i && 0 <= k < vhosts@[a].domains@.len() && is_wildcard_domain(
                        #[trigger] vhosts@[a].domains@[k]@,
                    ) ==> regex_valid(wildcard_regex(vhosts@[a].domains@[k]@)),
            decreases vhosts@.len() - i,
        {
            let v = &vhosts[i];
            let mut k: usize = 0;
            while k < v.domains.len()
                invariant
                    i < vhosts@.len(),
                    *v == vhosts@[i as int],
                    k <= v.domains@.len(),
                    forall|a: int, k: int|
                        0 <= a < i && 0 <= k < vhosts@[a].domains@.len() && is_wildcard_domain(
                            #[trigger] vhosts@[a].domains@[k]@,
                        ) ==> regex_valid(wildcard_regex(vhosts@[a].domains@[k]@)),
                    forall|j: int|
                        0 <= j < k && is_wildcard_domain(#[trigger] v.domains@[j]@) ==> regex_valid(
                            wildcard_regex(v.domains@[j]@),
                        ),
                decreases v.domains@.len() - k,
            {
                let d = chars_of(v.domains[k].as_str());
                if !is_default_of(&d) && find_char(&d, '*').is_some() {
                    if !compiles(domain_to_regex(&v.domains[k]).as_str()) {
                        return Err(VHostError::InvalidDomainPattern { domain: v.domains[k].clone() });
                    }
                }
                k = k + 1;
            }
            i = i + 1;
        }
        Ok(VHostManager { vhosts })
    }

    fn best_index(&self, h: &Vec<char>, kind: HitKind) -> (r: Option<usize>)
        ensures
            match r {
                Some(i) => best(self.vhosts(), i as int, kind_pred(kind, h@)),
                None => forall|k: int|
                    0 <= k < self.vhosts().len() ==> !kind_pred(kind, h@)(#[trigger] self.vhosts()[k]),
            },
    {
        let ghost vs = self.vhosts@;
        let ghost p = kind_pred(kind, h@);
        let mut cur: Option<usize> = None;
        let mut i: usize = 0;
        while i < self.vhosts.len()
            invariant
                vs == self.vhosts@,
                p == kind_pred(kind, h@),
                i <= vs.len(),
                match cur {
                    Some(b) => b < i && p(vs[b as int]) && forall|j: int|
                        0 <= j < i && #[trigger] p(vs[j]) ==> vs[j].priority < vs[b as int].priority || (
                        vs[j].priority == vs[b as int].priority && b <= j),
                    None => forall|j: int| 0 <= j < i ==> !#[trigger] p(vs[j]),
                },
            decreases vs.len() - i,
        {
            if hits(&self.vhosts[i], h, kind) {
                match cur {
                    Some(b) => {
                        if self.vhosts[i].priority > self.vhosts[b].priority {
                            cur = Some(i);
                        }
                    },
                    None => {
                        cur = Some(i);
                    },
                }
            }
            i = i + 1;
        }
        cur
    }

    fn resolve_index(&self, hostname: &str) -> (r: Option<usize>)
        ensures
            match r {
                Some(i) => resolve_host(self.vhosts(), hostname@) == Some(i as int),
                None => resolve_host(self.vhosts(), hostname@) is None,
            },
    {
        let h = chars_of(hostname);
        let ghost vs = self.vhosts();
        match self.best_index(&h, HitKind::Exact) {
            Some(i) => {
                proof {
                    lemma_resolve_pick(vs, exact_pred(h@), i as int);
                }
                return Some(i);
            },
            None => {
                proof {
                    lemma_no_best(vs, exact_pred(h@));
                }
            },
        }
        match self.best_index(&h, HitKind::Wildcard) {
            Some(i) => {
                proof {
                    lemma_resolve_pick(vs, wildcard_pred(h@), i as int);
                }
                return Some(i);
            },
            None => {
                proof {
                    lemma_no_best(vs, wildcard_pred(h@));
                }
            },
        }
        match self.best_index(&h, HitKind::Default) {
            Some(i) => {
                proof {
                    lemma_resolve_pick(vs, default_pred(), i as int);
                }
                Some(i)
            },
            None => {
                proof {
                    lemma_no_best(vs, default_pred());
                }
                None
            },
        }
    }

    /// The host that serves `hostname`: exact match, else the best
    /// wildcard match, else the default host.
    pub fn get_vhost(&self, hostname: &str) -> (r: Option<&VirtualHost>)
        ensures
            match r {
                Some(v) => resolve_host(self.vhosts(), hostname@) matches Some(i) && *v
                    == self.vhosts()[i],
                None => resolve_host(self.vhosts(), hostname@) is None,
            },
    {
        match self.resolve_index(hostname) {
            Some(i) => Some(&self.vhosts[i]),
            None => None,
        }
    }
}

proof fn lemma_resolve_pick(vs: Seq<VirtualHost>, p: spec_fn(VirtualHost) -> bool, i: int)
    requires
        best(vs, i, p),
    ensures
        has_best(vs, p),
        the_best(vs, p) == i,
{
    let j = the_best(vs, p);
    lemma_best_unique(vs, i, j, p);
}

proof fn lemma_no_best(vs: Seq<VirtualHost>, p: spec_fn(VirtualHost) -> bool)
    requires
        forall|k: int| 0 <= k < vs.len() ==> !#[trigger] p(vs[k]),
    ensures
        !has_best(vs, p),
{
    if has_best(vs, p) {
        let i = the_best(vs, p);
        assert(p(vs[i]));
    }
}

/// The regular expression of an address pattern with `*`: dots taken
/// literally, each `*` standing for a run of digits.
pub open spec fn ip_wildcard_regex(pat: Seq<char>) -> Seq<char> {
    seq!['^'] + replaced(replaced(pat, seq!['.'], seq!['\\', '.']), seq!['*'], seq!['\\', 'd', '+'])
        + seq!['$']
}

pub open spec fn is_digit_char(c: char) -> bool {
    '0' <= c && c <= '9'
}

pub open spec fn digits_val(t: Seq<char>) -> nat
    decreases t.len(),
{
    if t.len() == 0 {
        0
    } else {
        digits_val(t.drop_last()) * 10 + (t.last() as nat - 48) as nat
    }
}

/// A run of one to three decimal digits, as a number.
pub open spec fn small_number(t: Seq<char>) -> Option<nat> {
    if 1 <= t.len() <= 3 && forall|i: int| 0 <= i < t.len() ==> is_digit_char(#[trigger] t[i]) {
        Some(digits_val(t))
    } else {
        None
    }
}

/// Pieces of `s` between dots.
pub open spec fn dot_parts(s: Seq<char>) -> Seq<Seq<char>>
    decreases s.len(),
{
    if s.len() == 0 {
        seq![Seq::empty()]
    } else {
        let prev = dot_parts(s.drop_last());
        if s.last() == '.' {
            prev.push(Seq::empty())
        } else {
            prev.update(prev.len() - 1, prev.last().push(s.last()))
        }
    }
}

pub open spec fn octet(t: Seq<char>) -> Option<nat> {
    match small_number(t) {
        Some(v) => if v <= 255 { Some(v) } else { None },
        None => None,
    }
}

/// The value of a dotted-quad IPv4 address.
pub open spec fn ipv4_value(s: Seq<char>) -> Option<nat> {
    let p = dot_parts(s);
    if p.len() == 4 {
        match (octet(p[0]), octet(p[1]), octet(p[2]), octet(p[3])) {
            (Some(a), Some(b), Some(c), Some(d)) => Some(((a * 256 + b) * 256 + c) * 256 + d),
            _ => None,
        }
    } else {
        None
    }
}

/// Whether an address matches one entry of an allow or deny list: `*`, a
/// CIDR block (an IPv4 network and prefix length; other blocks compare by
/// their address text as a prefix), a pattern with `*`, or an exact address.
pub open spec fn ip_matches(ip: Seq<char>, pat: Seq<char>) -> bool {
    if pat == seq!['*'] {
        true
    } else if contains_char(pat, '/') {
        let k = choose|i: int| crate::rewrite::first_at(pat, '/', i);
        let prefix = pat.take(k);
        match (ipv4_value(ip), ipv4_value(prefix), small_number(pat.skip(k + 1))) {
            (Some(a), Some(n), Some(bits)) if bits <= 32 => a / pow2((32 - bits) as nat) == n / pow2(
                (32 - bits) as nat,
            ),
            _ => prefix.len() <= ip.len() && ip.take(prefix.len() as int) == prefix,
        }
    } else if contains_char(pat, '*') && regex_valid(ip_wildcard_regex(pat)) {
        match_groups(ip_wildcard_regex(pat), ip) is Some
    } else {
        ip == pat
    }
}

pub open spec fn any_match(ip: Seq<char>, pats: Seq<String>) -> bool {
    exists|k: int| 0 <= k < pats.len() && ip_matches(ip, #[trigger] pats[k]@)
}

/// Access rule of a host: a deny entry that matches refuses; else a
/// non-empty allow list admits only what it matches; else access is allowed.
pub open spec fn access_allowed(ac: Option<AccessControl>, ip: Seq<char>) -> bool {
    match ac {
        None => true,
        Some(a) => {
            let denied = match a.deny {
                Some(d) => any_match(ip, d@),
                None => false,
            };
            if denied {
                false
            } else {
                match a.allow {
                    Some(al) => al@.len() == 0 || any_match(ip, al@),
                    None => true,
                }
            }
        },
    }
}

fn pow2_of(n: u64) -> (r: u64)
    requires
        n <= 32,
    ensures
        r as nat == pow2(n as nat),
        r > 0,
{
    let mut r: u64 = 1;
    let mut k: u64 = 0;
    proof {
        lemma2_to64();
    }
    while k < n
        invariant
            k <= n <= 32,
            r as nat == pow2(k as nat),
            r > 0,
            r <= 0x100000000,
        decreases n - k,
    {
        proof {
            lemma_pow2_bound(k as nat);
        }
        r = r * 2;
        k = k + 1;
    }
    r
}

proof fn lemma_pow2_bound(k: nat)
    requires
        k < 32,
    ensures
        pow2(k) * 2 <= 0x100000000,
        pow2(k + 1) == pow2(k) * 2,
        pow2(k) > 0,
{
    lemma2_to64();
    lemma_pow2_pos(k);
    lemma_pow2_unfold(k + 1);
    if k < 31 {
        lemma_pow2_strictly_increases(k, 31);
    }
}

fn small_number_of(t: &Vec<char>) -> (r: Option<u64>)
    ensures
        match r {
            Some(v) => small_number(t@) == Some(v as nat) && v < 1000,
            None => small_number(t@) is None,
        },
{
    if t.len() < 1 || t.len() > 3 {
        return None;
    }
    proof {
        reveal_with_fuel(pow10, 4);
    }
    let mut acc: u64 = 0;
    let mut i: usize = 0;
    while i < t.len()
        invariant
            1 <= t@.len() <= 3,
            i <= t@.len(),
            forall|k: int| 0 <= k < i ==> is_digit_char(#[trigger] t@[k]),
            acc as nat == digits_val(t@.take(i as int)),
            acc < pow10(i as nat),
            pow10(0) == 1 && pow10(1) == 10 && pow10(2) == 100 && pow10(3) == 1000,
        decreases t@.len() - i,
    {
        let c = t[i];
        if !('0' <= c && c <= '9') {
            assert(!is_digit_char(t@[i as int]));
            return None;
        }
        assert(t@.take(i + 1).drop_last() =~= t@.take(i as int));
        acc = acc * 10 + ((c as u32) - 48) as u64;
        i = i + 1;
    }
    assert(t@.take(i as int) =~= t@);
    Some(acc)
}

pub open spec fn pow10(n: nat) -> nat
    decreases n,
{
    if n == 0 {
        1
    } else {
        10 * pow10((n - 1) as nat)
    }
}

proof fn lemma_dot_parts_nonempty(s: Seq<char>)
    ensures
        dot_parts(s).len() >= 1,
    decreases s.len(),
{
    if s.len() > 0 {
        lemma_dot_parts_nonempty(s.drop_last());
    }
}

fn dot_parts_of(s: &Vec<char>) -> (r: Vec<Vec<char>>)
    ensures
        r@.map_values(|v: Vec<char>| v@) == dot_parts(s@),
{
    let mut done: Vec<Vec<char>> = Vec::new();
    let mut cur: Vec<char> = Vec::new();
    let mut i: usize = 0;
    assert(s@.take(0) =~= Seq::<char>::empty());
    assert(done@.map_values(|v: Vec<char>| v@) =~= dot_parts(s@.take(0)).drop_last());
    while i < s.len()
        invariant
            i <= s@.len(),
            dot_parts(s@.take(i as int)).len() >= 1,
            done@.map_values(|v: Vec<char>| v@) == dot_parts(s@.take(i as int)).drop_last(),
            cur@ == dot_parts(s@.take(i as int)).last(),
        decreases s@.len() - i,
    {
        let ghost parts = dot_parts(s@.take(i as int));
        assert(s@.take(i + 1).drop_last() =~= s@.take(i as int));
        if s[i] == '.' {
            let ghost prev = done@.map_values(|v: Vec<char>| v@);
            let ghost cv = cur@;
            assert(parts =~= parts.drop_last().push(parts.last()));
            done.push(cur);
            assert(done@.map_values(|v: Vec<char>| v@) =~= prev.push(cv));
            cur = Vec::new();
            assert(done@.map_values(|v: Vec<char>| v@) =~= parts);
            assert(parts.push(Seq::<char>::empty()).drop_last() =~= parts);
            assert(cur@ =~= Seq::<char>::empty());
        } else {
            cur.push(s[i]);
            assert(parts.update(parts.len() - 1, parts.last().push(s@[i as int])).drop_last() =~= parts.drop_last());
        }
        i = i + 1;
        proof {
            lemma_dot_parts_nonempty(s@.take(i as int));
        }
    }
    assert(s@.take(i as int) =~= s@);
    let ghost parts = dot_parts(s@);
    let ghost prev = done@.map_values(|v: Vec<char>| v@);
    done.push(cur);
    assert(done@.map_values(|v: Vec<char>| v@) =~= prev.push(parts.last()));
    assert(parts =~= parts.drop_last().push(parts.last()));
    done
}

fn ipv4_of(s: &Vec<char>) -> (r: Option<u64>)
    ensures
        match r {
            Some(v) => ipv4_value(s@) == Some(v as nat) && v < 0x100000000,
            None => ipv4_value(s@) is None,
        },
{
    let parts = dot_parts_of(s);
    let ghost pv = parts@.map_values(|v: Vec<char>| v@);
    if parts.len() != 4 {
        return None;
    }
    assert(pv[0] == parts@[0]@ && pv[1] == parts@[1]@ && pv[2] == parts@[2]@ && pv[3] == parts@[3]@);
    let a = match small_number_of(&parts[0]) {
        Some(v) if v <= 255 => v,
        _ => {
            return None;
        },
    };
    let b = match small_number_of(&parts[1]) {
        Some(v) if v <= 255 => v,
        _ => {
            return None;
        },
    };
    let c = match small_number_of(&parts[2]) {
        Some(v) if v <= 255 => v,
        _ => {
            return None;
        },
    };
    let d = match small_number_of(&parts[3]) {
        Some(v) if v <= 255 => v,
        _ => {
            return None;
        },
    };
    Some(((a * 256 + b) * 256 + c) * 256 + d)
}

fn matches_ip_pattern(ip: &Vec<char>, pattern: &String) -> (r: bool)
    ensures
        r == ip_matches(ip@, pattern@),
{
    let pat = chars_of(pattern.as_str());
    if eq_chars(&pat, &one_char('*')) {
        return true;
    }
    match find_char(&pat, '/') {
        Some(i) => {
            proof {
                crate::rewrite::lemma_first_unique(pat@, '/', i as int);
            }
            let prefix = slice(&pat, 0, i);
            assert(prefix@ =~= pat@.take(i as int));
            assert(i < pat.len());
            let bits_text = slice(&pat, i + 1, pat.len());
            assert(bits_text@ =~= pat@.skip(i + 1));
            match (ipv4_of(ip), ipv4_of(&prefix), small_number_of(&bits_text)) {
                (Some(a), Some(n), Some(bits)) => {
                    if bits <= 32 {
                        let m = pow2_of(32 - bits);
                        return a / m == n / m;
                    }
                },
                _ => {},
            }
            return starts_with(ip, &prefix);
        },
        None => {},
    }
    if find_char(&pat, '*').is_some() {
        let mut esc_dot = one_char('\\');
        esc_dot.push('.');
        assert(esc_dot@ =~= seq!['\\', '.']);
        let mut digits = one_char('\\');
        digits.push('d');
        digits.push('+');
        assert(digits@ =~= seq!['\\', 'd', '+']);
        let a = replace_all(&pat, &one_char('.'), &esc_dot);
        let b = replace_all(&a, &one_char('*'), &digits);
        let mut re = one_char('^');
        push_all(&mut re, &b);
        re.push('$');
        assert(re@ =~= ip_wildcard_regex(pattern@));
        let re_text = string_of(&re);
        if compiles(re_text.as_str()) {
            return captures(re_text.as_str(), string_of(ip).as_str()).is_some();
        }
    }
    eq_chars(ip, &pat)
}

fn any_match_of(ip: &Vec<char>, pats: &Vec<String>) -> (r: bool)
    ensures
        r == any_match(ip@, pats@),
{
    let mut k: usize = 0;
    while k < pats.len()
        invariant
            k <= pats@.len(),
            forall|j: int| 0 <= j < k ==> !ip_matches(ip@, #[trigger] pats@[j]@),
        decreases pats@.len() - k,
    {
        if matches_ip_pattern(ip, &pats[k]) {
            return true;
        }
        k = k + 1;
    }
    false
}

/// The first redirect whose source is a prefix of `path`.
pub open spec fn redirect_for(rs: Seq<Redirect>, path: Seq<char>) -> Option<Redirect>
    decreases rs.len(),
{
    if rs.len() == 0 {
        None
    } else if rs[0].from@.len() <= path.len() && path.take(rs[0].from@.len() as int) == rs[0].from@ {
        Some(rs[0])
    } else {
        redirect_for(rs.skip(1), path)
    }
}

fn first_redirect(rs: &Vec<Redirect>, p: &Vec<char>) -> (r: Option<Redirect>)
    ensures
        match redirect_for(rs@, p@) {
            Some(x) => r matches Some(y) && y.from@ == x.from@ && y.to@ == x.to@ && y.status
                == x.status && y.permanent == x.permanent,
            None => r is None,
        },
{
    let mut i: usize = 0;
    assert(rs@.skip(0) =~= rs@);
    while i < rs.len()
        invariant
            i <= rs@.len(),
            redirect_for(rs@, p@) == redirect_for(rs@.skip(i as int), p@),
        decreases rs@.len() - i,
    {
        assert(rs@.skip(i as int).skip(1) =~= rs@.skip(i + 1));
        assert(rs@.skip(i as int)[0] == rs@[i as int]);
        if starts_with(p, &chars_of(rs[i].from.as_str())) {
            let x = &rs[i];
            return Some(
                Redirect {
                    from: x.from.clone(),
                    to: x.to.clone(),
                    status: x.status,
                    permanent: x.permanent,
                },
            );
        }
        i = i + 1;
    }
    None
}

impl VHostManager {
    /// Whether `client_ip` may reach the host that serves `hostname`; a name
    /// that no host serves is refused.
    pub fn check_access(&self, hostname: &str, client_ip: &str) -> (r: bool)
        ensures
            r == match resolve_host(self.vhosts(), hostname@) {
                Some(i) => access_allowed(self.vhosts()[i].access_control, client_ip@),
                None => false,
            },
    {
        let vhost = match self.get_vhost(hostname) {
            Some(v) => v,
            None => {
                return false;
            },
        };
        let ip = chars_of(client_ip);
        match &vhost.access_control {
            None => true,
            Some(access) => {
                match &access.deny {
                    Some(deny) => {
                        if any_match_of(&ip, deny) {
                            return false;
                        }
                    },
                    None => {},
                }
                match &access.allow {
                    Some(allow) => {
                        if allow.len() > 0 {
                            return any_match_of(&ip, allow);
                        }
                    },
                    None => {},
                }
                true
            },
        }
    }

    /// The first redirect of the serving host whose source prefixes `path`.
    pub fn find_redirect(&self, hostname: &str, path: &str) -> (r: Option<Redirect>)
        ensures
            r is Some ==> resolve_host(self.vhosts(), hostname@) is Some,
            match resolve_host(self.vhosts(), hostname@) {
                Some(i) => match self.vhosts()[i].redirects {
                    Some(rs) => match redirect_for(rs@, path@) {
                        Some(x) => r matches Some(y) && y.from@ == x.from@ && y.to@ == x.to@
                            && y.status == x.status && y.permanent == x.permanent,
                        None => r is None,
                    },
                    None => r is None,
                },
                None => r is None,
            },
    {
        let vhost = match self.get_vhost(hostname) {
            Some(v) => v,
            None => {
                return None;
            },
        };
        let p = chars_of(path);
        match &vhost.redirects {
            None => None,
            Some(rs) => first_redirect(rs, &p),
        }
    }

    /// The rate limit of the serving host, if it sets one.
    pub fn get_rate_limit(&self, hostname: &str) -> (r: Option<u32>)
        ensures
            r == match resolve_host(self.vhosts(), hostname@) {
                Some(i) => match self.vhosts()[i].limits {
                    Some(l) => l.rate_limit,
                    None => None,
                },
                None => None,
            },
    {
        match self.get_vhost(hostname) {
            Some(v) => match &v.limits {
                Some(l) => l.rate_limit,
                None => None,
            },
            None => None,
        }
    }

    /// The backend addresses of the serving host, if it has a backend.
    pub fn get_backend_urls(&self, hostname: &str) -> (r: Option<Vec<String>>)
        ensures
            match resolve_host(self.vhosts(), hostname@) {
                Some(i) => match self.vhosts()[i].backend {
                    Some(b) => r matches Some(u) && u@.len() == b.urls@.len() && forall|k: int|
                        0 <= k < u@.len() ==> (#[trigger] u@[k])@ == b.urls@[k]@,
                    None => r is None,
                },
                None => r is None,
            },
    {
        match self.get_vhost(hostname) {
            Some(v) => match &v.backend {
                Some(b) => {
                    let mut u: Vec<String> = Vec::new();
                    let mut k: usize = 0;
                    while k < b.urls.len()
                        invariant
                            k <= b.urls@.len(),
                            u@.len() == k,
                            forall|j: int| 0 <= j < k ==> (#[trigger] u@[j])@ == b.urls@[j]@,
                        decreases b.urls@.len() - k,
                    {
                        u.push(b.urls[k].clone());
                        k = k + 1;
                    }
                    Some(u)
                },
                None => None,
            },
            None => None,
        }
    }

    /// Every domain of every host, host by host.
    pub fn list_vhosts(&self) -> (r: Vec<String>)
        ensures
            strings_view(r@) == all_domains(self.vhosts(), self.vhosts().len() as int),
    {
        let mut r: Vec<String> = Vec::new();
        let mut i: usize = 0;
        while i < self.vhosts.len()
            invariant
                i <= self.vhosts@.len(),
                strings_view(r@) == all_domains(self.vhosts@, i as int),
            decreases self.vhosts@.len() - i,
        {
            let ds = &self.vhosts[i].domains;
            let mut k: usize = 0;
            let ghost before = strings_view(r@);
            while k < ds.len()
                invariant
                    k <= ds@.len(),
                    strings_view(r@) == before + strings_view(ds@.take(k as int)),
                decreases ds@.len() - k,
            {
                let ghost old_r = r@;
                r.push(ds[k].clone());
                assert(r@ =~= old_r.push(ds@[k as int]));
                assert(ds@.take(k + 1) =~= ds@.take(k as int).push(ds@[k as int]));
                assert(strings_view(r@) =~= strings_view(old_r).push(ds@[k as int]@));
                assert(strings_view(ds@.take(k + 1)) =~= strings_view(ds@.take(k as int)).push(
                    ds@[k as int]@,
                ));
                k = k + 1;
                assert(strings_view(r@) =~= before + strings_view(ds@.take(k as int)));
            }
            assert(ds@.take(k as int) =~= ds@);
            i = i + 1;
        }
        r
    }

    pub fn get_vhost_count(&self) -> (r: usize)
        ensures
            r == self.vhosts().len(),
    {
        self.vhosts.len()
    }
}

pub open spec fn strings_view(v: Seq<String>) -> Seq<Seq<char>> {
    v.map_values(|s: String| s@)
}

pub open spec fn all_domains(vs: Seq<VirtualHost>, n: int) -> Seq<Seq<char>>
    decreases n,
{
    if n <= 0 {
        Seq::empty()
    } else {
        all_domains(vs, n - 1) + strings_view(vs[n - 1].domains@)
    }
}

} // verus!
