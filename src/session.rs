//! Sessions: creation with random identifiers and CSRF tokens, loading with
//! expiry and client binding checks, destruction, cookies and CSRF checks.
//! Times are whole seconds handed in by the caller.
use crate::proxy::first_value;
use crate::rewrite::pairs_view;
use crate::text::{chars_of, eq_chars, push_all, string_of, decimal, decimal_of};
use vstd::prelude::*;

verus! {

/// A session record; `data` maps keys to JSON text.
#[derive(Debug)]
pub struct Session {
    pub id: String,
    pub data: Vec<(String, String)>,
    pub created_at: u64,
    pub last_accessed: u64,
    pub expires_at: u64,
    pub user_id: Option<String>,
    pub ip_address: Option<String>,
    pub user_agent: Option<String>,
    pub csrf_token: Option<String>,
}

pub ghost struct SessionView {
    pub id: Seq<char>,
    pub data: Seq<(Seq<char>, Seq<char>)>,
    pub created_at: u64,
    pub last_accessed: u64,
    pub expires_at: u64,
    pub user_id: Option<Seq<char>>,
    pub ip_address: Option<Seq<char>>,
    pub user_agent: Option<Seq<char>>,
    pub csrf_token: Option<Seq<char>>,
}

pub open spec fn opt_view(o: Option<String>) -> Option<Seq<char>> {
    match o {
        Some(s) => Some(s@),
        None => None,
    }
}

impl View for Session {
    type V = SessionView;

    open spec fn view(&self) -> SessionView {
        SessionView {
            id: self.id@,
            data: pairs_view(self.data@),
            created_at: self.created_at,
            last_accessed: self.last_accessed,
            expires_at: self.expires_at,
            user_id: opt_view(self.user_id),
            ip_address: opt_view(self.ip_address),
            user_agent: opt_view(self.user_agent),
            csrf_token: opt_view(self.csrf_token),
        }
    }
}

/// The later of two times.
pub open spec fn later(a: u64, b: u64) -> u64 {
    if a >= b { a } else { b }
}

pub open spec fn sat_add(a: u64, b: u64) -> u64 {
    if a + b <= u64::MAX {
        (a + b) as u64
    } else {
        u64::MAX
    }
}

fn copy_opt(o: &Option<String>) -> (r: Option<String>)
    ensures
        opt_view(r) == opt_view(*o),
{
    match o {
        Some(s) => Some(s.clone()),
        None => None,
    }
}

fn copy_pairs(v: &Vec<(String, String)>) -> (r: Vec<(String, String)>)
    ensures
        pairs_view(r@) == pairs_view(v@),
{
    let mut r: Vec<(String, String)> = Vec::new();
    let mut i: usize = 0;
    while i < v.len()
        invariant
            i <= v@.len(),
            pairs_view(r@) == pairs_view(v@.take(i as int)),
        decreases v@.len() - i,
    {
        let ghost prev = pairs_view(r@);
        r.push((v[i].0.clone(), v[i].1.clone()));
        assert(pairs_view(r@) =~= prev.push((v@[i as int].0@, v@[i as int].1@)));
        i = i + 1;
        assert(pairs_view(v@.take(i as int)) =~= pairs_view(v@.take(i - 1)).push(
            (v@[i - 1].0@, v@[i - 1].1@),
        ));
    }
    assert(v@.take(i as int) =~= v@);
    r
}

impl Session {
    /// A field-by-field copy.
    pub fn duplicate(&self) -> (r: Session)
        ensures
            r@ == self@,
    {
        Session {
            id: self.id.clone(),
            data: copy_pairs(&self.data),
            created_at: self.created_at,
            last_accessed: self.last_accessed,
            expires_at: self.expires_at,
            user_id: copy_opt(&self.user_id),
            ip_address: copy_opt(&self.ip_address),
            user_agent: copy_opt(&self.user_agent),
            csrf_token: copy_opt(&self.csrf_token),
        }
    }

    /// A new session with the given identifier and CSRF token, created at `now`.
    pub fn with_tokens(id: String, csrf_token: String, now: u64, ttl: u64) -> (r: Session)
        ensures
            r@ == (SessionView {
                id: id@,
                data: Seq::empty(),
                created_at: now,
                last_accessed: now,
                expires_at: sat_add(now, ttl),
                user_id: None,
                ip_address: None,
                user_agent: None,
                csrf_token: Some(csrf_token@),
            }),
    {
        let data: Vec<(String, String)> = Vec::new();
        assert(pairs_view(data@) =~= Seq::<(Seq<char>, Seq<char>)>::empty());
        Session {
            id,
            data,
            created_at: now,
            last_accessed: now,
            expires_at: now.saturating_add(ttl),
            user_id: None,
            ip_address: None,
            user_agent: None,
            csrf_token: Some(csrf_token),
        }
    }

    /// A new session with a fresh random identifier and CSRF token.
    pub fn new(now: u64, ttl: u64) -> (r: Session)
        ensures
            r@.id.len() == 64,
            is_lower_hex(r@.id),
            r@.data.len() == 0,
            r@.created_at == now,
            r@.expires_at == sat_add(now, ttl),
            r@.csrf_token matches Some(t) && t.len() == 44,
    {
        Session::with_tokens(generate_session_id(), generate_csrf_token(), now, ttl)
    }

    /// A session is live only strictly before its expiry time.
    pub fn is_expired(&self, now: u64) -> (r: bool)
        ensures
            r == (now >= self.expires_at),
    {
        now >= self.expires_at
    }

    /// Marks the session used at `now` and slides its expiry.
    pub fn refresh(&mut self, now: u64, ttl: u64)
        ensures
            final(self)@ == (SessionView {
                last_accessed: later(old(self)@.last_accessed, now),
                expires_at: sat_add(later(old(self)@.last_accessed, now), ttl),
                ..old(self)@
            }),
    {
        if now > self.last_accessed {
            self.last_accessed = now;
        }
        self.expires_at = self.last_accessed.saturating_add(ttl);
    }

    /// Forgets all data.
    pub fn clear(&mut self)
        ensures
            final(self)@ == (SessionView { data: Seq::empty(), ..old(self)@ }),
    {
        self.data = Vec::new();
        assert(pairs_view(self.data@) =~= Seq::<(Seq<char>, Seq<char>)>::empty());
    }
}

/// Lower-case hexadecimal digits.
pub open spec fn is_lower_hex(s: Seq<char>) -> bool {
    forall|i: int| 0 <= i < s.len() ==> ('0' <= #[trigger] s[i] <= '9' || 'a' <= s[i] <= 'f')
}

pub open spec fn hex_digit(n: nat) -> char {
    if n < 10 {
        (n + 48) as char
    } else {
        (n + 87) as char
    }
}

/// Two lower-case hexadecimal digits per byte.
pub open spec fn hex_of(b: Seq<u8>) -> Seq<char>
    decreases b.len(),
{
    if b.len() == 0 {
        Seq::empty()
    } else {
        hex_of(b.drop_last()) + seq![hex_digit(b.last() as nat / 16), hex_digit(b.last() as nat % 16)]
    }
}

/// The SHA-256 digest of `b`.
pub uninterp spec fn sha256_of(b: Seq<u8>) -> Seq<u8>;

/// The standard base64 encoding of `b`.
pub uninterp spec fn base64_encoded(b: Seq<u8>) -> Seq<char>;

/// Relies on `sha2::Sha256::digest`: the 32-byte digest of the input.
#[verifier::external_body]
fn sha256(data: &Vec<u8>) -> (r: Vec<u8>)
    ensures
        r@ == sha256_of(data@),
        r@.len() == 32,
{
    <sha2::Sha256 as sha2::Digest>::digest(data).to_vec()
}

/// Relies on `base64`'s standard engine `encode`: padded output, four
/// characters for each started group of three bytes.
#[verifier::external_body]
pub(crate) fn encode_base64(data: &Vec<u8>) -> (r: String)
    ensures
        r@ == base64_encoded(data@),
        r@.len() == 4 * ((data@.len() + 2) / 3),
{
    base64::Engine::encode(&base64::engine::general_purpose::STANDARD, data)
}

/// Relies on `uuid::Uuid::new_v4`: the sixteen bytes of a random UUID.
#[verifier::external_body]
fn uuid_v4_bytes() -> (r: Vec<u8>)
    ensures
        r@.len() == 16,
{
    uuid::Uuid::new_v4().as_bytes().to_vec()
}

/// Relies on `rand::RngCore::fill_bytes` of the thread generator: `n` random bytes.
#[verifier::external_body]
fn random_bytes(n: usize) -> (r: Vec<u8>)
    ensures
        r@.len() == n,
{
    let mut b = vec![0u8; n];
    rand::RngCore::fill_bytes(&mut rand::thread_rng(), &mut b);
    b
}

/// Relies on `std::time::SystemTime::now`: nanoseconds since the Unix epoch,
/// with nothing promised of the value.
#[verifier::external_body]
fn clock_nanos() -> u64 {
    std::time::SystemTime::now().duration_since(std::time::UNIX_EPOCH).map(|d| d.as_nanos() as u64).unwrap_or(0)
}

fn hex_digit_of(n: u8) -> (c: char)
    requires
        n < 16,
    ensures
        c == hex_digit(n as nat),
{
    if n < 10 {
        (n + 48) as char
    } else {
        (n + 87) as char
    }
}

proof fn lemma_hex_props(b: Seq<u8>)
    ensures
        hex_of(b).len() == 2 * b.len(),
        is_lower_hex(hex_of(b)),
    decreases b.len(),
{
    if b.len() > 0 {
        lemma_hex_props(b.drop_last());
        let h = hex_of(b);
        let p = hex_of(b.drop_last());
        let x = b.last() as nat;
        assert forall|i: int| 0 <= i < h.len() implies ('0' <= #[trigger] h[i] <= '9' || 'a' <= h[i] <= 'f') by {
            if i < p.len() {
                assert(h[i] == p[i]);
            } else if i == p.len() {
                assert(h[i] == hex_digit(x / 16));
            } else {
                assert(h[i] == hex_digit(x % 16));
            }
        }
    }
}

/// Lower-case hexadecimal text of bytes.
pub fn hex_encode(b: &Vec<u8>) -> (r: String)
    ensures
        r@ == hex_of(b@),
{
    let mut out: Vec<char> = Vec::new();
    let mut i: usize = 0;
    while i < b.len()
        invariant
            i <= b@.len(),
            out@ == hex_of(b@.take(i as int)),
        decreases b@.len() - i,
    {
        assert(b@.take(i + 1).drop_last() =~= b@.take(i as int));
        out.push(hex_digit_of(b[i] / 16));
        out.push(hex_digit_of(b[i] % 16));
        i = i + 1;
        assert(out@ =~= hex_of(b@.take(i as int)));
    }
    assert(b@.take(i as int) =~= b@);
    string_of(&out)
}

/// The first `count` little-endian bytes of `n`.
pub open spec fn le_bytes_n(n: nat, count: nat) -> Seq<u8>
    decreases count,
{
    if count == 0 {
        Seq::empty()
    } else {
        seq![(n % 256) as u8] + le_bytes_n(n / 256, (count - 1) as nat)
    }
}

/// The eight little-endian bytes of `n`.
pub open spec fn le_bytes(n: u64) -> Seq<u8> {
    le_bytes_n(n as nat, 8)
}

/// A session identifier from its inputs: the hexadecimal SHA-256 of a UUID,
/// sixteen random bytes, and the clock in nanoseconds.
pub fn session_id_from(uuid: &Vec<u8>, random: &Vec<u8>, nanos: u64) -> (r: String)
    requires
        uuid@.len() == 16,
        random@.len() == 16,
    ensures
        r@ == hex_of(sha256_of(uuid@ + random@ + le_bytes(nanos))),
        r@.len() == 64,
        is_lower_hex(r@),
{
    let mut input = uuid.clone();
    let mut i: usize = 0;
    while i < random.len()
        invariant
            i <= random@.len(),
            input@ == uuid@ + random@.take(i as int),
        decreases random@.len() - i,
    {
        input.push(random[i]);
        i = i + 1;
        assert(input@ =~= uuid@ + random@.take(i as int));
    }
    assert(random@.take(i as int) =~= random@);
    let ghost head = input@;
    let mut t = nanos;
    let mut k: usize = 0;
    assert(input@ + le_bytes_n(t as nat, 8) =~= head + le_bytes(nanos));
    while k < 8
        invariant
            k <= 8,
            input@ + le_bytes_n(t as nat, (8 - k) as nat) == head + le_bytes(nanos),
        decreases 8 - k,
    {
        let ghost before = input@;
        input.push((t % 256) as u8);
        assert(input@ + le_bytes_n((t / 256) as nat, (8 - k - 1) as nat) =~= before + le_bytes_n(
            t as nat,
            (8 - k) as nat,
        ));
        t = t / 256;
        k = k + 1;
    }
    assert(input@ =~= input@ + le_bytes_n(t as nat, 0));
    let digest = sha256(&input);
    proof {
        lemma_hex_props(digest@);
    }
    hex_encode(&digest)
}

/// A fresh session identifier from a random UUID, sixteen random bytes and
/// the clock.
pub fn generate_session_id() -> (r: String)
    ensures
        r@.len() == 64,
        is_lower_hex(r@),
        exists|u: Seq<u8>, x: Seq<u8>, t: u64|
            u.len() == 16 && x.len() == 16 && r@ == hex_of(sha256_of(u + x + le_bytes(t))),
{
    let u = uuid_v4_bytes();
    let x = random_bytes(16);
    let t = clock_nanos();
    session_id_from(&u, &x, t)
}

/// A CSRF token: thirty-two random bytes in base64 (44 characters).
pub fn generate_csrf_token() -> (r: String)
    ensures
        exists|b: Seq<u8>| b.len() == 32 && r@ == base64_encoded(b),
        r@.len() == 44,
{
    encode_base64(&random_bytes(32))
}

#[derive(Clone, Copy, Debug, PartialEq, Eq, Structural)]
pub enum SameSite {
    Strict,
    Lax,
    /// `SameSite=None`: the cookie goes with cross-site requests too.
    Unrestricted,
}

#[derive(Clone, Debug)]
pub struct SessionConfig {
    pub cookie_name: String,
    pub cookie_domain: Option<String>,
    pub cookie_path: String,
    pub cookie_secure: bool,
    pub cookie_http_only: bool,
    pub cookie_same_site: SameSite,
    pub ttl_seconds: u64,
    pub cleanup_interval_seconds: u64,
    pub max_sessions_per_user: Option<usize>,
    pub regenerate_id_on_login: bool,
    pub check_ip: bool,
    pub check_user_agent: bool,
}

impl Default for SessionConfig {
    fn default() -> (r: Self)
        ensures
            r.cookie_name@ == "session_id"@,
            r.cookie_domain is None,
            r.cookie_path@ == "/"@,
            r.cookie_secure && r.cookie_http_only,
            r.cookie_same_site == SameSite::Lax,
            r.ttl_seconds == 3600 && r.cleanup_interval_seconds == 300,
            r.max_sessions_per_user == Some(5usize),
            r.regenerate_id_on_login && !r.check_ip && r.check_user_agent,
    {
        SessionConfig {
            cookie_name: "session_id".to_owned(),
            cookie_domain: None,
            cookie_path: "/".to_owned(),
            cookie_secure: true,
            cookie_http_only: true,
            cookie_same_site: SameSite::Lax,
            ttl_seconds: 3600,
            cleanup_interval_seconds: 300,
            max_sessions_per_user: Some(5),
            regenerate_id_on_login: true,
            check_ip: false,
            check_user_agent: true,
        }
    }
}

/// The first stored session with identifier `id`.
pub open spec fn store_get(st: Seq<SessionView>, id: Seq<char>) -> Option<SessionView>
    decreases st.len(),
{
    if st.len() == 0 {
        None
    } else if st[0].id == id {
        Some(st[0])
    } else {
        store_get(st.skip(1), id)
    }
}

/// The store with `s` saved: it replaces the session with its identifier, or is added.
pub open spec fn store_put(st: Seq<SessionView>, s: SessionView) -> Seq<SessionView>
    decreases st.len(),
{
    if st.len() == 0 {
        seq![s]
    } else if st[0].id == s.id {
        seq![s] + st.skip(1)
    } else {
        seq![st[0]] + store_put(st.skip(1), s)
    }
}

/// The store without the sessions with identifier `id`.
pub open spec fn store_delete(st: Seq<SessionView>, id: Seq<char>) -> Seq<SessionView>
    decreases st.len(),
{
    if st.len() == 0 {
        st
    } else {
        let p = store_delete(st.drop_last(), id);
        if st.last().id == id {
            p
        } else {
            p.push(st.last())
        }
    }
}

pub proof fn lemma_get_after_put(st: Seq<SessionView>, s: SessionView)
    ensures
        store_get(store_put(st, s), s.id) == Some(s),
    decreases st.len(),
{
    if st.len() > 0 && st[0].id != s.id {
        lemma_get_after_put(st.skip(1), s);
        assert(store_put(st, s).skip(1) =~= store_put(st.skip(1), s));
    }
}

pub proof fn lemma_get_after_delete(st: Seq<SessionView>, id: Seq<char>)
    ensures
        store_get(store_delete(st, id), id) is None,
        forall|k: int| 0 <= k < store_delete(st, id).len() ==> (#[trigger] store_delete(st, id)[k]).id != id,
    decreases st.len(),
{
    if st.len() > 0 {
        lemma_get_after_delete(st.drop_last(), id);
        lemma_get_absent(store_delete(st, id), id);
    }
}

proof fn lemma_get_absent(st: Seq<SessionView>, id: Seq<char>)
    requires
        forall|k: int| 0 <= k < st.len() ==> (#[trigger] st[k]).id != id,
    ensures
        store_get(st, id) is None,
    decreases st.len(),
{
    if st.len() > 0 {
        assert(st[0].id != id);
        let t = st.skip(1);
        assert forall|k: int| 0 <= k < t.len() implies (#[trigger] t[k]).id != id by {
            assert(t[k] == st[k + 1]);
        }
        lemma_get_absent(t, id);
    }
}

/// The client address a request claims: `X-Real-IP`, else `X-Forwarded-For`.
pub open spec fn client_ip(hs: Seq<(Seq<char>, Seq<char>)>) -> Option<Seq<char>> {
    match first_value(hs, "x-real-ip"@) {
        Some(v) => Some(v),
        None => first_value(hs, "x-forwarded-for"@),
    }
}

pub open spec fn client_agent(hs: Seq<(Seq<char>, Seq<char>)>) -> Option<Seq<char>> {
    first_value(hs, "user-agent"@)
}

/// The binding checks: a configured check passes only when the request
/// carries a value and it equals the one bound to the session.
pub open spec fn binding_ok(cfg: SessionConfig, s: SessionView, hs: Seq<(Seq<char>, Seq<char>)>) -> bool {
    &&& (cfg.check_ip ==> client_ip(hs) is Some && s.ip_address == client_ip(hs))
    &&& (cfg.check_user_agent ==> client_agent(hs) is Some && s.user_agent == client_agent(hs))
}

/// A new session for a request: empty, bound to the request's client.
pub open spec fn created_view(
    cfg: SessionConfig,
    hs: Seq<(Seq<char>, Seq<char>)>,
    now: u64,
    id: Seq<char>,
    csrf: Seq<char>,
) -> SessionView {
    SessionView {
        id,
        data: Seq::empty(),
        created_at: now,
        last_accessed: now,
        expires_at: sat_add(now, cfg.ttl_seconds),
        user_id: None,
        ip_address: client_ip(hs),
        user_agent: client_agent(hs),
        csrf_token: Some(csrf),
    }
}

/// The session identifier a request's cookie carries.
pub open spec fn request_session_id(cfg: SessionConfig, hs: Seq<(Seq<char>, Seq<char>)>) -> Option<Seq<char>> {
    match first_value(hs, "cookie"@) {
        Some(c) => cookie_value(parts_on(c, ';'), cfg.cookie_name@),
        None => None,
    }
}

/// Loading `id` at `now`: the session returned, if any, and the store after.
pub open spec fn load_outcome(
    cfg: SessionConfig,
    st: Seq<SessionView>,
    id: Seq<char>,
    hs: Seq<(Seq<char>, Seq<char>)>,
    now: u64,
) -> (Option<SessionView>, Seq<SessionView>) {
    match store_get(st, id) {
        None => (None, st),
        Some(s) => if now >= s.expires_at {
            (None, store_delete(st, id))
        } else if !binding_ok(cfg, s, hs) {
            (None, st)
        } else {
            let t = later(s.last_accessed, now);
            let r = SessionView { last_accessed: t, expires_at: sat_add(t, cfg.ttl_seconds), ..s };
            (Some(r), store_put(st, r))
        },
    }
}

/// A session created for a request and saved is found again by a request
/// from the same client before it expires, with the same data, and its last
/// use never moves back; after `destroy`, no load finds it. (A binding check
/// that is switched on needs the request to carry the bound value.)
pub proof fn lemma_session_round_trip(
    cfg: SessionConfig,
    st: Seq<SessionView>,
    s: SessionView,
    hs: Seq<(Seq<char>, Seq<char>)>,
    now: u64,
)
    requires
        s.ip_address == client_ip(hs),
        s.user_agent == client_agent(hs),
        cfg.check_ip ==> client_ip(hs) is Some,
        cfg.check_user_agent ==> client_agent(hs) is Some,
        now < s.expires_at,
    ensures
        load_outcome(cfg, store_put(st, s), s.id, hs, now).0 matches Some(r) && r.data == s.data && r.id
            == s.id && r.csrf_token == s.csrf_token && r.last_accessed >= s.last_accessed,
        cfg.ttl_seconds > 0 ==> (load_outcome(cfg, store_put(st, s), s.id, hs, now).0 matches Some(r) && (r.expires_at
            > now || r.expires_at == u64::MAX)),
        load_outcome(cfg, store_delete(st, s.id), s.id, hs, now).0 is None,
{
    lemma_get_after_put(st, s);
    lemma_get_after_delete(st, s.id);
}

/// The in-process session store.
pub struct MemoryStore {
    sessions: Vec<Session>,
}

pub open spec fn sessions_view(v: Seq<Session>) -> Seq<SessionView> {
    v.map_values(|s: Session| s@)
}

impl MemoryStore {
    pub closed spec fn contents(&self) -> Seq<SessionView> {
        sessions_view(self.sessions@)
    }

    pub fn new() -> (r: Self)
        ensures
            r.contents().len() == 0,
    {
        let r = MemoryStore { sessions: Vec::new() };
        assert(r.contents() =~= Seq::<SessionView>::empty());
        r
    }

    pub fn load(&self, id: &str) -> (r: Option<Session>)
        ensures
            match r {
                Some(s) => store_get(self.contents(), id@) == Some(s@),
                None => store_get(self.contents(), id@) is None,
            },
    {
        let ghost st = self.contents();
        let key = chars_of(id);
        let mut i: usize = 0;
        assert(st.skip(0) =~= st);
        while i < self.sessions.len()
            invariant
                st == self.contents(),
                key@ == id@,
                i <= st.len(),
                store_get(st, id@) == store_get(st.skip(i as int), id@),
            decreases st.len() - i,
        {
            assert(st.skip(i as int).skip(1) =~= st.skip(i + 1));
            assert(st.skip(i as int)[0] == self.sessions@[i as int]@);
            if eq_chars(&chars_of(self.sessions[i].id.as_str()), &key) {
                return Some(self.sessions[i].duplicate());
            }
            i = i + 1;
        }
        None
    }

    pub fn save(&mut self, session: Session)
        ensures
            final(self).contents() == store_put(old(self).contents(), session@),
    {
        let ghost st = self.contents();
        let key = chars_of(session.id.as_str());
        let mut out: Vec<Session> = Vec::new();
        let mut i: usize = 0;
        let ghost sv = session@;
        let mut pending: Option<Session> = Some(session);
        assert(sessions_view(out@) + store_put(st.skip(0), sv) =~= store_put(st, sv)) by {
            assert(st.skip(0) =~= st);
        }
        while i < self.sessions.len()
            invariant
                st == sessions_view(self.sessions@),
                st == old(self).contents(),
                sv == session@,
                key@ == sv.id,
                i <= st.len(),
                pending matches Some(p) && p@ == sv,
                sessions_view(out@) + store_put(st.skip(i as int), sv) == store_put(st, sv),
            decreases st.len() - i,
        {
            assert(st.skip(i as int).skip(1) =~= st.skip(i + 1));
            assert(st.skip(i as int)[0] == st[i as int]);
            let ghost prev = sessions_view(out@);
            if eq_chars(&chars_of(self.sessions[i].id.as_str()), &key) {
                assert(st[i as int].id == sv.id);
                assert(store_put(st.skip(i as int), sv) =~= seq![sv] + st.skip(i as int).skip(1));
                let s = pending.take().unwrap();
                out.push(s);
                let mut j: usize = i + 1;
                assert(sessions_view(out@) =~= prev.push(sv));
                while j < self.sessions.len()
                    invariant
                        st == sessions_view(self.sessions@),
                        st == old(self).contents(),
                        sv == session@,
                        i < j <= st.len(),
                        prev + store_put(st.skip(i as int), sv) == store_put(st, sv),
                        store_put(st.skip(i as int), sv) == seq![sv] + st.skip(i as int).skip(1),
                        sessions_view(out@) == prev.push(sv) + st.subrange(i + 1, j as int),
                    decreases st.len() - j,
                {
                    let ghost before = sessions_view(out@);
                    out.push(self.sessions[j].duplicate());
                    assert(sessions_view(out@) =~= before.push(st[j as int]));
                    j = j + 1;
                    assert(prev.push(sv) + st.subrange(i + 1, j as int) =~= before.push(st[j - 1]));
                }
                assert(st.subrange(i + 1, st.len() as int) =~= st.skip(i + 1));
                assert(sessions_view(out@) =~= prev + (seq![sv] + st.skip(i as int).skip(1)));
                self.sessions = out;
                return;
            }
            out.push(self.sessions[i].duplicate());
            assert(sessions_view(out@) =~= prev.push(st[i as int]));
            assert(sessions_view(out@) + store_put(st.skip(i + 1), sv) =~= prev + (seq![st[i as int]] + store_put(
                st.skip(i + 1),
                sv,
            )));
            i = i + 1;
        }
        let s = pending.take().unwrap();
        let ghost prev = sessions_view(out@);
        out.push(s);
        assert(st.skip(i as int) =~= Seq::<SessionView>::empty());
        assert(sessions_view(out@) =~= prev + seq![sv]);
        self.sessions = out;
    }

    pub fn delete(&mut self, id: &str)
        ensures
            final(self).contents() == store_delete(old(self).contents(), id@),
    {
        let ghost st = self.contents();
        let key = chars_of(id);
        let mut out: Vec<Session> = Vec::new();
        let mut i: usize = 0;
        while i < self.sessions.len()
            invariant
                st == sessions_view(self.sessions@),
                key@ == id@,
                i <= st.len(),
                sessions_view(out@) == store_delete(st.take(i as int), id@),
            decreases st.len() - i,
        {
            assert(st.take(i + 1).drop_last() =~= st.take(i as int));
            if !eq_chars(&chars_of(self.sessions[i].id.as_str()), &key) {
                let ghost prev = sessions_view(out@);
                out.push(self.sessions[i].duplicate());
                assert(sessions_view(out@) =~= prev.push(st[i as int]));
            }
            i = i + 1;
        }
        assert(st.take(i as int) =~= st);
        self.sessions = out;
    }
}

fn header_value(hs: &Vec<(String, String)>, name: &str) -> (r: Option<String>)
    ensures
        opt_view(r) == first_value(pairs_view(hs@), name@),
{
    let ghost s = pairs_view(hs@);
    let key = chars_of(name);
    let mut i: usize = 0;
    assert(s.skip(0) =~= s);
    while i < hs.len()
        invariant
            s == pairs_view(hs@),
            key@ == name@,
            i <= hs@.len(),
            first_value(s, name@) == first_value(s.skip(i as int), name@),
        decreases hs@.len() - i,
    {
        assert(s.skip(i as int).skip(1) =~= s.skip(i + 1));
        assert(s.skip(i as int)[0] == s[i as int]);
        if eq_chars(&crate::text::lower_vec(&chars_of(hs[i].0.as_str())), &crate::text::lower_vec(&key)) {
            return Some(hs[i].1.clone());
        }
        i = i + 1;
    }
    None
}

fn same_opt(a: &Option<String>, b: &Option<String>) -> (r: bool)
    ensures
        r == (opt_view(*a) == opt_view(*b)),
{
    match (a, b) {
        (Some(x), Some(y)) => eq_chars(&chars_of(x.as_str()), &chars_of(y.as_str())),
        (None, None) => true,
        _ => false,
    }
}

pub struct SessionManager {
    config: SessionConfig,
    store: MemoryStore,
}

impl SessionManager {
    pub closed spec fn config(&self) -> SessionConfig {
        self.config
    }

    pub closed spec fn stored(&self) -> Seq<SessionView> {
        self.store.contents()
    }

    pub fn new(config: SessionConfig) -> (r: Self)
        ensures
            r.config() == config,
            r.stored().len() == 0,
    {
        SessionManager { config, store: MemoryStore::new() }
    }

    /// Creates and stores a session bound to the client of the request,
    /// with the given identifier and CSRF token.
    pub fn create_session_with_tokens(
        &mut self,
        headers: &Vec<(String, String)>,
        now: u64,
        id: String,
        csrf: String,
    ) -> (r: Session)
        ensures
            final(self).config() == old(self).config(),
            r@ == created_view(old(self).config(), pairs_view(headers@), now, id@, csrf@),
            final(self).stored() == store_put(old(self).stored(), r@),
    {
        let mut session = Session::with_tokens(id, csrf, now, self.config.ttl_seconds);
        session.ip_address = match header_value(headers, "x-real-ip") {
            Some(v) => Some(v),
            None => header_value(headers, "x-forwarded-for"),
        };
        session.user_agent = header_value(headers, "user-agent");
        self.store.save(session.duplicate());
        session
    }

    /// Creates and stores a session bound to the client of the request.
    pub fn create_session(&mut self, headers: &Vec<(String, String)>, now: u64) -> (r: Session)
        ensures
            final(self).config() == old(self).config(),
            exists|id: Seq<char>, csrf: Seq<char>|
                r@ == created_view(old(self).config(), pairs_view(headers@), now, id, csrf) && id.len() == 64
                    && csrf.len() == 44,
            final(self).stored() == store_put(old(self).stored(), r@),
    {
        let id = generate_session_id();
        let csrf = generate_csrf_token();
        let ghost (i, c) = (id@, csrf@);
        let r = self.create_session_with_tokens(headers, now, id, csrf);
        assert(r@ == created_view(old(self).config(), pairs_view(headers@), now, i, c));
        r
    }

    /// The session of a request: the one its cookie names when that loads,
    /// else a new one made with `id` and `csrf` (the flag says so).
    pub fn resolve_session_with_tokens(
        &mut self,
        headers: &Vec<(String, String)>,
        now: u64,
        id: String,
        csrf: String,
    ) -> (r: (Session, bool))
        ensures
            final(self).config() == old(self).config(),
            ({
                let hs = pairs_view(headers@);
                let cfg = old(self).config();
                let after_load = match request_session_id(cfg, hs) {
                    Some(cid) => load_outcome(cfg, old(self).stored(), cid, hs, now),
                    None => (None, old(self).stored()),
                };
                match after_load.0 {
                    Some(s) => r.0@ == s && !r.1 && final(self).stored() == after_load.1,
                    None => r.1 && r.0@ == created_view(cfg, hs, now, id@, csrf@) && final(self).stored()
                        == store_put(after_load.1, r.0@),
                }
            }),
    {
        match self.extract_session_id(headers) {
            Some(cid) => match self.load_session(cid.as_str(), headers, now) {
                Some(s) => {
                    return (s, false);
                },
                None => {},
            },
            None => {},
        }
        (self.create_session_with_tokens(headers, now, id, csrf), true)
    }

    /// The session of a request, loaded by cookie or newly created with
    /// random tokens.
    pub fn resolve_session(&mut self, headers: &Vec<(String, String)>, now: u64) -> (r: (Session, bool))
        ensures
            final(self).config() == old(self).config(),
            ({
                let hs = pairs_view(headers@);
                let cfg = old(self).config();
                let after_load = match request_session_id(cfg, hs) {
                    Some(cid) => load_outcome(cfg, old(self).stored(), cid, hs, now),
                    None => (None, old(self).stored()),
                };
                match after_load.0 {
                    Some(s) => r.0@ == s && !r.1 && final(self).stored() == after_load.1,
                    None => r.1 && (exists|id: Seq<char>, csrf: Seq<char>| r.0@ == created_view(cfg, hs, now, id, csrf))
                        && final(self).stored() == store_put(after_load.1, r.0@),
                }
            }),
    {
        let id = generate_session_id();
        let csrf = generate_csrf_token();
        let ghost (i, c) = (id@, csrf@);
        let r = self.resolve_session_with_tokens(headers, now, id, csrf);
        assert(r.1 ==> r.0@ == created_view(old(self).config(), pairs_view(headers@), now, i, c));
        r
    }

    /// Loads a session: an expired one is deleted, one whose client binding
    /// fails is not found, a valid one is refreshed and saved.
    pub fn load_session(&mut self, session_id: &str, headers: &Vec<(String, String)>, now: u64) -> (r: Option<Session>)
        ensures
            final(self).config() == old(self).config(),
            (match r {
                Some(s) => Some(s@),
                None => None,
            }, final(self).stored()) == load_outcome(old(self).config(), old(self).stored(), session_id@, pairs_view(headers@), now),
    {
        let mut session = match self.store.load(session_id) {
            Some(s) => s,
            None => {
                return None;
            },
        };
        if session.is_expired(now) {
            self.store.delete(session_id);
            return None;
        }
        if self.config.check_ip {
            let current = match header_value(headers, "x-real-ip") {
                Some(v) => Some(v),
                None => header_value(headers, "x-forwarded-for"),
            };
            if current.is_none() || !same_opt(&session.ip_address, &current) {
                return None;
            }
        }
        if self.config.check_user_agent {
            let current = header_value(headers, "user-agent");
            if current.is_none() || !same_opt(&session.user_agent, &current) {
                return None;
            }
        }
        session.refresh(now, self.config.ttl_seconds);
        self.store.save(session.duplicate());
        Some(session)
    }

    pub fn destroy_session(&mut self, session_id: &str)
        ensures
            final(self).config() == old(self).config(),
            final(self).stored() == store_delete(old(self).stored(), session_id@),
    {
        self.store.delete(session_id);
    }

    /// Forgets the user and the data of a session, and saves it.
    pub fn logout(&mut self, session: &mut Session)
        ensures
            final(self).config() == old(self).config(),
            final(session)@ == (SessionView { user_id: None, data: Seq::empty(), ..old(session)@ }),
            final(self).stored() == store_put(old(self).stored(), final(session)@),
    {
        session.user_id = None;
        session.clear();
        self.store.save(session.duplicate());
    }
}

/// Methods that change state, which need a CSRF token.
pub open spec fn is_mutating(method: Seq<char>) -> bool {
    method == "POST"@ || method == "PUT"@ || method == "PATCH"@ || method == "DELETE"@
}

/// The CSRF token a request carries: `X-CSRF-Token`, else `X-XSRF-Token`.
pub open spec fn request_csrf(hs: Seq<(Seq<char>, Seq<char>)>) -> Option<Seq<char>> {
    match first_value(hs, "x-csrf-token"@) {
        Some(v) => Some(v),
        None => first_value(hs, "x-xsrf-token"@),
    }
}

pub fn extract_csrf_token(headers: &Vec<(String, String)>) -> (r: Option<String>)
    ensures
        opt_view(r) == request_csrf(pairs_view(headers@)),
{
    match header_value(headers, "x-csrf-token") {
        Some(v) => Some(v),
        None => header_value(headers, "x-xsrf-token"),
    }
}

/// Whether `provided` is the session's CSRF token.
pub fn validate_csrf_token(session: &Session, provided_token: &str) -> (r: bool)
    ensures
        r == (session@.csrf_token == Some(provided_token@)),
{
    match &session.csrf_token {
        Some(t) => eq_chars(&chars_of(t.as_str()), &chars_of(provided_token)),
        None => false,
    }
}

/// The CSRF rule of the request pipeline: a state-changing request passes
/// only with a header token equal to the session's; others always pass.
pub fn csrf_allows(method: &str, headers: &Vec<(String, String)>, session: &Session) -> (r: bool)
    ensures
        r == (!is_mutating(method@) || (request_csrf(pairs_view(headers@)) matches Some(t)
            && session@.csrf_token == Some(t))),
{
    let m = chars_of(method);
    let mutating = eq_chars(&m, &chars_of("POST")) || eq_chars(&m, &chars_of("PUT")) || eq_chars(
        &m,
        &chars_of("PATCH"),
    ) || eq_chars(&m, &chars_of("DELETE"));
    if !mutating {
        return true;
    }
    match extract_csrf_token(headers) {
        Some(t) => validate_csrf_token(session, t.as_str()),
        None => false,
    }
}

/// The first value stored under `key`.
pub open spec fn data_get(d: Seq<(Seq<char>, Seq<char>)>, key: Seq<char>) -> Option<Seq<char>>
    decreases d.len(),
{
    if d.len() == 0 {
        None
    } else if d[0].0 == key {
        Some(d[0].1)
    } else {
        data_get(d.skip(1), key)
    }
}

impl Session {
    /// Stores `value`, JSON text, under `key`.
    pub fn set(&mut self, key: String, value: String)
        ensures
            final(self)@ == (SessionView { data: crate::fastcgi::put(old(self)@.data, key@, value@), ..old(self)@ }),
    {
        crate::fastcgi::put_param(&mut self.data, key, value);
    }

    /// The JSON text stored under `key`.
    pub fn get(&self, key: &str) -> (r: Option<String>)
        ensures
            opt_view(r) == data_get(self@.data, key@),
    {
        let ghost d = self@.data;
        let k = chars_of(key);
        let mut i: usize = 0;
        assert(d.skip(0) =~= d);
        while i < self.data.len()
            invariant
                d == pairs_view(self.data@),
                k@ == key@,
                i <= d.len(),
                data_get(d, key@) == data_get(d.skip(i as int), key@),
            decreases d.len() - i,
        {
            assert(d.skip(i as int).skip(1) =~= d.skip(i + 1));
            assert(d.skip(i as int)[0] == d[i as int]);
            if eq_chars(&chars_of(self.data[i].0.as_str()), &k) {
                return Some(self.data[i].1.clone());
            }
            i = i + 1;
        }
        None
    }
}

/// Session files, one per session under a two-character shard directory.
pub struct FileStore {
    pub base_path: String,
}

pub open spec fn shard_of(id: Seq<char>) -> Seq<char> {
    if id.len() >= 2 {
        id.take(2)
    } else {
        "00"@
    }
}

impl FileStore {
    /// `base/<first two characters of id>/<id>.json` (`00` for shorter ids).
    pub fn session_path(&self, session_id: &str) -> (r: String)
        ensures
            r@ == self.base_path@ + seq!['/'] + shard_of(session_id@) + seq!['/'] + session_id@ + ".json"@,
    {
        let id = chars_of(session_id);
        let shard = if id.len() >= 2 {
            crate::text::slice(&id, 0, 2)
        } else {
            chars_of("00")
        };
        assert(id.len() >= 2 ==> shard@ =~= session_id@.take(2));
        let mut p = chars_of(self.base_path.as_str());
        p.push('/');
        push_all(&mut p, &shard);
        p.push('/');
        push_all(&mut p, &id);
        push_all(&mut p, &chars_of(".json"));
        assert(p@ =~= self.base_path@ + seq!['/'] + shard_of(session_id@) + seq!['/'] + session_id@ + ".json"@);
        string_of(&p)
    }
}

pub open spec fn same_site_text(s: SameSite) -> Seq<char> {
    match s {
        SameSite::Strict => "Strict"@,
        SameSite::Lax => "Lax"@,
        SameSite::Unrestricted => "None"@,
    }
}

/// The `Set-Cookie` value of a session.
pub open spec fn cookie_text(cfg: SessionConfig, id: Seq<char>) -> Seq<char> {
    let base = cfg.cookie_name@ + seq!['='] + id + "; Path="@ + cfg.cookie_path@ + "; SameSite="@ + same_site_text(
        cfg.cookie_same_site,
    );
    let d = match cfg.cookie_domain {
        Some(dom) => base + "; Domain="@ + dom@,
        None => base,
    };
    let s = if cfg.cookie_secure { d + "; Secure"@ } else { d };
    let h = if cfg.cookie_http_only { s + "; HttpOnly"@ } else { s };
    h + "; Max-Age="@ + decimal(cfg.ttl_seconds as nat)
}

impl SessionManager {
    pub fn create_cookie(&self, session_id: &str) -> (r: String)
        ensures
            r@ == cookie_text(self.config(), session_id@),
    {
        let same_site = match self.config.cookie_same_site {
            SameSite::Strict => "Strict",
            SameSite::Lax => "Lax",
            SameSite::Unrestricted => "None",
        };
        let mut c = chars_of(self.config.cookie_name.as_str());
        c.push('=');
        push_all(&mut c, &chars_of(session_id));
        push_all(&mut c, &chars_of("; Path="));
        push_all(&mut c, &chars_of(self.config.cookie_path.as_str()));
        push_all(&mut c, &chars_of("; SameSite="));
        push_all(&mut c, &chars_of(same_site));
        match &self.config.cookie_domain {
            Some(d) => {
                push_all(&mut c, &chars_of("; Domain="));
                push_all(&mut c, &chars_of(d.as_str()));
            },
            None => {},
        }
        if self.config.cookie_secure {
            push_all(&mut c, &chars_of("; Secure"));
        }
        if self.config.cookie_http_only {
            push_all(&mut c, &chars_of("; HttpOnly"));
        }
        push_all(&mut c, &chars_of("; Max-Age="));
        push_all(&mut c, &decimal_of(self.config.ttl_seconds));
        assert(c@ =~= cookie_text(self.config, session_id@));
        string_of(&c)
    }
}

pub open spec fn owned_by(s: SessionView, uid: Seq<char>) -> bool {
    s.user_id == Some(uid)
}

pub open spec fn count_user(st: Seq<SessionView>, uid: Seq<char>) -> nat
    decreases st.len(),
{
    if st.len() == 0 {
        0
    } else {
        count_user(st.drop_last(), uid) + if owned_by(st.last(), uid) { 1nat } else { 0nat }
    }
}

/// The user's session created first (the earliest stored among equals).
pub open spec fn oldest_of(st: Seq<SessionView>, uid: Seq<char>) -> Option<SessionView>
    decreases st.len(),
{
    if st.len() == 0 {
        None
    } else {
        let p = oldest_of(st.drop_last(), uid);
        if owned_by(st.last(), uid) && (p is None || st.last().created_at < p->0.created_at) {
            Some(st.last())
        } else {
            p
        }
    }
}

/// The store after a login of `uid`: with a per-user cap reached, the
/// user's oldest session goes first; with regeneration, the old identifier
/// goes; then the session is saved under its (new) identifier.
pub open spec fn login_outcome(
    cfg: SessionConfig,
    st: Seq<SessionView>,
    s: SessionView,
    uid: Seq<char>,
    new_id: Seq<char>,
    new_csrf: Seq<char>,
) -> (SessionView, Seq<SessionView>) {
    let a = match cfg.max_sessions_per_user {
        Some(m) => if count_user(st, uid) >= m {
            match oldest_of(st, uid) {
                Some(o) => store_delete(st, o.id),
                None => st,
            }
        } else {
            st
        },
        None => st,
    };
    let (s2, b) = if cfg.regenerate_id_on_login {
        (SessionView { id: new_id, csrf_token: Some(new_csrf), ..s }, store_delete(a, s.id))
    } else {
        (s, a)
    };
    let s3 = SessionView { user_id: Some(uid), ..s2 };
    (s3, store_put(b, s3))
}

impl MemoryStore {
    /// How many stored sessions belong to `uid`, and the oldest of them.
    fn user_summary(&self, uid: &String) -> (r: (usize, Option<String>))
        ensures
            r.0 as nat == count_user(self.contents(), uid@),
            match r.1 {
                Some(id) => oldest_of(self.contents(), uid@) matches Some(o) && o.id == id@,
                None => oldest_of(self.contents(), uid@) is None,
            },
    {
        let ghost st = self.contents();
        let mut n: usize = 0;
        let mut best: Option<usize> = None;
        let mut i: usize = 0;
        while i < self.sessions.len()
            invariant
                st == self.contents(),
                i <= st.len(),
                n <= i,
                n as nat == count_user(st.take(i as int), uid@),
                match best {
                    Some(b) => b < i && oldest_of(st.take(i as int), uid@) == Some(st[b as int]),
                    None => oldest_of(st.take(i as int), uid@) is None,
                },
            decreases st.len() - i,
        {
            assert(st.take(i + 1).drop_last() =~= st.take(i as int));
            assert(st[i as int] == self.sessions@[i as int]@);
            let owned = same_opt(&self.sessions[i].user_id, &Some(uid.clone()));
            if owned {
                n = n + 1;
                let better = match best {
                    None => true,
                    Some(b) => self.sessions[i].created_at < self.sessions[b].created_at,
                };
                if better {
                    best = Some(i);
                }
            }
            i = i + 1;
        }
        assert(st.take(i as int) =~= st);
        match best {
            Some(b) => (n, Some(self.sessions[b].id.clone())),
            None => (n, None),
        }
    }
}

impl SessionManager {
    /// Logs `user_id` in on `session`, with the identifier and CSRF token
    /// that a regeneration uses.
    pub fn login_with_tokens(&mut self, session: &mut Session, user_id: String, new_id: String, new_csrf: String)
        ensures
            final(self).config() == old(self).config(),
            (final(session)@, final(self).stored()) == login_outcome(
                old(self).config(),
                old(self).stored(),
                old(session)@,
                user_id@,
                new_id@,
                new_csrf@,
            ),
    {
        match self.config.max_sessions_per_user {
            Some(max) => {
                let (count, oldest) = self.store.user_summary(&user_id);
                if count >= max {
                    match oldest {
                        Some(id) => self.store.delete(id.as_str()),
                        None => {},
                    }
                }
            },
            None => {},
        }
        if self.config.regenerate_id_on_login {
            let old_id = session.id.clone();
            session.id = new_id;
            session.csrf_token = Some(new_csrf);
            self.store.delete(old_id.as_str());
        }
        session.user_id = Some(user_id);
        self.store.save(session.duplicate());
    }

    /// Logs `user_id` in on `session`, with a fresh identifier and CSRF
    /// token when regeneration is configured.
    pub fn login(&mut self, session: &mut Session, user_id: String)
        ensures
            final(self).config() == old(self).config(),
            exists|new_id: Seq<char>, new_csrf: Seq<char>|
                (final(session)@, final(self).stored()) == login_outcome(
                    old(self).config(),
                    old(self).stored(),
                    old(session)@,
                    user_id@,
                    new_id,
                    new_csrf,
                ),
    {
        let new_id = generate_session_id();
        let new_csrf = generate_csrf_token();
        let ghost (i, c) = (new_id@, new_csrf@);
        self.login_with_tokens(session, user_id, new_id, new_csrf);
        assert((final(session)@, self.stored()) == login_outcome(
            old(self).config(),
            old(self).stored(),
            old(session)@,
            user_id@,
            i,
            c,
        ));
    }
}

/// Pieces of `s` between occurrences of `sep`.
pub open spec fn parts_on(s: Seq<char>, sep: char) -> Seq<Seq<char>>
    decreases s.len(),
{
    if s.len() == 0 {
        seq![Seq::empty()]
    } else {
        let prev = parts_on(s.drop_last(), sep);
        if s.last() == sep {
            prev.push(Seq::empty())
        } else {
            prev.update(prev.len() - 1, prev.last().push(s.last()))
        }
    }
}

pub open spec fn is_space(c: char) -> bool {
    c == ' ' || c == '\t' || c == '\n' || c == '\r' || c == '\x0b' || c == '\x0c'
}

pub open spec fn trim_left(s: Seq<char>) -> Seq<char>
    decreases s.len(),
{
    if s.len() > 0 && is_space(s[0]) { trim_left(s.skip(1)) } else { s }
}

pub open spec fn trim_right(s: Seq<char>) -> Seq<char>
    decreases s.len(),
{
    if s.len() > 0 && is_space(s.last()) { trim_right(s.drop_last()) } else { s }
}

pub open spec fn first_eq(s: Seq<char>, i: int) -> bool {
    0 <= i < s.len() && s[i] == '=' && forall|k: int| 0 <= k < i ==> s[k] != '='
}

/// The value of the cookie `name` in one `name=value` piece, if it is that cookie.
pub open spec fn cookie_in(piece: Seq<char>, name: Seq<char>) -> Option<Seq<char>> {
    let t = trim_right(trim_left(piece));
    if exists|i: int| first_eq(t, i) {
        let i = choose|i: int| first_eq(t, i);
        if t.take(i) == name { Some(t.skip(i + 1)) } else { None }
    } else {
        None
    }
}

/// The first piece of a `Cookie` header that is the cookie `name`.
pub open spec fn cookie_value(pieces: Seq<Seq<char>>, name: Seq<char>) -> Option<Seq<char>>
    decreases pieces.len(),
{
    if pieces.len() == 0 {
        None
    } else {
        match cookie_in(pieces[0], name) {
            Some(v) => Some(v),
            None => cookie_value(pieces.skip(1), name),
        }
    }
}

proof fn lemma_parts_nonempty(s: Seq<char>, sep: char)
    ensures
        parts_on(s, sep).len() >= 1,
    decreases s.len(),
{
    if s.len() > 0 {
        lemma_parts_nonempty(s.drop_last(), sep);
    }
}

fn parts_of(s: &Vec<char>, sep: char) -> (r: Vec<Vec<char>>)
    ensures
        r@.map_values(|v: Vec<char>| v@) == parts_on(s@, sep),
{
    let mut done: Vec<Vec<char>> = Vec::new();
    let mut cur: Vec<char> = Vec::new();
    let mut i: usize = 0;
    assert(s@.take(0) =~= Seq::<char>::empty());
    assert(done@.map_values(|v: Vec<char>| v@) =~= parts_on(s@.take(0), sep).drop_last());
    while i < s.len()
        invariant
            i <= s@.len(),
            parts_on(s@.take(i as int), sep).len() >= 1,
            done@.map_values(|v: Vec<char>| v@) == parts_on(s@.take(i as int), sep).drop_last(),
            cur@ == parts_on(s@.take(i as int), sep).last(),
        decreases s@.len() - i,
    {
        let ghost parts = parts_on(s@.take(i as int), sep);
        assert(s@.take(i + 1).drop_last() =~= s@.take(i as int));
        if s[i] == sep {
            let ghost prev = done@.map_values(|v: Vec<char>| v@);
            let ghost cv = cur@;
            assert(parts =~= parts.drop_last().push(parts.last()));
            done.push(cur);
            assert(done@.map_values(|v: Vec<char>| v@) =~= prev.push(cv));
            cur = Vec::new();
            assert(parts.push(Seq::<char>::empty()).drop_last() =~= parts);
            assert(cur@ =~= Seq::<char>::empty());
        } else {
            cur.push(s[i]);
            assert(parts.update(parts.len() - 1, parts.last().push(s@[i as int])).drop_last() =~= parts.drop_last());
        }
        i = i + 1;
        proof {
            lemma_parts_nonempty(s@.take(i as int), sep);
        }
    }
    assert(s@.take(i as int) =~= s@);
    let ghost parts = parts_on(s@, sep);
    let ghost prev = done@.map_values(|v: Vec<char>| v@);
    done.push(cur);
    assert(done@.map_values(|v: Vec<char>| v@) =~= prev.push(parts.last()));
    assert(parts =~= parts.drop_last().push(parts.last()));
    done
}

fn is_space_char(c: char) -> (r: bool)
    ensures
        r == is_space(c),
{
    c == ' ' || c == '\t' || c == '\n' || c == '\r' || c == '\x0b' || c == '\x0c'
}

fn trim_chars(s: &Vec<char>) -> (r: Vec<char>)
    ensures
        r@ == trim_right(trim_left(s@)),
{
    let n = s.len();
    let mut i: usize = 0;
    assert(s@.skip(0) =~= s@);
    while i < n && is_space_char(s[i])
        invariant
            n == s@.len(),
            i <= n,
            trim_left(s@) == trim_left(s@.skip(i as int)),
        decreases n - i,
    {
        assert(s@.skip(i as int).skip(1) =~= s@.skip(i + 1));
        assert(s@.skip(i as int)[0] == s@[i as int]);
        i = i + 1;
    }
    assert(trim_left(s@.skip(i as int)) == s@.skip(i as int)) by {
        if i < n {
            assert(s@.skip(i as int)[0] == s@[i as int]);
        }
    }
    let mut j: usize = n;
    assert(s@.skip(i as int) =~= s@.subrange(i as int, n as int));
    while j > i && is_space_char(s[j - 1])
        invariant
            n == s@.len(),
            i <= j <= n,
            trim_right(trim_left(s@)) == trim_right(s@.subrange(i as int, j as int)),
        decreases j - i,
    {
        assert(s@.subrange(i as int, j as int).drop_last() =~= s@.subrange(i as int, j - 1));
        j = j - 1;
    }
    let r = crate::text::slice(s, i, j);
    assert(trim_right(r@) == r@) by {
        if j > i {
            assert(r@.last() == s@[j - 1]);
        }
    }
    r
}

fn cookie_in_of(piece: &Vec<char>, name: &Vec<char>) -> (r: Option<Vec<char>>)
    ensures
        match r {
            Some(v) => cookie_in(piece@, name@) == Some(v@),
            None => cookie_in(piece@, name@) is None,
        },
{
    let t = trim_chars(piece);
    let mut i: usize = 0;
    while i < t.len() && t[i] != '='
        invariant
            i <= t@.len(),
            forall|k: int| 0 <= k < i ==> t@[k] != '=',
        decreases t@.len() - i,
    {
        i = i + 1;
    }
    if i == t.len() {
        assert(!exists|j: int| first_eq(t@, j)) by {
            if exists|j: int| first_eq(t@, j) {
                let j = choose|j: int| first_eq(t@, j);
                assert(t@[j] == '=');
            }
        }
        return None;
    }
    assert(first_eq(t@, i as int));
    assert forall|j: int| first_eq(t@, j) implies j == i by {
        if j < i {
            assert(t@[j] == '=');
        } else if j > i {
            assert(t@[i as int] == '=');
        }
    }
    let key = crate::text::slice(&t, 0, i);
    assert(key@ =~= t@.take(i as int));
    if eq_chars(&key, name) {
        let v = crate::text::slice(&t, i + 1, t.len());
        assert(v@ =~= t@.skip(i + 1));
        Some(v)
    } else {
        None
    }
}

impl SessionManager {
    /// The session identifier in the request's `Cookie` header, under the
    /// configured cookie name.
    pub fn extract_session_id(&self, headers: &Vec<(String, String)>) -> (r: Option<String>)
        ensures
            opt_view(r) == request_session_id(self.config(), pairs_view(headers@)),
    {
        let cookies = match header_value(headers, "cookie") {
            Some(c) => c,
            None => {
                return None;
            },
        };
        let pieces = parts_of(&chars_of(cookies.as_str()), ';');
        let ghost pv = pieces@.map_values(|v: Vec<char>| v@);
        let name = chars_of(self.config.cookie_name.as_str());
        let mut i: usize = 0;
        assert(pv.skip(0) =~= pv);
        while i < pieces.len()
            invariant
                pv == pieces@.map_values(|v: Vec<char>| v@),
                pv == parts_on(cookies@, ';'),
                first_value(pairs_view(headers@), "cookie"@) == Some(cookies@),
                name@ == self.config.cookie_name@,
                i <= pv.len(),
                cookie_value(pv, name@) == cookie_value(pv.skip(i as int), name@),
            decreases pv.len() - i,
        {
            assert(pv.skip(i as int).skip(1) =~= pv.skip(i + 1));
            assert(pv.skip(i as int)[0] == pieces@[i as int]@);
            match cookie_in_of(&pieces[i], &name) {
                Some(v) => {
                    return Some(string_of(&v));
                },
                None => {},
            }
            i = i + 1;
        }
        None
    }
}

} // verus!
