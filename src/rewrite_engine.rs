//! Apache-style URL rewriting: rules with flags, one shared list of
//! conditions, `%{...}` server variables. An internal rewrite starts the
//! rules over on the new URL, at most `MAX_INTERNAL_REWRITES` times in all.
use crate::pattern::{captures, compiles, groups_view, match_groups, regex_valid};
use crate::rewrite::{compiled, one_char, pairs_view, substitute_groups, group_token};
use crate::text::{
    chars_of, contains_char, decimal_of, eq_chars, find_char, matches_at, occurs_at, push_all,
    replace_all, replaced, string_of, upper, upper_vec,
};
use vstd::prelude::*;

verus! {

/// How many passes over the rules one URL may take.
pub const MAX_INTERNAL_REWRITES: usize = 32;

#[derive(Clone, Copy, Debug, PartialEq, Eq, Structural)]
pub enum RewriteFlag {
    /// Last: stop after this rule.
    L,
    /// Redirect, permanent.
    R,
    /// Proxy.
    P,
    /// Forbidden.
    F,
    /// Gone.
    G,
    /// Match without regard to case.
    NC,
    /// Append the query string.
    QSA,
    R301,
    R302,
}

#[derive(Clone, Copy, Debug, PartialEq, Eq, Structural)]
pub enum ConditionFlag {
    NC,
    /// Fold with the next condition by OR.
    OR,
}

#[derive(Clone, Debug)]
pub struct RewriteRule {
    pub pattern: String,
    pub replacement: String,
    pub flags: Vec<RewriteFlag>,
}

#[derive(Clone, Debug)]
pub struct RewriteCondition {
    pub test_string: String,
    pub pattern: String,
    pub flags: Vec<ConditionFlag>,
}

#[derive(Clone, Debug)]
pub struct RewriteConfig {
    pub rules: Vec<RewriteRule>,
    pub conditions: Vec<RewriteCondition>,
}

#[derive(Clone, Debug)]
pub enum RewriteResult {
    NoMatch,
    Rewrite { url: String },
    Redirect { url: String, permanent: bool },
    Proxy { url: String },
    Forbidden,
    Gone,
}

pub ghost enum ResultView {
    NoMatch,
    Rewrite(Seq<char>),
    Redirect(Seq<char>, bool),
    Proxy(Seq<char>),
    Forbidden,
    Gone,
}

impl View for RewriteResult {
    type V = ResultView;

    open spec fn view(&self) -> ResultView {
        match self {
            RewriteResult::NoMatch => ResultView::NoMatch,
            RewriteResult::Rewrite { url } => ResultView::Rewrite(url@),
            RewriteResult::Redirect { url, permanent } => ResultView::Redirect(url@, *permanent),
            RewriteResult::Proxy { url } => ResultView::Proxy(url@),
            RewriteResult::Forbidden => ResultView::Forbidden,
            RewriteResult::Gone => ResultView::Gone,
        }
    }
}

impl RewriteResult {
    /// The URL a result carries; empty for results without one.
    pub fn get_url(&self) -> (r: String)
        ensures
            r@ == match self@ {
                ResultView::Rewrite(u) => u,
                ResultView::Redirect(u, _) => u,
                ResultView::Proxy(u) => u,
                _ => Seq::empty(),
            },
    {
        match self {
            RewriteResult::Rewrite { url } => url.clone(),
            RewriteResult::Redirect { url, .. } => url.clone(),
            RewriteResult::Proxy { url } => url.clone(),
            _ => String::new(),
        }
    }
}

/// `%{ENV:name}` ends at the first `}` after the name, which is not empty.
pub open spec fn env_close_at(s: Seq<char>, j: int) -> bool {
    7 <= j < s.len() && s[j] == '}' && forall|k: int| 6 <= k < j ==> s[k] != '}'
}

pub open spec fn env_open() -> Seq<char> {
    seq!['%', '{', 'E', 'N', 'V', ':']
}

pub open spec fn env_value(env: Seq<(Seq<char>, Seq<char>)>, name: Seq<char>) -> Seq<char>
    decreases env.len(),
{
    if env.len() == 0 {
        Seq::empty()
    } else if env[0].0 == name {
        env[0].1
    } else {
        env_value(env.skip(1), name)
    }
}

/// Each `%{ENV:name}` replaced by the value of the variable (empty when unset).
pub open spec fn expand_env(s: Seq<char>, env: Seq<(Seq<char>, Seq<char>)>) -> Seq<char>
    decreases s.len(),
{
    if s.len() == 0 {
        s
    } else if occurs_at(s, 0, env_open()) && exists|j: int| env_close_at(s, j) {
        let j = choose|j: int| env_close_at(s, j);
        env_value(env, s.subrange(6, j)) + expand_env(s.skip(j + 1), env)
    } else {
        seq![s[0]] + expand_env(s.skip(1), env)
    }
}

pub open spec fn header_token(name: Seq<char>) -> Seq<char> {
    "%{HTTP:"@ + upper(name) + seq!['}']
}

pub open spec fn expand_http(t: Seq<char>, hs: Seq<(Seq<char>, Seq<char>)>) -> Seq<char>
    decreases hs.len(),
{
    if hs.len() == 0 {
        t
    } else {
        replaced(expand_http(t, hs.drop_last()), header_token(hs.last().0), hs.last().1)
    }
}

/// Server variables: the request URI, then each header, then the environment.
pub open spec fn expand_vars(
    t: Seq<char>,
    url: Seq<char>,
    hs: Seq<(Seq<char>, Seq<char>)>,
    env: Seq<(Seq<char>, Seq<char>)>,
) -> Seq<char> {
    expand_env(expand_http(replaced(t, "%{REQUEST_URI}"@, url), hs), env)
}

pub open spec fn has_cflag(c: RewriteCondition, f: ConditionFlag) -> bool {
    c.flags@.contains(f)
}

pub open spec fn has_rflag(r: RewriteRule, f: RewriteFlag) -> bool {
    r.flags@.contains(f)
}

pub open spec fn cond_matches(
    c: RewriteCondition,
    url: Seq<char>,
    hs: Seq<(Seq<char>, Seq<char>)>,
    env: Seq<(Seq<char>, Seq<char>)>,
) -> bool {
    match_groups(compiled(c.pattern@, has_cflag(c, ConditionFlag::NC)), expand_vars(c.test_string@, url, hs, env))
        is Some
}

/// The first `n` conditions folded: AND, except OR right after a condition with the OR flag.
pub open spec fn fold_conds(
    cs: Seq<RewriteCondition>,
    url: Seq<char>,
    hs: Seq<(Seq<char>, Seq<char>)>,
    env: Seq<(Seq<char>, Seq<char>)>,
    n: nat,
) -> bool
    decreases n,
{
    if n == 0 {
        true
    } else {
        let prev = fold_conds(cs, url, hs, env, (n - 1) as nat);
        let m = cond_matches(cs[n - 1], url, hs, env);
        if n >= 2 && has_cflag(cs[n - 2], ConditionFlag::OR) {
            prev || m
        } else {
            prev && m
        }
    }
}

/// The rewritten URL: groups substituted, the query string appended for QSA.
pub open spec fn rewritten(r: RewriteRule, g: Seq<Option<Seq<char>>>, query: Option<Seq<char>>) -> Seq<char> {
    let s = substitute_groups(r.replacement@, g, g.len());
    match query {
        Some(q) => if has_rflag(r, RewriteFlag::QSA) {
            s + (if contains_char(s, '?') { seq!['&'] } else { seq!['?'] }) + q
        } else {
            s
        },
        None => s,
    }
}

/// A run that ended without a match after a rewrite to `u` yields that rewrite.
pub open spec fn or_rewrite(r: ResultView, u: Seq<char>) -> ResultView {
    match r {
        ResultView::NoMatch => ResultView::Rewrite(u),
        _ => r,
    }
}

/// The rules from the `i`-th on, applied to `url` with `passes` passes left
/// after this one. The result and the number of rules examined.
pub open spec fn run_rules(
    rules: Seq<RewriteRule>,
    conds: Seq<RewriteCondition>,
    hs: Seq<(Seq<char>, Seq<char>)>,
    env: Seq<(Seq<char>, Seq<char>)>,
    query: Option<Seq<char>>,
    url: Seq<char>,
    i: nat,
    passes: nat,
) -> (ResultView, nat)
    decreases passes, rules.len() - i,
{
    if i >= rules.len() {
        (ResultView::NoMatch, 0)
    } else {
        let r = rules[i as int];
        let skip = run_rules(rules, conds, hs, env, query, url, i + 1, passes);
        if !fold_conds(conds, url, hs, env, conds.len()) {
            (skip.0, skip.1 + 1)
        } else {
            match match_groups(compiled(r.pattern@, has_rflag(r, RewriteFlag::NC)), url) {
                None => (skip.0, skip.1 + 1),
                Some(g) => {
                    let new = rewritten(r, g, query);
                    if has_rflag(r, RewriteFlag::F) {
                        (ResultView::Forbidden, 1)
                    } else if has_rflag(r, RewriteFlag::G) {
                        (ResultView::Gone, 1)
                    } else if has_rflag(r, RewriteFlag::R301) {
                        (ResultView::Redirect(new, true), 1)
                    } else if has_rflag(r, RewriteFlag::R) || has_rflag(r, RewriteFlag::R302) {
                        (ResultView::Redirect(new, false), 1)
                    } else if has_rflag(r, RewriteFlag::P) {
                        (ResultView::Proxy(new), 1)
                    } else if has_rflag(r, RewriteFlag::L) || passes == 0 {
                        (ResultView::Rewrite(new), 1)
                    } else {
                        let again = run_rules(rules, conds, hs, env, query, new, 0, (passes - 1) as nat);
                        (or_rewrite(again.0, new), again.1 + 1)
                    }
                },
            }
        }
    }
}

/// Processing examines at most the number of rules times the number of passes.
pub proof fn lemma_run_rules_bounded(
    rules: Seq<RewriteRule>,
    conds: Seq<RewriteCondition>,
    hs: Seq<(Seq<char>, Seq<char>)>,
    env: Seq<(Seq<char>, Seq<char>)>,
    query: Option<Seq<char>>,
    url: Seq<char>,
    i: nat,
    passes: nat,
)
    requires
        i <= rules.len(),
    ensures
        run_rules(rules, conds, hs, env, query, url, i, passes).1 <= (rules.len() - i) + rules.len()
            * passes,
    decreases passes, rules.len() - i,
{
    if i < rules.len() {
        lemma_run_rules_bounded(rules, conds, hs, env, query, url, i + 1, passes);
        let r = rules[i as int];
        if passes > 0 {
            match match_groups(compiled(r.pattern@, has_rflag(r, RewriteFlag::NC)), url) {
                Some(g) => {
                    lemma_run_rules_bounded(rules, conds, hs, env, query, rewritten(r, g, query), 0, (passes - 1) as nat);
                    assert(rules.len() * passes == rules.len() * (passes - 1) + rules.len()) by (nonlinear_arith);
                },
                None => {},
            }
        }
    }
}

/// A whole run over `MAX_INTERNAL_REWRITES` passes examines at most
/// `rules × MAX_INTERNAL_REWRITES` rules.
pub proof fn lemma_process_bounded(
    rules: Seq<RewriteRule>,
    conds: Seq<RewriteCondition>,
    hs: Seq<(Seq<char>, Seq<char>)>,
    env: Seq<(Seq<char>, Seq<char>)>,
    query: Option<Seq<char>>,
    url: Seq<char>,
)
    ensures
        run_rules(rules, conds, hs, env, query, url, 0, (MAX_INTERNAL_REWRITES - 1) as nat).1 <= rules.len()
            * MAX_INTERNAL_REWRITES,
{
    lemma_run_rules_bounded(rules, conds, hs, env, query, url, 0, (MAX_INTERNAL_REWRITES - 1) as nat);
    assert(rules.len() + rules.len() * 31 == rules.len() * 32) by (nonlinear_arith);
}

/// With no rules there is no match.
pub proof fn lemma_no_rules(
    conds: Seq<RewriteCondition>,
    hs: Seq<(Seq<char>, Seq<char>)>,
    env: Seq<(Seq<char>, Seq<char>)>,
    query: Option<Seq<char>>,
    url: Seq<char>,
    passes: nat,
)
    ensures
        run_rules(Seq::empty(), conds, hs, env, query, url, 0, passes).0 == ResultView::NoMatch,
{
}

proof fn lemma_env_step(s: Seq<char>, i: int, env: Seq<(Seq<char>, Seq<char>)>, close: Option<int>)
    requires
        0 <= i < s.len(),
        match close {
            Some(c) => i + 6 <= c < s.len() && s[c] == '}' && forall|k: int| i + 6 <= k < c ==> s[k] != '}',
            None => forall|k: int| i + 6 <= k < s.len() ==> s[k] != '}',
        },
    ensures
        (occurs_at(s, i, env_open()) && (close matches Some(c) && c > i + 6)) ==> expand_env(s.skip(i), env)
            == env_value(env, s.subrange(i + 6, close->0)) + expand_env(s.skip(close->0 + 1), env),
        !(occurs_at(s, i, env_open()) && (close matches Some(c) && c > i + 6)) ==> expand_env(s.skip(i), env)
            == seq![s[i]] + expand_env(s.skip(i + 1), env),
{
    let t = s.skip(i);
    assert(t.skip(1) =~= s.skip(i + 1));
    assert(t[0] == s[i]);
    assert(occurs_at(t, 0, env_open()) == occurs_at(s, i, env_open())) by {
        if i + 6 <= s.len() {
            assert(t.subrange(0, 6) =~= s.subrange(i, i + 6));
        }
    }
    match close {
        Some(c) => {
            if c > i + 6 {
                assert(env_close_at(t, c - i));
                assert forall|j: int| env_close_at(t, j) implies j == c - i by {
                    if j < c - i {
                        assert(s[i + j] == '}');
                    } else if j > c - i {
                        assert(t[c - i] == '}');
                    }
                }
                if occurs_at(s, i, env_open()) {
                    let j = choose|j: int| env_close_at(t, j);
                    assert(j == c - i);
                    assert(t.subrange(6, j) =~= s.subrange(i + 6, c));
                    assert(t.skip(j + 1) =~= s.skip(c + 1));
                }
            } else {
                assert forall|j: int| !env_close_at(t, j) by {
                    if env_close_at(t, j) {
                        assert(t[6] != '}');
                    }
                }
            }
        },
        None => {
            assert forall|j: int| !env_close_at(t, j) by {
                if env_close_at(t, j) {
                    assert(s[i + j] == '}');
                }
            }
        },
    }
}

fn find_close(s: &Vec<char>, from: usize) -> (r: Option<usize>)
    requires
        from <= s@.len(),
    ensures
        match r {
            Some(c) => from <= c < s@.len() && s@[c as int] == '}' && forall|k: int|
                from <= k < c ==> s@[k] != '}',
            None => forall|k: int| from <= k < s@.len() ==> s@[k] != '}',
        },
{
    let mut k: usize = from;
    while k < s.len()
        invariant
            from <= k <= s@.len(),
            forall|j: int| from <= j < k ==> s@[j] != '}',
        decreases s@.len() - k,
    {
        if s[k] == '}' {
            return Some(k);
        }
        k = k + 1;
    }
    None
}

fn env_lookup(env: &Vec<(String, String)>, name: &Vec<char>) -> (r: Vec<char>)
    ensures
        r@ == env_value(pairs_view(env@), name@),
{
    let ghost e = pairs_view(env@);
    let mut i: usize = 0;
    assert(e.skip(0) =~= e);
    while i < env.len()
        invariant
            e == pairs_view(env@),
            i <= env@.len(),
            env_value(e, name@) == env_value(e.skip(i as int), name@),
        decreases env@.len() - i,
    {
        assert(e.skip(i as int).skip(1) =~= e.skip(i + 1));
        assert(e.skip(i as int)[0] == e[i as int]);
        if eq_chars(&chars_of(env[i].0.as_str()), name) {
            return chars_of(env[i].1.as_str());
        }
        i = i + 1;
    }
    Vec::new()
}

fn expand_env_of(s: &Vec<char>, env: &Vec<(String, String)>) -> (r: Vec<char>)
    ensures
        r@ == expand_env(s@, pairs_view(env@)),
{
    let ghost e = pairs_view(env@);
    let open = vec!['%', '{', 'E', 'N', 'V', ':'];
    assert(open@ =~= env_open());
    let mut out: Vec<char> = Vec::new();
    let mut i: usize = 0;
    assert(s@.skip(0) =~= s@);
    assert(out@ + expand_env(s@, e) =~= expand_env(s@, e));
    while i < s.len()
        invariant
            e == pairs_view(env@),
            open@ == env_open(),
            i <= s@.len(),
            out@ + expand_env(s@.skip(i as int), e) == expand_env(s@, e),
        decreases s@.len() - i,
    {
        let at_open = matches_at(s, i, &open);
        let close = if 6 <= s.len() - i {
            find_close(s, i + 6)
        } else {
            None
        };
        let ghost gclose: Option<int> = match close {
            Some(c) => Some(c as int),
            None => None,
        };
        proof {
            if i + 6 <= s@.len() {
                lemma_env_step(s@, i as int, e, gclose);
            } else {
                assert(!occurs_at(s@, i as int, env_open()));
                lemma_env_step(s@, i as int, e, None);
            }
        }
        let ghost prev = out@;
        match close {
            Some(c) => {
                if at_open && c > i + 6 {
                    let name = crate::text::slice(s, i + 6, c);
                    push_all(&mut out, &env_lookup(env, &name));
                    assert(out@ + expand_env(s@.skip(c + 1), e) =~= prev + (env_value(e, s@.subrange(i + 6, c as int))
                        + expand_env(s@.skip(c + 1), e)));
                    i = c + 1;
                    continue;
                }
            },
            None => {},
        }
        out.push(s[i]);
        assert(out@ + expand_env(s@.skip(i + 1), e) =~= prev + (seq![s@[i as int]] + expand_env(s@.skip(i + 1), e)));
        i = i + 1;
    }
    assert(s@.skip(i as int) =~= Seq::<char>::empty());
    assert(out@ + Seq::<char>::empty() =~= out@);
    out
}

fn expand_vars_of(
    t: &Vec<char>,
    url: &Vec<char>,
    headers: &Vec<(String, String)>,
    env: &Vec<(String, String)>,
) -> (r: Vec<char>)
    ensures
        r@ == expand_vars(t@, url@, pairs_view(headers@), pairs_view(env@)),
{
    proof {
        reveal_strlit("%{REQUEST_URI}");
        reveal_strlit("%{HTTP:");
    }
    let mut h = replace_all(t, &chars_of("%{REQUEST_URI}"), url);
    let ghost g = h@;
    let ghost hs = pairs_view(headers@);
    let mut i: usize = 0;
    while i < headers.len()
        invariant
            hs == pairs_view(headers@),
            i <= headers@.len(),
            h@ == expand_http(g, hs.take(i as int)),
        decreases headers@.len() - i,
    {
        let mut token = chars_of("%{HTTP:");
        push_all(&mut token, &upper_vec(&chars_of(headers[i].0.as_str())));
        token.push('}');
        assert(token@ =~= header_token(hs[i as int].0));
        h = replace_all(&h, &token, &chars_of(headers[i].1.as_str()));
        i = i + 1;
        assert(hs.take(i as int).drop_last() =~= hs.take(i - 1));
    }
    assert(hs.take(i as int) =~= hs);
    expand_env_of(&h, env)
}

fn has_cond_flag(c: &RewriteCondition, f: ConditionFlag) -> (r: bool)
    ensures
        r == has_cflag(*c, f),
{
    let mut i: usize = 0;
    while i < c.flags.len()
        invariant
            i <= c.flags@.len(),
            forall|k: int| 0 <= k < i ==> c.flags@[k] != f,
        decreases c.flags@.len() - i,
    {
        if c.flags[i] == f {
            assert(c.flags@[i as int] == f);
            return true;
        }
        i = i + 1;
    }
    false
}

fn has_rule_flag(r: &RewriteRule, f: RewriteFlag) -> (b: bool)
    ensures
        b == has_rflag(*r, f),
{
    let mut i: usize = 0;
    while i < r.flags.len()
        invariant
            i <= r.flags@.len(),
            forall|k: int| 0 <= k < i ==> r.flags@[k] != f,
        decreases r.flags@.len() - i,
    {
        if r.flags[i] == f {
            assert(r.flags@[i as int] == f);
            return true;
        }
        i = i + 1;
    }
    false
}

fn pattern_text(p: &String, nocase: bool) -> (r: String)
    ensures
        r@ == compiled(p@, nocase),
{
    if nocase {
        let mut v = vec!['(', '?', 'i', ')'];
        push_all(&mut v, &chars_of(p.as_str()));
        assert(v@ =~= compiled(p@, nocase));
        string_of(&v)
    } else {
        p.clone()
    }
}

pub open spec fn rule_ok(r: RewriteRule) -> bool {
    regex_valid(compiled(r.pattern@, has_rflag(r, RewriteFlag::NC)))
}

pub open spec fn cond_ok(c: RewriteCondition) -> bool {
    regex_valid(compiled(c.pattern@, has_cflag(c, ConditionFlag::NC)))
}

#[derive(Clone, Debug)]
pub enum RewriteError {
    InvalidRulePattern { pattern: String },
    InvalidConditionPattern { pattern: String },
}

pub struct RewriteEngine {
    rules: Vec<RewriteRule>,
    conditions: Vec<RewriteCondition>,
    env: Vec<(String, String)>,
}

impl RewriteEngine {
    pub closed spec fn rules(&self) -> Seq<RewriteRule> {
        self.rules@
    }

    pub closed spec fn conditions(&self) -> Seq<RewriteCondition> {
        self.conditions@
    }

    /// The environment that `%{ENV:...}` reads.
    pub closed spec fn env(&self) -> Seq<(Seq<char>, Seq<char>)> {
        pairs_view(self.env@)
    }

    /// Compiles the rules and conditions; one pattern that does not compile
    /// refuses the whole configuration.
    pub fn new(config: RewriteConfig) -> (r: Result<Self, RewriteError>)
        ensures
            r is Ok <==> (forall|i: int| 0 <= i < config.rules@.len() ==> rule_ok(#[trigger] config.rules@[i]))
                && (forall|i: int| 0 <= i < config.conditions@.len() ==> cond_ok(#[trigger] config.conditions@[i])),
            r matches Ok(e) ==> e.rules() == config.rules@ && e.conditions() == config.conditions@
                && e.env().len() == 0,
    {
        let mut i: usize = 0;
        while i < config.rules.len()
            invariant
                i <= config.rules@.len(),
                forall|k: int| 0 <= k < i ==> rule_ok(#[trigger] config.rules@[k]),
            decreases config.rules@.len() - i,
        {
            let p = pattern_text(&config.rules[i].pattern, has_rule_flag(&config.rules[i], RewriteFlag::NC));
            if !compiles(p.as_str()) {
                assert(!rule_ok(config.rules@[i as int]));
                return Err(RewriteError::InvalidRulePattern { pattern: p });
            }
            i = i + 1;
        }
        let mut j: usize = 0;
        while j < config.conditions.len()
            invariant
                j <= config.conditions@.len(),
                forall|k: int| 0 <= k < config.rules@.len() ==> rule_ok(#[trigger] config.rules@[k]),
                forall|k: int| 0 <= k < j ==> cond_ok(#[trigger] config.conditions@[k]),
            decreases config.conditions@.len() - j,
        {
            let c = &config.conditions[j];
            let p = pattern_text(&c.pattern, has_cond_flag(c, ConditionFlag::NC));
            if !compiles(p.as_str()) {
                assert(!cond_ok(config.conditions@[j as int]));
                return Err(RewriteError::InvalidConditionPattern { pattern: p });
            }
            j = j + 1;
        }
        let env: Vec<(String, String)> = Vec::new();
        assert(pairs_view(env@) =~= Seq::<(Seq<char>, Seq<char>)>::empty());
        Ok(RewriteEngine { rules: config.rules, conditions: config.conditions, env })
    }

    /// The same engine, reading `%{ENV:...}` from `env`.
    pub fn with_env(self, env: Vec<(String, String)>) -> (r: Self)
        ensures
            r.rules() == self.rules(),
            r.conditions() == self.conditions(),
            r.env() == pairs_view(env@),
    {
        RewriteEngine { rules: self.rules, conditions: self.conditions, env }
    }

    fn check_conditions(&self, url: &Vec<char>, headers: &Vec<(String, String)>) -> (r: bool)
        ensures
            r == fold_conds(self.conditions@, url@, pairs_view(headers@), self.env(), self.conditions@.len()),
    {
        let mut result = true;
        let mut use_or = false;
        let mut i: usize = 0;
        while i < self.conditions.len()
            invariant
                i <= self.conditions@.len(),
                result == fold_conds(self.conditions@, url@, pairs_view(headers@), self.env(), i as nat),
                use_or == (i >= 1 && has_cflag(self.conditions@[i - 1], ConditionFlag::OR)),
            decreases self.conditions@.len() - i,
        {
            let c = &self.conditions[i];
            let test = expand_vars_of(&chars_of(c.test_string.as_str()), url, headers, &self.env);
            let p = pattern_text(&c.pattern, has_cond_flag(c, ConditionFlag::NC));
            let m = captures(p.as_str(), string_of(&test).as_str()).is_some();
            if use_or {
                result = result || m;
            } else {
                result = result && m;
            }
            use_or = has_cond_flag(c, ConditionFlag::OR);
            i = i + 1;
        }
        result
    }

    fn rewrite_with(rule: &RewriteRule, groups: &Vec<Option<String>>, query_string: Option<&str>) -> (r: Vec<char>)
        ensures
            r@ == rewritten(*rule, groups_view(groups@), match query_string {
                Some(q) => Some(q@),
                None => None,
            }),
    {
        let ghost g = groups_view(groups@);
        let mut result = chars_of(rule.replacement.as_str());
        let mut i: usize = 0;
        while i < groups.len()
            invariant
                g == groups_view(groups@),
                i <= groups@.len(),
                result@ == substitute_groups(rule.replacement@, g, i as nat),
            decreases groups@.len() - i,
        {
            match &groups[i] {
                Some(c) => {
                    let mut token = one_char('$');
                    push_all(&mut token, &decimal_of(i as u64));
                    assert(token@ =~= group_token(i as nat));
                    result = replace_all(&result, &token, &chars_of(c.as_str()));
                },
                None => {},
            }
            i = i + 1;
        }
        match query_string {
            Some(q) => {
                if has_rule_flag(rule, RewriteFlag::QSA) {
                    if find_char(&result, '?').is_some() {
                        result.push('&');
                    } else {
                        result.push('?');
                    }
                    push_all(&mut result, &chars_of(q));
                }
            },
            None => {},
        }
        result
    }

    /// Rewrites `url`. An internal rewrite without the L flag starts the
    /// rules over on the new URL, for at most `MAX_INTERNAL_REWRITES` passes;
    /// when no later pass matches, the last rewritten URL is the result.
    pub fn process_url(&self, url: &str, query_string: Option<&str>, headers: &Vec<(String, String)>) -> (r:
        RewriteResult)
        ensures
            r@ == run_rules(
                self.rules(),
                self.conditions(),
                pairs_view(headers@),
                self.env(),
                match query_string {
                    Some(q) => Some(q@),
                    None => None,
                },
                url@,
                0,
                (MAX_INTERNAL_REWRITES - 1) as nat,
            ).0,
    {
        let ghost q = match query_string {
            Some(q) => Some(q@),
            None => None,
        };
        let ghost hs = pairs_view(headers@);
        let ghost target = run_rules(self.rules@, self.conditions@, hs, self.env(), q, url@, 0, (MAX_INTERNAL_REWRITES - 1) as nat).0;
        let mut cur = chars_of(url);
        let mut passes: usize = MAX_INTERNAL_REWRITES - 1;
        let mut i: usize = 0;
        while i < self.rules.len()
            invariant
                i <= self.rules@.len(),
                passes < MAX_INTERNAL_REWRITES,
                q == match query_string {
                    Some(q) => Some(q@),
                    None => None,
                },
                hs == pairs_view(headers@),
                target == run_rules(self.rules@, self.conditions@, hs, self.env(), q, url@, 0, (MAX_INTERNAL_REWRITES - 1) as nat).0,
                (if passes + 1 < MAX_INTERNAL_REWRITES {
                    or_rewrite(run_rules(self.rules@, self.conditions@, hs, self.env(), q, cur@, i as nat, passes as nat).0, cur@)
                } else {
                    run_rules(self.rules@, self.conditions@, hs, self.env(), q, cur@, i as nat, passes as nat).0
                }) == target,
            decreases passes, self.rules@.len() - i,
        {
            let rule = &self.rules[i];
            if self.check_conditions(&cur, headers) {
                let p = pattern_text(&rule.pattern, has_rule_flag(rule, RewriteFlag::NC));
                match captures(p.as_str(), string_of(&cur).as_str()) {
                    Some(groups) => {
                        let new = Self::rewrite_with(rule, &groups, query_string);
                        if has_rule_flag(rule, RewriteFlag::F) {
                            return RewriteResult::Forbidden;
                        }
                        if has_rule_flag(rule, RewriteFlag::G) {
                            return RewriteResult::Gone;
                        }
                        if has_rule_flag(rule, RewriteFlag::R301) {
                            return RewriteResult::Redirect { url: string_of(&new), permanent: true };
                        }
                        if has_rule_flag(rule, RewriteFlag::R) || has_rule_flag(rule, RewriteFlag::R302) {
                            return RewriteResult::Redirect { url: string_of(&new), permanent: false };
                        }
                        if has_rule_flag(rule, RewriteFlag::P) {
                            return RewriteResult::Proxy { url: string_of(&new) };
                        }
                        if has_rule_flag(rule, RewriteFlag::L) || passes == 0 {
                            return RewriteResult::Rewrite { url: string_of(&new) };
                        }
                        cur = new;
                        passes = passes - 1;
                        i = 0;
                        continue;
                    },
                    None => {},
                }
            }
            i = i + 1;
        }
        if passes + 1 < MAX_INTERNAL_REWRITES {
            RewriteResult::Rewrite { url: string_of(&cur) }
        } else {
            RewriteResult::NoMatch
        }
    }
}

impl RewriteConfig {
    pub fn new() -> (r: Self)
        ensures
            r.rules@.len() == 0,
            r.conditions@.len() == 0,
    {
        RewriteConfig { rules: Vec::new(), conditions: Vec::new() }
    }

    /// Redirects a path with a trailing slash to the path without it.
    pub fn add_remove_trailing_slash(&mut self)
        ensures
            final(self).conditions == old(self).conditions,
            final(self).rules@.len() == old(self).rules@.len() + 1,
            final(self).rules@.drop_last() == old(self).rules@,
            final(self).rules@.last().pattern@ == "^(.+)/$"@,
            final(self).rules@.last().replacement@ == "$1"@,
            final(self).rules@.last().flags@ == seq![RewriteFlag::R301, RewriteFlag::L],
    {
        self.rules.push(
            RewriteRule {
                pattern: "^(.+)/$".to_owned(),
                replacement: "$1".to_owned(),
                flags: vec![RewriteFlag::R301, RewriteFlag::L],
            },
        );
    }

    /// Redirects to HTTPS when the forwarded protocol is plain HTTP.
    pub fn add_force_https(&mut self)
        ensures
            final(self).conditions@ == old(self).conditions@.push(final(self).conditions@.last()),
            final(self).conditions@.last().test_string@ == "%{HTTP:X-Forwarded-Proto}"@,
            final(self).conditions@.last().pattern@ == "^http$"@,
            final(self).conditions@.last().flags@.len() == 0,
            final(self).rules@ == old(self).rules@.push(final(self).rules@.last()),
            final(self).rules@.last().pattern@ == "^(.*)$"@,
            final(self).rules@.last().replacement@ == "https://%{HTTP:Host}$1"@,
            final(self).rules@.last().flags@ == seq![RewriteFlag::R301, RewriteFlag::L],
    {
        self.conditions.push(
            RewriteCondition {
                test_string: "%{HTTP:X-Forwarded-Proto}".to_owned(),
                pattern: "^http$".to_owned(),
                flags: Vec::new(),
            },
        );
        self.rules.push(
            RewriteRule {
                pattern: "^(.*)$".to_owned(),
                replacement: "https://%{HTTP:Host}$1".to_owned(),
                flags: vec![RewriteFlag::R301, RewriteFlag::L],
            },
        );
    }

    /// Redirects `.html` URLs to the bare path, and serves bare paths from `.html` files.
    pub fn add_clean_urls(&mut self)
        ensures
            final(self).conditions == old(self).conditions,
            final(self).rules@.len() == old(self).rules@.len() + 2,
            final(self).rules@.take(old(self).rules@.len() as int) == old(self).rules@,
            final(self).rules@[old(self).rules@.len() as int].pattern@ == "^(.+)\\.html$"@,
            final(self).rules@[old(self).rules@.len() as int].replacement@ == "$1"@,
            final(self).rules@[old(self).rules@.len() as int].flags@ == seq![RewriteFlag::R301, RewriteFlag::L],
            final(self).rules@.last().pattern@ == "^([^.]+)$"@,
            final(self).rules@.last().replacement@ == "$1.html"@,
            final(self).rules@.last().flags@ == seq![RewriteFlag::L],
    {
        self.rules.push(
            RewriteRule {
                pattern: "^(.+)\\.html$".to_owned(),
                replacement: "$1".to_owned(),
                flags: vec![RewriteFlag::R301, RewriteFlag::L],
            },
        );
        self.rules.push(
            RewriteRule {
                pattern: "^([^.]+)$".to_owned(),
                replacement: "$1.html".to_owned(),
                flags: vec![RewriteFlag::L],
            },
        );
    }

    /// Redirects the bare `domain` to its `www.` host.
    pub fn add_force_www(&mut self, domain: &str)
        ensures
            final(self).conditions@ == old(self).conditions@.push(final(self).conditions@.last()),
            final(self).conditions@.last().test_string@ == "%{HTTP:Host}"@,
            final(self).conditions@.last().pattern@ == seq!['^'] + replaced(domain@, seq!['.'], seq!['\\', '.'])
                + seq!['$'],
            final(self).conditions@.last().flags@.len() == 0,
            final(self).rules@ == old(self).rules@.push(final(self).rules@.last()),
            final(self).rules@.last().pattern@ == "^(.*)$"@,
            final(self).rules@.last().replacement@ == "https://www."@ + domain@ + "$1"@,
            final(self).rules@.last().flags@ == seq![RewriteFlag::R301, RewriteFlag::L],
    {
        let mut esc = one_char('\\');
        esc.push('.');
        assert(esc@ =~= seq!['\\', '.']);
        let mut pat = one_char('^');
        push_all(&mut pat, &replace_all(&chars_of(domain), &one_char('.'), &esc));
        pat.push('$');
        let mut rep = chars_of("https://www.");
        push_all(&mut rep, &chars_of(domain));
        push_all(&mut rep, &chars_of("$1"));
        assert(pat@ =~= seq!['^'] + replaced(domain@, seq!['.'], seq!['\\', '.']) + seq!['$']);
        self.conditions.push(
            RewriteCondition { test_string: "%{HTTP:Host}".to_owned(), pattern: string_of(&pat), flags: Vec::new() },
        );
        self.rules.push(
            RewriteRule {
                pattern: "^(.*)$".to_owned(),
                replacement: string_of(&rep),
                flags: vec![RewriteFlag::R301, RewriteFlag::L],
            },
        );
    }
}

} // verus!
