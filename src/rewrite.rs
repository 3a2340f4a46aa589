//! Rule-based URI rewriting: an ordered list of regular-expression rules,
//! each guarded by optional conditions, each ending in an action or in a
//! rewritten URI that the following rules see.
use crate::pattern::{captures, compiles, groups_view, match_groups, regex_valid};
use crate::text::{
    chars_of, concat, contains_char, decimal, decimal_of, eq_chars, find_char, lower, lower_vec,
    push_all, replace_all, replaced, slice, string_of,
};
use vstd::prelude::*;

verus! {

#[derive(Clone, Copy, Debug, PartialEq, Eq, Structural)]
pub enum RewriteFlag {
    /// Stop after this rule.
    Last,
    /// Stop after this rule.
    Break,
    /// Temporary (302) redirect.
    Redirect,
    /// Permanent (301) redirect.
    Permanent,
    /// Hand the request to the rewritten backend.
    Proxy,
    Cookie,
    /// Answer 403.
    Forbidden,
    /// Answer 410.
    Gone,
    /// Match without regard to case.
    NoCase,
    QSAppend,
    QSDiscard,
}

#[derive(Clone, Copy, Debug, PartialEq, Eq, Structural)]
pub enum ConditionFlag {
    NoCase,
    /// Fold this condition with the next one by OR instead of AND.
    Or,
    /// Invert the result.
    Not,
    /// The expanded test string names a regular file.
    File,
    /// The expanded test string names a directory.
    Dir,
    /// The expanded test string names a symbolic link.
    Symlink,
    /// The expanded test string names a file that is not empty.
    Size,
    Exec,
}

#[derive(Clone, Debug)]
pub struct RewriteCondition {
    pub test_string: String,
    pub pattern: String,
    pub flags: Option<Vec<ConditionFlag>>,
}

#[derive(Clone, Debug)]
pub struct RewriteRule {
    pub pattern: String,
    pub replacement: String,
    pub flags: Option<Vec<RewriteFlag>>,
    pub conditions: Option<Vec<RewriteCondition>>,
}

/// What the caller found on disk for a path that a condition may test.
#[derive(Clone, Debug)]
pub struct FileFacts {
    pub path: String,
    pub is_file: bool,
    pub is_dir: bool,
    pub is_symlink: bool,
    pub size: u64,
}

/// The request as the rewrite engine sees it. `uri` is the request target
/// (path and optional query); it is the one field that rewriting changes.
#[derive(Clone, Debug)]
pub struct RewriteContext {
    pub uri: String,
    pub scheme: String,
    pub method: String,
    /// Header names and values, names as received.
    pub headers: Vec<(String, String)>,
    pub remote_addr: String,
    pub server_name: String,
    pub variables: Vec<(String, String)>,
    pub files: Vec<FileFacts>,
}

#[derive(Clone, Debug)]
pub enum RewriteAction {
    Internal { uri: String },
    Redirect { location: String, permanent: bool },
    Proxy { backend: String },
    Forbidden,
    Gone,
}

pub ghost enum ActionView {
    Internal(Seq<char>),
    Redirect(Seq<char>, bool),
    Proxy(Seq<char>),
    Forbidden,
    Gone,
}

impl View for RewriteAction {
    type V = ActionView;

    open spec fn view(&self) -> ActionView {
        match self {
            RewriteAction::Internal { uri } => ActionView::Internal(uri@),
            RewriteAction::Redirect { location, permanent } => ActionView::Redirect(
                location@,
                *permanent,
            ),
            RewriteAction::Proxy { backend } => ActionView::Proxy(backend@),
            RewriteAction::Forbidden => ActionView::Forbidden,
            RewriteAction::Gone => ActionView::Gone,
        }
    }
}

pub open spec fn action_view(a: Option<RewriteAction>) -> Option<ActionView> {
    match a {
        Some(x) => Some(x@),
        None => None,
    }
}

/// Everything of the request that rewriting reads but never changes.
pub ghost struct Env {
    pub scheme: Seq<char>,
    pub method: Seq<char>,
    pub headers: Seq<(Seq<char>, Seq<char>)>,
    pub remote_addr: Seq<char>,
    pub server_name: Seq<char>,
    pub variables: Seq<(Seq<char>, Seq<char>)>,
    pub files: Seq<FileFacts>,
}

pub open spec fn pairs_view(v: Seq<(String, String)>) -> Seq<(Seq<char>, Seq<char>)> {
    v.map_values(|p: (String, String)| (p.0@, p.1@))
}

impl RewriteContext {
    pub open spec fn env(&self) -> Env {
        Env {
            scheme: self.scheme@,
            method: self.method@,
            headers: pairs_view(self.headers@),
            remote_addr: self.remote_addr@,
            server_name: self.server_name@,
            variables: pairs_view(self.variables@),
            files: self.files@,
        }
    }
}

pub open spec fn rule_flag(flags: Option<Vec<RewriteFlag>>, f: RewriteFlag) -> bool {
    match flags {
        Some(v) => v@.contains(f),
        None => false,
    }
}

pub open spec fn cond_flag(flags: Option<Vec<ConditionFlag>>, f: ConditionFlag) -> bool {
    match flags {
        Some(v) => v@.contains(f),
        None => false,
    }
}

/// The pattern as handed to the regular-expression engine.
pub open spec fn compiled(p: Seq<char>, nocase: bool) -> Seq<char> {
    if nocase {
        seq!['(', '?', 'i', ')'] + p
    } else {
        p
    }
}

pub open spec fn rule_pattern(r: RewriteRule) -> Seq<char> {
    compiled(r.pattern@, rule_flag(r.flags, RewriteFlag::NoCase))
}

pub open spec fn cond_pattern(c: RewriteCondition) -> Seq<char> {
    compiled(c.pattern@, cond_flag(c.flags, ConditionFlag::NoCase))
}

/// `i` is the first position of `c` in `s`.
pub open spec fn first_at(s: Seq<char>, c: char, i: int) -> bool {
    0 <= i < s.len() && s[i] == c && forall|k: int| 0 <= k < i ==> s[k] != c
}

/// The path part of a request target: everything before the first `?`.
pub open spec fn path_of(uri: Seq<char>) -> Seq<char> {
    if contains_char(uri, '?') {
        uri.take(choose|i: int| first_at(uri, '?', i))
    } else {
        uri
    }
}

/// The query part of a request target: everything after the first `?`.
pub open spec fn query_of(uri: Seq<char>) -> Seq<char> {
    if contains_char(uri, '?') {
        uri.skip((choose|i: int| first_at(uri, '?', i)) + 1)
    } else {
        Seq::empty()
    }
}

/// The variable that stands for a header: `$http_` and the name in lower
/// case with `-` written as `_`.
pub open spec fn header_var(name: Seq<char>) -> Seq<char> {
    "$http_"@ + replaced(lower(name), seq!['-'], seq!['_'])
}

pub open spec fn expand_headers(t: Seq<char>, hs: Seq<(Seq<char>, Seq<char>)>) -> Seq<char>
    decreases hs.len(),
{
    if hs.len() == 0 {
        t
    } else {
        replaced(expand_headers(t, hs.drop_last()), header_var(hs.last().0), hs.last().1)
    }
}

/// The token `${name}` of a custom variable.
pub open spec fn var_token(name: Seq<char>) -> Seq<char> {
    seq!['$', '{'] + name + seq!['}']
}

pub open spec fn expand_custom(t: Seq<char>, vs: Seq<(Seq<char>, Seq<char>)>) -> Seq<char>
    decreases vs.len(),
{
    if vs.len() == 0 {
        t
    } else {
        replaced(expand_custom(t, vs.drop_last()), var_token(vs.last().0), vs.last().1)
    }
}

/// Template expansion: the request variables in a fixed order, then each
/// header, then each custom variable.
pub open spec fn expand(t: Seq<char>, env: Env, uri: Seq<char>) -> Seq<char> {
    let a = replaced(t, "$scheme"@, env.scheme);
    let b = replaced(a, "$host"@, env.server_name);
    let c = replaced(b, "$request_uri"@, path_of(uri));
    let d = replaced(c, "$remote_addr"@, env.remote_addr);
    let e = replaced(d, "$request_method"@, env.method);
    let f = replaced(e, "$query_string"@, query_of(uri));
    let g = replaced(f, "$args"@, query_of(uri));
    expand_custom(expand_headers(g, env.headers), env.variables)
}

pub(crate) proof fn lemma_first_unique(s: Seq<char>, c: char, i: int)
    requires
        first_at(s, c, i),
    ensures
        contains_char(s, c),
        (choose|j: int| first_at(s, c, j)) == i,
{
    assert(s[i] == c);
    let j = choose|j: int| first_at(s, c, j);
    assert(first_at(s, c, j));
    if j < i {
        assert(s[j] != c);
    } else if j > i {
        assert(s[i] != c);
    }
}

/// The path and the query of a request target.
pub(crate) fn split_uri(uri: &Vec<char>) -> (r: (Vec<char>, Vec<char>))
    ensures
        r.0@ == path_of(uri@),
        r.1@ == query_of(uri@),
{
    match find_char(uri, '?') {
        Some(i) => {
            proof {
                lemma_first_unique(uri@, '?', i as int);
            }
            assert(i < uri.len());
            let p = slice(uri, 0, i);
            let q = slice(uri, i + 1, uri.len());
            assert(p@ =~= uri@.take(i as int));
            assert(q@ =~= uri@.skip(i + 1));
            (p, q)
        },
        None => (uri.clone(), Vec::new()),
    }
}

pub(crate) fn one_char(c: char) -> (r: Vec<char>)
    ensures
        r@ == seq![c],
{
    let mut r: Vec<char> = Vec::new();
    r.push(c);
    assert(r@ =~= seq![c]);
    r
}

fn header_var_of(name: &String) -> (r: Vec<char>)
    ensures
        r@ == header_var(name@),
        r@.len() > 0,
{
    let l = lower_vec(&chars_of(name.as_str()));
    let snake = replace_all(&l, &one_char('-'), &one_char('_'));
    proof {
        reveal_strlit("$http_");
    }
    concat(&chars_of("$http_"), &snake)
}

fn var_token_of(name: &String) -> (r: Vec<char>)
    ensures
        r@ == var_token(name@),
        r@.len() > 0,
{
    let mut r = one_char('$');
    r.push('{');
    push_all(&mut r, &chars_of(name.as_str()));
    r.push('}');
    assert(r@ =~= var_token(name@));
    r
}

/// Replaces each variable of `input` by its value for the request.
pub fn expand_variables(input: &Vec<char>, ctx: &RewriteContext) -> (r: Vec<char>)
    ensures
        r@ == expand(input@, ctx.env(), ctx.uri@),
{
    let uri = chars_of(ctx.uri.as_str());
    let (path, query) = split_uri(&uri);
    proof {
        reveal_strlit("$scheme");
        reveal_strlit("$host");
        reveal_strlit("$request_uri");
        reveal_strlit("$remote_addr");
        reveal_strlit("$request_method");
        reveal_strlit("$query_string");
        reveal_strlit("$args");
    }
    let a = replace_all(input, &chars_of("$scheme"), &chars_of(ctx.scheme.as_str()));
    let b = replace_all(&a, &chars_of("$host"), &chars_of(ctx.server_name.as_str()));
    let c = replace_all(&b, &chars_of("$request_uri"), &path);
    let d = replace_all(&c, &chars_of("$remote_addr"), &chars_of(ctx.remote_addr.as_str()));
    let e = replace_all(&d, &chars_of("$request_method"), &chars_of(ctx.method.as_str()));
    let f = replace_all(&e, &chars_of("$query_string"), &query);
    let g = replace_all(&f, &chars_of("$args"), &query);
    let ghost env = ctx.env();
    let mut h = g;
    let mut i: usize = 0;
    while i < ctx.headers.len()
        invariant
            env == ctx.env(),
            i <= ctx.headers@.len(),
            h@ == expand_headers(g@, env.headers.take(i as int)),
        decreases ctx.headers@.len() - i,
    {
        let (name, value) = &ctx.headers[i];
        h = replace_all(&h, &header_var_of(name), &chars_of(value.as_str()));
        i = i + 1;
        assert(env.headers.take(i as int).drop_last() =~= env.headers.take(i - 1));
    }
    assert(env.headers.take(i as int) =~= env.headers);
    let mut k: usize = 0;
    let ghost hh = h@;
    while k < ctx.variables.len()
        invariant
            env == ctx.env(),
            k <= ctx.variables@.len(),
            h@ == expand_custom(hh, env.variables.take(k as int)),
        decreases ctx.variables@.len() - k,
    {
        let (name, value) = &ctx.variables[k];
        h = replace_all(&h, &var_token_of(name), &chars_of(value.as_str()));
        k = k + 1;
        assert(env.variables.take(k as int).drop_last() =~= env.variables.take(k - 1));
    }
    assert(env.variables.take(k as int) =~= env.variables);
    h
}

/// The facts recorded for `path`: the first entry that names it.
pub open spec fn file_fact(files: Seq<FileFacts>, path: Seq<char>) -> Option<FileFacts>
    decreases files.len(),
{
    if files.len() == 0 {
        None
    } else if files[0].path@ == path {
        Some(files[0])
    } else {
        file_fact(files.skip(1), path)
    }
}

/// The filesystem test a condition asks for, if any, on the expanded test string.
pub open spec fn fs_check(c: RewriteCondition, files: Seq<FileFacts>, t: Seq<char>) -> Option<bool> {
    let ff = file_fact(files, t);
    if cond_flag(c.flags, ConditionFlag::File) {
        Some(ff matches Some(f) && f.is_file)
    } else if cond_flag(c.flags, ConditionFlag::Dir) {
        Some(ff matches Some(f) && f.is_dir)
    } else if cond_flag(c.flags, ConditionFlag::Symlink) {
        Some(ff matches Some(f) && f.is_symlink)
    } else if cond_flag(c.flags, ConditionFlag::Size) {
        Some(ff matches Some(f) && f.size > 0)
    } else {
        None
    }
}

pub open spec fn condition_holds(c: RewriteCondition, env: Env, uri: Seq<char>) -> bool {
    let t = expand(c.test_string@, env, uri);
    let base = match fs_check(c, env.files, t) {
        Some(b) => b,
        None => match_groups(cond_pattern(c), t) is Some,
    };
    if cond_flag(c.flags, ConditionFlag::Not) {
        !base
    } else {
        base
    }
}

/// The first `n` conditions folded left to right: AND, except after a
/// condition that carries the OR flag.
pub open spec fn fold_conditions(cs: Seq<RewriteCondition>, env: Env, uri: Seq<char>, n: nat) -> bool
    decreases n,
{
    if n == 0 {
        true
    } else {
        let prev = fold_conditions(cs, env, uri, (n - 1) as nat);
        let m = condition_holds(cs[n - 1], env, uri);
        if n >= 2 && cond_flag(cs[n - 2].flags, ConditionFlag::Or) {
            prev || m
        } else {
            prev && m
        }
    }
}

pub open spec fn conditions_pass(rule: RewriteRule, env: Env, uri: Seq<char>) -> bool {
    match rule.conditions {
        Some(cs) => fold_conditions(cs@, env, uri, cs@.len()),
        None => true,
    }
}

/// The token `$i` of capture group `i`.
pub open spec fn group_token(i: nat) -> Seq<char> {
    seq!['$'] + decimal(i)
}

/// The first `n` capture groups that matched, substituted into `rep` in order.
pub open spec fn substitute_groups(rep: Seq<char>, g: Seq<Option<Seq<char>>>, n: nat) -> Seq<char>
    decreases n,
{
    if n == 0 {
        rep
    } else {
        let prev = substitute_groups(rep, g, (n - 1) as nat);
        match g[n - 1] {
            Some(c) => replaced(prev, group_token((n - 1) as nat), c),
            None => prev,
        }
    }
}

/// The rewritten URI: capture groups first, then request variables.
pub open spec fn replacement(rep: Seq<char>, g: Seq<Option<Seq<char>>>, env: Env, uri: Seq<char>) -> Seq<char> {
    expand(substitute_groups(rep, g, g.len()), env, uri)
}

/// Rules `i..` applied to the current URI `uri`; `orig` is the URI the
/// request came with. The result is the final URI and the action.
pub open spec fn process_rules(
    rules: Seq<RewriteRule>,
    i: nat,
    env: Env,
    uri: Seq<char>,
    orig: Seq<char>,
) -> (Seq<char>, Option<ActionView>)
    decreases rules.len() - i,
{
    if i >= rules.len() {
        (uri, if uri != orig { Some(ActionView::Internal(uri)) } else { None })
    } else {
        let rule = rules[i as int];
        let f = rule.flags;
        if !conditions_pass(rule, env, uri) {
            process_rules(rules, i + 1, env, uri, orig)
        } else {
            match match_groups(rule_pattern(rule), uri) {
                None => process_rules(rules, i + 1, env, uri, orig),
                Some(g) => {
                    let new = replacement(rule.replacement@, g, env, uri);
                    if rule_flag(f, RewriteFlag::Forbidden) {
                        (uri, Some(ActionView::Forbidden))
                    } else if rule_flag(f, RewriteFlag::Gone) {
                        (uri, Some(ActionView::Gone))
                    } else if rule_flag(f, RewriteFlag::Permanent) {
                        (uri, Some(ActionView::Redirect(new, true)))
                    } else if rule_flag(f, RewriteFlag::Redirect) {
                        (uri, Some(ActionView::Redirect(new, false)))
                    } else if rule_flag(f, RewriteFlag::Proxy) {
                        (uri, Some(ActionView::Proxy(new)))
                    } else if rule_flag(f, RewriteFlag::Last) || rule_flag(f, RewriteFlag::Break) {
                        (new, Some(ActionView::Internal(new)))
                    } else {
                        process_rules(rules, i + 1, env, new, orig)
                    }
                },
            }
        }
    }
}

fn vec_has_rule_flag(v: &Vec<RewriteFlag>, f: RewriteFlag) -> (r: bool)
    ensures
        r == v@.contains(f),
{
    let mut i: usize = 0;
    while i < v.len()
        invariant
            i <= v@.len(),
            forall|k: int| 0 <= k < i ==> v@[k] != f,
        decreases v@.len() - i,
    {
        if v[i] == f {
            assert(v@[i as int] == f);
            return true;
        }
        i = i + 1;
    }
    false
}

fn has_rule_flag(flags: &Option<Vec<RewriteFlag>>, f: RewriteFlag) -> (r: bool)
    ensures
        r == rule_flag(*flags, f),
{
    match flags {
        Some(v) => vec_has_rule_flag(v, f),
        None => false,
    }
}

fn vec_has_cond_flag(v: &Vec<ConditionFlag>, f: ConditionFlag) -> (r: bool)
    ensures
        r == v@.contains(f),
{
    let mut i: usize = 0;
    while i < v.len()
        invariant
            i <= v@.len(),
            forall|k: int| 0 <= k < i ==> v@[k] != f,
        decreases v@.len() - i,
    {
        if v[i] == f {
            assert(v@[i as int] == f);
            return true;
        }
        i = i + 1;
    }
    false
}

fn has_cond_flag(flags: &Option<Vec<ConditionFlag>>, f: ConditionFlag) -> (r: bool)
    ensures
        r == cond_flag(*flags, f),
{
    match flags {
        Some(v) => vec_has_cond_flag(v, f),
        None => false,
    }
}

fn compile_text(p: &String, nocase: bool) -> (r: String)
    ensures
        r@ == compiled(p@, nocase),
{
    if nocase {
        let mut v = one_char('(');
        v.push('?');
        v.push('i');
        v.push(')');
        push_all(&mut v, &chars_of(p.as_str()));
        assert(v@ =~= compiled(p@, nocase));
        string_of(&v)
    } else {
        p.clone()
    }
}

fn lookup_file<'a>(files: &'a Vec<FileFacts>, path: &Vec<char>) -> (r: Option<&'a FileFacts>)
    ensures
        match r {
            Some(f) => file_fact(files@, path@) == Some(*f),
            None => file_fact(files@, path@) is None,
        },
{
    let mut i: usize = 0;
    assert(files@.skip(0) =~= files@);
    while i < files.len()
        invariant
            i <= files@.len(),
            file_fact(files@, path@) == file_fact(files@.skip(i as int), path@),
        decreases files@.len() - i,
    {
        assert(files@.skip(i as int).skip(1) =~= files@.skip(i + 1));
        assert(files@.skip(i as int)[0] == files@[i as int]);
        if eq_chars(&chars_of(files[i].path.as_str()), path) {
            return Some(&files[i]);
        }
        i = i + 1;
    }
    None
}

fn eval_condition(c: &RewriteCondition, ctx: &RewriteContext) -> (r: bool)
    ensures
        r == condition_holds(*c, ctx.env(), ctx.uri@),
{
    let t = expand_variables(&chars_of(c.test_string.as_str()), ctx);
    let ff = lookup_file(&ctx.files, &t);
    let base = if has_cond_flag(&c.flags, ConditionFlag::File) {
        match ff {
            Some(f) => f.is_file,
            None => false,
        }
    } else if has_cond_flag(&c.flags, ConditionFlag::Dir) {
        match ff {
            Some(f) => f.is_dir,
            None => false,
        }
    } else if has_cond_flag(&c.flags, ConditionFlag::Symlink) {
        match ff {
            Some(f) => f.is_symlink,
            None => false,
        }
    } else if has_cond_flag(&c.flags, ConditionFlag::Size) {
        match ff {
            Some(f) => f.size > 0,
            None => false,
        }
    } else {
        let pat = compile_text(&c.pattern, has_cond_flag(&c.flags, ConditionFlag::NoCase));
        captures(pat.as_str(), string_of(&t).as_str()).is_some()
    };
    if has_cond_flag(&c.flags, ConditionFlag::Not) {
        !base
    } else {
        base
    }
}

/// Whether the conditions of `rule` hold for the request.
pub fn check_conditions(rule: &RewriteRule, ctx: &RewriteContext) -> (r: bool)
    ensures
        r == conditions_pass(*rule, ctx.env(), ctx.uri@),
{
    match &rule.conditions {
        None => true,
        Some(cs) => {
            let mut result = true;
            let mut use_or = false;
            let mut i: usize = 0;
            while i < cs.len()
                invariant
                    i <= cs@.len(),
                    result == fold_conditions(cs@, ctx.env(), ctx.uri@, i as nat),
                    use_or == (i >= 1 && cond_flag(cs@[i - 1].flags, ConditionFlag::Or)),
                decreases cs@.len() - i,
            {
                let m = eval_condition(&cs[i], ctx);
                if use_or {
                    result = result || m;
                } else {
                    result = result && m;
                }
                use_or = has_cond_flag(&cs[i].flags, ConditionFlag::Or);
                i = i + 1;
            }
            result
        },
    }
}

/// Substitutes the capture groups into `rep`, then expands request variables.
pub fn apply_replacement(rep: &String, groups: &Vec<Option<String>>, ctx: &RewriteContext) -> (r:
    Vec<char>)
    ensures
        r@ == replacement(rep@, groups_view(groups@), ctx.env(), ctx.uri@),
{
    let ghost g = groups_view(groups@);
    let mut result = chars_of(rep.as_str());
    let mut i: usize = 0;
    while i < groups.len()
        invariant
            g == groups_view(groups@),
            i <= groups@.len(),
            result@ == substitute_groups(rep@, g, i as nat),
        decreases groups@.len() - i,
    {
        match &groups[i] {
            Some(c) => {
                let mut token = one_char('$');
                push_all(&mut token, &decimal_of(i as u64));
                assert(token@ =~= group_token(i as nat));
                result = replace_all(&result, &token, &chars_of(c.as_str()));
            },
            None => {},
        }
        i = i + 1;
    }
    expand_variables(&result, ctx)
}

impl RewriteContext {
    /// The path of the request target, without its query.
    pub fn path(&self) -> (r: String)
        ensures
            r@ == path_of(self.uri@),
    {
        let (p, _q) = split_uri(&chars_of(self.uri.as_str()));
        string_of(&p)
    }
}

#[derive(Clone, Debug)]
pub enum RewriteError {
    /// A rule or condition pattern that does not compile, as handed to the engine.
    InvalidPattern { pattern: String },
}

/// Every pattern of the rule, and of each of its conditions, compiles.
pub open spec fn rule_compiles(r: RewriteRule) -> bool {
    &&& regex_valid(rule_pattern(r))
    &&& match r.conditions {
        Some(cs) => forall|j: int| 0 <= j < cs@.len() ==> regex_valid(#[trigger] cond_pattern(cs@[j])),
        None => true,
    }
}

pub open spec fn all_compile(rules: Seq<RewriteRule>) -> bool {
    forall|i: int| 0 <= i < rules.len() ==> rule_compiles(#[trigger] rules[i])
}

pub struct RewriteEngine {
    rules: Vec<RewriteRule>,
}

impl RewriteEngine {
    pub closed spec fn rules(&self) -> Seq<RewriteRule> {
        self.rules@
    }

    fn first_invalid_condition(cs: &Vec<RewriteCondition>) -> (r: Option<String>)
        ensures
            r is None <==> forall|j: int| 0 <= j < cs@.len() ==> regex_valid(#[trigger] cond_pattern(cs@[j])),
            r matches Some(p) ==> !regex_valid(p@),
    {
        let mut j: usize = 0;
        while j < cs.len()
            invariant
                j <= cs@.len(),
                forall|k: int| 0 <= k < j ==> regex_valid(#[trigger] cond_pattern(cs@[k])),
            decreases cs@.len() - j,
        {
            let p = compile_text(&cs[j].pattern, has_cond_flag(&cs[j].flags, ConditionFlag::NoCase));
            if !compiles(p.as_str()) {
                assert(!regex_valid(cond_pattern(cs@[j as int])));
                return Some(p);
            }
            j = j + 1;
        }
        None
    }

    /// Compiles a rule set; the whole set is refused when one pattern does not compile.
    pub fn new(rules: Vec<RewriteRule>) -> (r: Result<Self, RewriteError>)
        ensures
            r is Ok <==> all_compile(rules@),
            r matches Ok(e) ==> e.rules() == rules@,
            r matches Err(RewriteError::InvalidPattern { pattern }) ==> !regex_valid(pattern@),
    {
        let mut i: usize = 0;
        while i < rules.len()
            invariant
                i <= rules@.len(),
                forall|k: int| 0 <= k < i ==> rule_compiles(#[trigger] rules@[k]),
            decreases rules@.len() - i,
        {
            let rule = &rules[i];
            let p = compile_text(&rule.pattern, has_rule_flag(&rule.flags, RewriteFlag::NoCase));
            if !compiles(p.as_str()) {
                return Err(RewriteError::InvalidPattern { pattern: p });
            }
            match &rule.conditions {
                Some(cs) => {
                    match Self::first_invalid_condition(cs) {
                        Some(bad) => {
                            return Err(RewriteError::InvalidPattern { pattern: bad });
                        },
                        None => {},
                    }
                },
                None => {},
            }
            i = i + 1;
        }
        Ok(RewriteEngine { rules })
    }

    /// Runs the rules over the request, top to bottom. A rule whose conditions
    /// hold and whose pattern matches either ends processing with an action or
    /// commits its rewritten URI, which the following rules see.
    pub fn process(&self, ctx: &mut RewriteContext) -> (r: Option<RewriteAction>)
        ensures
            final(ctx).env() == old(ctx).env(),
            (final(ctx).uri@, action_view(r)) == process_rules(
                self.rules(),
                0,
                old(ctx).env(),
                old(ctx).uri@,
                old(ctx).uri@,
            ),
    {
        let initial = chars_of(ctx.uri.as_str());
        let ghost env = ctx.env();
        let mut i: usize = 0;
        while i < self.rules.len()
            invariant
                env == old(ctx).env(),
                ctx.env() == env,
                initial@ == old(ctx).uri@,
                i <= self.rules@.len(),
                process_rules(self.rules@, i as nat, env, ctx.uri@, initial@) == process_rules(
                    self.rules@,
                    0,
                    env,
                    initial@,
                    initial@,
                ),
            decreases self.rules@.len() - i,
        {
            let rule = &self.rules[i];
            if check_conditions(rule, ctx) {
                let p = compile_text(&rule.pattern, has_rule_flag(&rule.flags, RewriteFlag::NoCase));
                match captures(p.as_str(), ctx.uri.as_str()) {
                    Some(groups) => {
                        let new = apply_replacement(&rule.replacement, &groups, ctx);
                        if has_rule_flag(&rule.flags, RewriteFlag::Forbidden) {
                            return Some(RewriteAction::Forbidden);
                        }
                        if has_rule_flag(&rule.flags, RewriteFlag::Gone) {
                            return Some(RewriteAction::Gone);
                        }
                        if has_rule_flag(&rule.flags, RewriteFlag::Permanent) {
                            return Some(RewriteAction::Redirect { location: string_of(&new), permanent: true });
                        }
                        if has_rule_flag(&rule.flags, RewriteFlag::Redirect) {
                            return Some(RewriteAction::Redirect { location: string_of(&new), permanent: false });
                        }
                        if has_rule_flag(&rule.flags, RewriteFlag::Proxy) {
                            return Some(RewriteAction::Proxy { backend: string_of(&new) });
                        }
                        ctx.uri = string_of(&new);
                        if has_rule_flag(&rule.flags, RewriteFlag::Last) || has_rule_flag(
                            &rule.flags,
                            RewriteFlag::Break,
                        ) {
                            return Some(RewriteAction::Internal { uri: string_of(&new) });
                        }
                    },
                    None => {},
                }
            }
            i = i + 1;
        }
        if eq_chars(&chars_of(ctx.uri.as_str()), &initial) {
            None
        } else {
            Some(RewriteAction::Internal { uri: ctx.uri.clone() })
        }
    }
}

/// How many rules processing examines from the `i`-th on.
pub open spec fn rules_examined(rules: Seq<RewriteRule>, i: nat, env: Env, uri: Seq<char>, orig: Seq<char>) -> nat
    decreases rules.len() - i,
{
    if i >= rules.len() {
        0
    } else {
        let rule = rules[i as int];
        let f = rule.flags;
        let next = if !conditions_pass(rule, env, uri) {
            Some(uri)
        } else {
            match match_groups(rule_pattern(rule), uri) {
                None => Some(uri),
                Some(g) => {
                    let new = replacement(rule.replacement@, g, env, uri);
                    if rule_flag(f, RewriteFlag::Forbidden) || rule_flag(f, RewriteFlag::Gone) || rule_flag(
                        f,
                        RewriteFlag::Permanent,
                    ) || rule_flag(f, RewriteFlag::Redirect) || rule_flag(f, RewriteFlag::Proxy) || rule_flag(
                        f,
                        RewriteFlag::Last,
                    ) || rule_flag(f, RewriteFlag::Break) {
                        None
                    } else {
                        Some(new)
                    }
                },
            }
        };
        match next {
            Some(u) => 1 + rules_examined(rules, i + 1, env, u, orig),
            None => 1,
        }
    }
}

/// Processing examines each rule at most once, so it ends within as many
/// steps as there are rules (well inside rules × 32).
pub proof fn lemma_process_steps(rules: Seq<RewriteRule>, i: nat, env: Env, uri: Seq<char>, orig: Seq<char>)
    requires
        i <= rules.len(),
    ensures
        rules_examined(rules, i, env, uri, orig) <= rules.len() - i,
    decreases rules.len() - i,
{
    if i < rules.len() {
        let rule = rules[i as int];
        lemma_process_steps(rules, i + 1, env, uri, orig);
        if conditions_pass(rule, env, uri) {
            match match_groups(rule_pattern(rule), uri) {
                Some(g) => lemma_process_steps(rules, i + 1, env, replacement(rule.replacement@, g, env, uri), orig),
                None => {},
            }
        }
    }
}

/// With no rules, processing leaves the URI as it is and yields no action.
pub proof fn lemma_no_rules_no_match(env: Env, uri: Seq<char>)
    ensures
        process_rules(Seq::<RewriteRule>::empty(), 0, env, uri, uri) == (uri, None::<ActionView>),
{
}

fn permanent_rule(pattern: &str, replacement: &str, conditions: Option<Vec<RewriteCondition>>) -> (r:
    RewriteRule)
    ensures
        r.pattern@ == pattern@,
        r.replacement@ == replacement@,
        r.flags matches Some(f) && f@ == seq![RewriteFlag::Permanent],
        r.conditions == conditions,
{
    let flags = vec![RewriteFlag::Permanent];
    RewriteRule {
        pattern: pattern.to_owned(),
        replacement: replacement.to_owned(),
        flags: Some(flags),
        conditions,
    }
}

/// A ready-made rule set: drop a trailing slash, add `www.`, drop `.html`,
/// and force HTTPS, each by a permanent redirect.
pub fn common_rewrites() -> (r: Vec<RewriteRule>)
    ensures
        r@.len() == 4,
        r@[0].pattern@ == "^(.+)/$"@ && r@[0].replacement@ == "$1"@ && r@[0].conditions is None,
        r@[1].pattern@ == "^(.*)$"@ && r@[1].replacement@ == "https://www.$host$1"@,
        r@[1].conditions matches Some(cs) && cs@.len() == 1 && cs@[0].test_string@ == "$host"@
            && cs@[0].pattern@ == "^(?!www\\.)"@ && cs@[0].flags is None,
        r@[2].pattern@ == "^(.+)\\.html$"@ && r@[2].replacement@ == "$1"@ && r@[2].conditions is None,
        r@[3].pattern@ == "^(.*)$"@ && r@[3].replacement@ == "https://$host$1"@,
        r@[3].conditions matches Some(cs) && cs@.len() == 1 && cs@[0].test_string@ == "$scheme"@
            && cs@[0].pattern@ == "^http$"@ && cs@[0].flags is None,
        forall|i: int|
            0 <= i < 4 ==> ((#[trigger] r@[i]).flags matches Some(f) && f@ == seq![RewriteFlag::Permanent]),
{
    let www = RewriteCondition {
        test_string: "$host".to_owned(),
        pattern: "^(?!www\\.)".to_owned(),
        flags: None,
    };
    let https = RewriteCondition {
        test_string: "$scheme".to_owned(),
        pattern: "^http$".to_owned(),
        flags: None,
    };
    let r = vec![
        permanent_rule("^(.+)/$", "$1", None),
        permanent_rule("^(.*)$", "https://www.$host$1", Some(vec![www])),
        permanent_rule("^(.+)\\.html$", "$1", None),
        permanent_rule("^(.*)$", "https://$host$1", Some(vec![https])),
    ];
    r
}

} // verus!
