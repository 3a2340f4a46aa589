//! Supervision of per-host application processes: the command each kind of
//! application is started with, and the restart back-off rule.
use crate::config::{AppType, ProcessConfig};
use crate::rewrite::pairs_view;
use crate::text::{chars_of, concat, eq_chars, starts_with, string_of};
use vstd::prelude::*;

verus! {

/// Restarts are refused when more than this many happened ...
pub const MAX_QUICK_RESTARTS: u32 = 5;

/// ... and the last one is more recent than this, in milliseconds.
pub const RESTART_WINDOW_MS: u64 = 60_000;

/// A process to spawn: program, arguments, working directory, and the
/// environment settings applied in order.
#[derive(Clone, Debug)]
pub struct LaunchCommand {
    pub program: String,
    pub args: Vec<String>,
    pub working_dir: Option<String>,
    pub env: Vec<(String, String)>,
}

#[derive(Clone, Debug)]
pub enum LaunchError {
    /// A variable the application kind needs is not in its environment.
    MissingEnv { name: String },
}

/// What the supervisor knows of a process it started.
#[derive(Clone, Debug)]
pub struct ProcessInfo {
    pub pid: u32,
    pub app_type: AppType,
    pub config: ProcessConfig,
    pub restart_count: u32,
    /// When the process was last restarted, in milliseconds.
    pub last_restart_ms: Option<u64>,
}

pub open spec fn strings_view(v: Seq<String>) -> Seq<Seq<char>> {
    v.map_values(|s: String| s@)
}

/// The first value set for `k`.
pub open spec fn env_get(env: Seq<(Seq<char>, Seq<char>)>, k: Seq<char>) -> Option<Seq<char>>
    decreases env.len(),
{
    if env.len() == 0 {
        None
    } else if env[0].0 == k {
        Some(env[0].1)
    } else {
        env_get(env.skip(1), k)
    }
}

pub open spec fn tomcat_keeps(k: Seq<char>) -> bool {
    !(k.len() >= 9 && k.take(9) == "CATALINA_"@) && k != "JAVA_HOME"@ && k != "JAVA_OPTS"@
}

/// The settings of `env` that a servlet container receives as they are.
pub open spec fn tomcat_custom(env: Seq<(Seq<char>, Seq<char>)>) -> Seq<(Seq<char>, Seq<char>)>
    decreases env.len(),
{
    if env.len() == 0 {
        Seq::empty()
    } else {
        let prev = tomcat_custom(env.drop_last());
        if tomcat_keeps(env.last().0) {
            prev.push(env.last())
        } else {
            prev
        }
    }
}

pub open spec fn default_java_opts() -> Seq<char> {
    "-Xms512m -Xmx1024m -XX:MaxMetaspaceSize=256m"@
}

/// The launch of an application as plain values: program, arguments,
/// working directory and environment; `None` for kinds that run no process.
pub ghost struct LaunchView {
    pub program: Seq<char>,
    pub args: Seq<Seq<char>>,
    pub working_dir: Option<Seq<char>>,
    pub env: Seq<(Seq<char>, Seq<char>)>,
}

impl LaunchCommand {
    pub open spec fn view(&self) -> LaunchView {
        LaunchView {
            program: self.program@,
            args: strings_view(self.args@),
            working_dir: match self.working_dir {
                Some(w) => Some(w@),
                None => None,
            },
            env: pairs_view(self.env@),
        }
    }
}

pub open spec fn opt_view(o: Option<String>) -> Option<Seq<char>> {
    match o {
        Some(s) => Some(s@),
        None => None,
    }
}

/// The launch recipe of each kind of application.
pub open spec fn launch_recipe(t: AppType, c: ProcessConfig) -> Result<Option<LaunchView>, Seq<char>> {
    let env = pairs_view(c.env@);
    match t {
        AppType::NodeJS => Ok(
            Some(
                LaunchView {
                    program: c.command@,
                    args: strings_view(c.args@),
                    working_dir: opt_view(c.working_dir),
                    env,
                },
            ),
        ),
        AppType::Python => Ok(
            Some(
                LaunchView {
                    program: c.command@,
                    args: strings_view(c.args@),
                    working_dir: opt_view(c.working_dir),
                    env: env.push(("PYTHONUNBUFFERED"@, "1"@)),
                },
            ),
        ),
        AppType::Tomcat => match env_get(env, "CATALINA_HOME"@) {
            None => Err("CATALINA_HOME"@),
            Some(home) => match env_get(env, "JAVA_HOME"@) {
                None => Err("JAVA_HOME"@),
                Some(java) => {
                    let base = match env_get(env, "CATALINA_BASE"@) {
                        Some(b) => b,
                        None => home,
                    };
                    let opts = match env_get(env, "JAVA_OPTS"@) {
                        Some(o) => o,
                        None => default_java_opts(),
                    };
                    Ok(
                        Some(
                            LaunchView {
                                program: home + "/bin/catalina.sh"@,
                                args: seq!["run"@],
                                working_dir: None,
                                env: seq![
                                    ("CATALINA_HOME"@, home),
                                    ("CATALINA_BASE"@, base),
                                    ("JAVA_HOME"@, java),
                                    ("JAVA_OPTS"@, opts),
                                ] + tomcat_custom(env),
                            },
                        ),
                    )
                },
            },
        },
        _ => Ok(None),
    }
}

pub open spec fn launch_view(r: Result<Option<LaunchCommand>, LaunchError>) -> Result<Option<LaunchView>, Seq<char>> {
    match r {
        Ok(Some(c)) => Ok(Some(c.view())),
        Ok(None) => Ok(None),
        Err(LaunchError::MissingEnv { name }) => Err(name@),
    }
}

fn env_lookup<'a>(env: &'a Vec<(String, String)>, k: &str) -> (r: Option<&'a String>)
    ensures
        match r {
            Some(v) => env_get(pairs_view(env@), k@) == Some(v@),
            None => env_get(pairs_view(env@), k@) is None,
        },
{
    let kc = chars_of(k);
    let ghost s = pairs_view(env@);
    let mut i: usize = 0;
    assert(s.skip(0) =~= s);
    while i < env.len()
        invariant
            kc@ == k@,
            s == pairs_view(env@),
            i <= env@.len(),
            env_get(s, k@) == env_get(s.skip(i as int), k@),
        decreases env@.len() - i,
    {
        assert(s.skip(i as int).skip(1) =~= s.skip(i + 1));
        assert(s.skip(i as int)[0] == s[i as int]);
        if eq_chars(&chars_of(env[i].0.as_str()), &kc) {
            return Some(&env[i].1);
        }
        i = i + 1;
    }
    None
}

fn clone_strings(v: &Vec<String>) -> (r: Vec<String>)
    ensures
        strings_view(r@) == strings_view(v@),
{
    let mut r: Vec<String> = Vec::new();
    let mut i: usize = 0;
    while i < v.len()
        invariant
            i <= v@.len(),
            strings_view(r@) == strings_view(v@.take(i as int)),
        decreases v@.len() - i,
    {
        let ghost prev = r@;
        r.push(v[i].clone());
        assert(strings_view(r@) =~= strings_view(prev).push(v@[i as int]@));
        i = i + 1;
        assert(strings_view(v@.take(i as int)) =~= strings_view(v@.take(i - 1)).push(v@[i - 1]@));
    }
    assert(v@.take(i as int) =~= v@);
    r
}

fn clone_pairs(v: &Vec<(String, String)>) -> (r: Vec<(String, String)>)
    ensures
        pairs_view(r@) == pairs_view(v@),
{
    let mut r: Vec<(String, String)> = Vec::new();
    let mut i: usize = 0;
    while i < v.len()
        invariant
            i <= v@.len(),
            pairs_view(r@) == pairs_view(v@.take(i as int)),
        decreases v@.len() - i,
    {
        let ghost prev = r@;
        r.push((v[i].0.clone(), v[i].1.clone()));
        assert(pairs_view(r@) =~= pairs_view(prev).push((v@[i as int].0@, v@[i as int].1@)));
        i = i + 1;
        assert(pairs_view(v@.take(i as int)) =~= pairs_view(v@.take(i - 1)).push(
            (v@[i - 1].0@, v@[i - 1].1@),
        ));
    }
    assert(v@.take(i as int) =~= v@);
    r
}

fn clone_opt(o: &Option<String>) -> (r: Option<String>)
    ensures
        opt_view(r) == opt_view(*o),
{
    match o {
        Some(s) => Some(s.clone()),
        None => None,
    }
}

/// The command that starts an application of kind `app_type`, or `None`
/// for kinds the supervisor does not run.
pub fn launch_command(app_type: AppType, config: &ProcessConfig) -> (r: Result<
    Option<LaunchCommand>,
    LaunchError,
>)
    ensures
        launch_view(r) == launch_recipe(app_type, *config),
{
    match app_type {
        AppType::NodeJS => Ok(
            Some(
                LaunchCommand {
                    program: config.command.clone(),
                    args: clone_strings(&config.args),
                    working_dir: clone_opt(&config.working_dir),
                    env: clone_pairs(&config.env),
                },
            ),
        ),
        AppType::Python => {
            let mut env = clone_pairs(&config.env);
            let ghost prev = pairs_view(env@);
            env.push(("PYTHONUNBUFFERED".to_owned(), "1".to_owned()));
            assert(pairs_view(env@) =~= prev.push(("PYTHONUNBUFFERED"@, "1"@)));
            Ok(
                Some(
                    LaunchCommand {
                        program: config.command.clone(),
                        args: clone_strings(&config.args),
                        working_dir: clone_opt(&config.working_dir),
                        env,
                    },
                ),
            )
        },
        AppType::Tomcat => {
            let home = match env_lookup(&config.env, "CATALINA_HOME") {
                Some(h) => h,
                None => {
                    return Err(LaunchError::MissingEnv { name: "CATALINA_HOME".to_owned() });
                },
            };
            let java = match env_lookup(&config.env, "JAVA_HOME") {
                Some(j) => j,
                None => {
                    return Err(LaunchError::MissingEnv { name: "JAVA_HOME".to_owned() });
                },
            };
            let base = match env_lookup(&config.env, "CATALINA_BASE") {
                Some(b) => b.clone(),
                None => home.clone(),
            };
            let opts = match env_lookup(&config.env, "JAVA_OPTS") {
                Some(o) => o.clone(),
                None => {
                    let d = "-Xms512m -Xmx1024m -XX:MaxMetaspaceSize=256m".to_owned();
                    assert(d@ == default_java_opts());
                    d
                },
            };
            let mut env: Vec<(String, String)> = Vec::new();
            env.push(("CATALINA_HOME".to_owned(), home.clone()));
            env.push(("CATALINA_BASE".to_owned(), base));
            env.push(("JAVA_HOME".to_owned(), java.clone()));
            env.push(("JAVA_OPTS".to_owned(), opts));
            let ghost head = pairs_view(env@);
            let ghost src = pairs_view(config.env@);
            let prefix = chars_of("CATALINA_");
            proof {
                reveal_strlit("CATALINA_");
            }
            let mut i: usize = 0;
            assert(src.take(0) =~= Seq::<(Seq<char>, Seq<char>)>::empty());
            assert(head + tomcat_custom(src.take(0)) =~= head);
            while i < config.env.len()
                invariant
                    src == pairs_view(config.env@),
                    prefix@ == "CATALINA_"@,
                    prefix@.len() == 9,
                    i <= src.len(),
                    pairs_view(env@) == head + tomcat_custom(src.take(i as int)),
                decreases src.len() - i,
            {
                let k = &config.env[i].0;
                let kc = chars_of(k.as_str());
                let keep = !starts_with(&kc, &prefix) && !eq_chars(&kc, &chars_of("JAVA_HOME"))
                    && !eq_chars(&kc, &chars_of("JAVA_OPTS"));
                assert(src.take(i + 1).drop_last() =~= src.take(i as int));
                if keep {
                    let ghost prev = pairs_view(env@);
                    env.push((k.clone(), config.env[i].1.clone()));
                    assert(pairs_view(env@) =~= prev.push(src[i as int]));
                }
                i = i + 1;
            }
            assert(src.take(i as int) =~= src);
            let program = string_of(&concat(&chars_of(home.as_str()), &chars_of("/bin/catalina.sh")));
            let args = vec!["run".to_owned()];
            assert(strings_view(args@) =~= seq!["run"@]);
            assert(head =~= seq![
                ("CATALINA_HOME"@, home@),
                ("CATALINA_BASE"@, match env_get(src, "CATALINA_BASE"@) {
                    Some(b) => b,
                    None => home@,
                }),
                ("JAVA_HOME"@, java@),
                ("JAVA_OPTS"@, match env_get(src, "JAVA_OPTS"@) {
                    Some(o) => o,
                    None => default_java_opts(),
                }),
            ]);
            let cmd = LaunchCommand { program, args, working_dir: None, env };
            assert(cmd.view().program == home@ + "/bin/catalina.sh"@);
            assert(cmd.view().env == head + tomcat_custom(src));
            assert(cmd.view().args == seq!["run"@]);
            assert(env_get(src, "JAVA_HOME"@) == Some(java@));
            assert(launch_recipe(app_type, *config) matches Ok(Some(lv)) && lv.env == cmd.view().env);
            Ok(Some(cmd))
        },
        _ => Ok(None),
    }
}

/// The back-off rule: a process that was restarted more than five times,
/// the last time less than a minute ago, is not restarted again.
pub open spec fn restart_permitted(restart_count: u32, last_restart: Option<u64>, now: u64) -> bool {
    !(restart_count > MAX_QUICK_RESTARTS && match last_restart {
        Some(t) => now < t || now - t < RESTART_WINDOW_MS,
        None => false,
    })
}

impl ProcessInfo {
    /// Whether the back-off rule lets this process be restarted at `now_ms`.
    pub fn restart_allowed(&self, now_ms: u64) -> (r: bool)
        ensures
            r == restart_permitted(self.restart_count, self.last_restart_ms, now_ms),
    {
        if self.restart_count > MAX_QUICK_RESTARTS {
            match self.last_restart_ms {
                Some(t) => {
                    if now_ms < t || now_ms - t < RESTART_WINDOW_MS {
                        return false;
                    }
                },
                None => {},
            }
        }
        true
    }

    /// Records a restart at `now_ms` under a new process id.
    pub fn record_restart(&mut self, pid: u32, now_ms: u64)
        ensures
            final(self).pid == pid,
            final(self).restart_count == if old(self).restart_count < u32::MAX {
                (old(self).restart_count + 1) as u32
            } else {
                old(self).restart_count
            },
            final(self).last_restart_ms == Some(now_ms),
            final(self).app_type == old(self).app_type,
            final(self).config == old(self).config,
    {
        self.pid = pid;
        self.restart_count = self.restart_count.saturating_add(1);
        self.last_restart_ms = Some(now_ms);
    }
}

} // verus!
