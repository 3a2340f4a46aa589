//! Process table of the per-host application supervisor: which entries the
//! periodic monitor restarts.
use vstd::prelude::*;

verus! {

#[derive(Clone, Copy, Debug, PartialEq, Eq, Structural)]
pub enum AppType {
    NodeJs,
    Python,
    Tomcat,
    PhpFpm,
    Static,
}

impl AppType {
    /// The display name of the application kind.
    pub fn to_string(&self) -> (r: &'static str)
        ensures
            r@ == match *self {
                AppType::NodeJs => "Node.js"@,
                AppType::Python => "Python"@,
                AppType::Tomcat => "Tomcat"@,
                AppType::PhpFpm => "PHP-FPM"@,
                AppType::Static => "Static"@,
            },
    {
        match self {
            AppType::NodeJs => "Node.js",
            AppType::Python => "Python",
            AppType::Tomcat => "Tomcat",
            AppType::PhpFpm => "PHP-FPM",
            AppType::Static => "Static",
        }
    }
}

#[derive(Clone, Copy, Debug, PartialEq, Eq, Structural)]
pub enum ProcessStatus {
    Starting,
    Running,
    Stopped,
    Failed,
    Restarting,
}

#[derive(Clone, Debug)]
pub struct ProcessConfig {
    pub app_type: AppType,
    pub command: String,
    pub args: Vec<String>,
    pub working_dir: String,
    pub env: Vec<(String, String)>,
    pub port: u16,
    pub health_check: Option<String>,
    pub auto_restart: bool,
}

/// One supervised process: its name, configuration and status.
#[derive(Clone, Debug)]
pub struct ProcessEntry {
    pub name: String,
    pub config: ProcessConfig,
    pub status: ProcessStatus,
    pub restarts: u32,
}

pub open spec fn needs_restart(e: ProcessEntry) -> bool {
    e.config.auto_restart && e.status == ProcessStatus::Failed
}

/// The names of the entries, in table order, that failed and may be restarted.
pub open spec fn restart_names(es: Seq<ProcessEntry>) -> Seq<Seq<char>>
    decreases es.len(),
{
    if es.len() == 0 {
        Seq::empty()
    } else {
        let prev = restart_names(es.drop_last());
        if needs_restart(es.last()) {
            prev.push(es.last().name@)
        } else {
            prev
        }
    }
}

pub open spec fn names_view(v: Seq<String>) -> Seq<Seq<char>> {
    v.map_values(|s: String| s@)
}

/// What a monitor tick restarts: each failed entry that asks for it.
pub fn names_to_restart(entries: &Vec<ProcessEntry>) -> (r: Vec<String>)
    ensures
        names_view(r@) == restart_names(entries@),
{
    let mut r: Vec<String> = Vec::new();
    let mut i: usize = 0;
    while i < entries.len()
        invariant
            i <= entries@.len(),
            names_view(r@) == restart_names(entries@.take(i as int)),
        decreases entries@.len() - i,
    {
        assert(entries@.take(i + 1).drop_last() =~= entries@.take(i as int));
        let e = &entries[i];
        if e.config.auto_restart && e.status == ProcessStatus::Failed {
            let ghost prev = r@;
            r.push(e.name.clone());
            assert(names_view(r@) =~= names_view(prev).push(e.name@));
        }
        i = i + 1;
    }
    assert(entries@.take(i as int) =~= entries@);
    r
}

} // verus!
