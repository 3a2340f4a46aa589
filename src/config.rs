//! Server configuration, as plain values.
use vstd::prelude::*;

verus! {

#[derive(Clone, Debug)]
pub struct RaftConfig {
    pub enabled: bool,
    pub bind_addr: String,
    pub data_dir: String,
    pub election_timeout: u64,
    pub heartbeat_interval: u64,
}

#[derive(Clone, Debug)]
pub struct ClusterConfig {
    pub enabled: bool,
    pub node_id: String,
    pub bind_addr: String,
    pub advertise_addr: String,
    pub join_nodes: Vec<String>,
    pub raft: RaftConfig,
}

#[derive(Clone, Copy, Debug)]
pub struct ServerConfig {
    pub http_port: u16,
    pub https_port: u16,
    pub enable_https: bool,
    pub workers: Option<usize>,
}

#[derive(Clone, Debug)]
pub struct SslConfig {
    pub cert_path: Option<String>,
    pub key_path: Option<String>,
    pub auto_cert: bool,
    pub domains: Vec<String>,
}

#[derive(Clone, Debug)]
pub struct CloudflareConfig {
    pub api_token: Option<String>,
    pub zone_id: Option<String>,
    pub email: Option<String>,
    pub api_key: Option<String>,
}

#[derive(Clone, Copy, Debug, PartialEq, Eq, Structural)]
pub enum AppType {
    Static,
    NodeJS,
    Python,
    Proxy,
    Tomcat,
    PhpFpm,
}

#[derive(Clone, Debug)]
pub struct ProcessConfig {
    pub command: String,
    pub args: Vec<String>,
    /// Environment settings; for a repeated name the first one counts.
    pub env: Vec<(String, String)>,
    pub working_dir: Option<String>,
    pub auto_restart: bool,
}

#[derive(Clone, Debug)]
pub struct BackendConfig {
    pub url: String,
    pub app_type: AppType,
    pub health_check: Option<String>,
    pub process: Option<ProcessConfig>,
}

#[derive(Clone, Debug)]
pub struct Config {
    pub server: ServerConfig,
    pub ssl: SslConfig,
    pub cloudflare: CloudflareConfig,
    pub cluster: Option<ClusterConfig>,
    /// Backends by host name.
    pub backends: Vec<(String, BackendConfig)>,
}

/// The first backend registered for `host`.
pub open spec fn backend_for(bs: Seq<(String, BackendConfig)>, host: Seq<char>) -> Option<BackendConfig>
    decreases bs.len(),
{
    if bs.len() == 0 {
        None
    } else if bs[0].0@ == host {
        Some(bs[0].1)
    } else {
        backend_for(bs.skip(1), host)
    }
}

impl Config {
    pub fn get_backend(&self, host: &str) -> (r: Option<&BackendConfig>)
        ensures
            match r {
                Some(b) => backend_for(self.backends@, host@) == Some(*b),
                None => backend_for(self.backends@, host@) is None,
            },
    {
        let h = crate::text::chars_of(host);
        let mut i: usize = 0;
        assert(self.backends@.skip(0) =~= self.backends@);
        while i < self.backends.len()
            invariant
                h@ == host@,
                i <= self.backends@.len(),
                backend_for(self.backends@, host@) == backend_for(self.backends@.skip(i as int), host@),
            decreases self.backends@.len() - i,
        {
            assert(self.backends@.skip(i as int).skip(1) =~= self.backends@.skip(i + 1));
            assert(self.backends@.skip(i as int)[0] == self.backends@[i as int]);
            if crate::text::eq_chars(&crate::text::chars_of(self.backends[i].0.as_str()), &h) {
                return Some(&self.backends[i].1);
            }
            i = i + 1;
        }
        None
    }
}

pub fn default_http_port() -> (r: u16)
    ensures
        r == 8080,
{
    8080
}

pub fn default_https_port() -> (r: u16)
    ensures
        r == 8443,
{
    8443
}

pub fn default_bind_address() -> (r: String)
    ensures
        r@ == "0.0.0.0"@,
{
    "0.0.0.0".to_owned()
}

pub fn default_static_dir() -> (r: String)
    ensures
        r@ == "./static"@,
{
    "./static".to_owned()
}

} // verus!
