//! Configuration of the in-host server.
use crate::gateway::DEFAULT_MAX_BODY_SIZE;
use crate::http::text_map;
use crate::strmap::StrMap;
use crate::text::{concat3, decimal, decimal_string};
use vstd::prelude::*;

verus! {

#[derive(Debug)]
pub struct HhrfConfig {
    /// Address to bind to.
    pub host: String,
    pub port: u16,
    /// Environment given to every function.
    pub env: StrMap<String>,
    pub enable_metrics: bool,
    pub enable_health: bool,
    /// Largest request body accepted, in bytes.
    pub max_body_size: usize,
    /// Request timeout in seconds.
    pub request_timeout: u64,
}

impl Default for HhrfConfig {
    /// `0.0.0.0:8080`, no environment, both system endpoints on, a 10 MiB
    /// body cap and a 30 second timeout.
    fn default() -> (c: Self)
        ensures
            c.env.wf(),
            c.host@ == "0.0.0.0"@,
            c.port == 8080,
            c.env.view() == Map::<Seq<char>, String>::empty(),
            c.enable_metrics,
            c.enable_health,
            c.max_body_size == DEFAULT_MAX_BODY_SIZE,
            c.request_timeout == 30,
    {
        HhrfConfig {
            host: "0.0.0.0".to_owned(),
            port: 8080,
            env: StrMap::new(),
            enable_metrics: true,
            enable_health: true,
            max_body_size: DEFAULT_MAX_BODY_SIZE,
            request_timeout: 30,
        }
    }
}

impl HhrfConfig {
    pub fn new() -> (c: Self)
        ensures
            c.env.wf(),
            c.host@ == "0.0.0.0"@,
            c.port == 8080,
            c.env.view() == Map::<Seq<char>, String>::empty(),
            c.enable_metrics,
            c.enable_health,
            c.max_body_size == DEFAULT_MAX_BODY_SIZE,
            c.request_timeout == 30,
    {
        HhrfConfig::default()
    }

    pub fn host(self, host: &str) -> (c: Self)
        ensures
            c.host@ == host@,
            c.port == self.port,
            c.env == self.env,
            c.enable_metrics == self.enable_metrics,
            c.enable_health == self.enable_health,
            c.max_body_size == self.max_body_size,
            c.request_timeout == self.request_timeout,
    {
        let mut s = self;
        s.host = host.to_owned();
        s
    }

    pub fn port(self, port: u16) -> (c: Self)
        ensures
            c == (HhrfConfig { port, ..self }),
    {
        let mut s = self;
        s.port = port;
        s
    }

    /// Sets an environment variable for every function, replacing any earlier value.
    pub fn env(self, key: &str, value: &str) -> (c: Self)
        requires
            self.env.wf(),
        ensures
            c.env.wf(),
            text_map(c.env.view()) == text_map(self.env.view()).insert(key@, value@),
            c.host == self.host,
            c.port == self.port,
            c.enable_metrics == self.enable_metrics,
            c.enable_health == self.enable_health,
            c.max_body_size == self.max_body_size,
            c.request_timeout == self.request_timeout,
    {
        let mut s = self;
        let ghost before = s.env.view();
        s.env.insert(key.to_owned(), value.to_owned());
        assert(text_map(s.env.view()) =~= text_map(before).insert(key@, value@));
        s
    }

    /// `host:port`.
    pub fn bind_addr(&self) -> (r: String)
        ensures
            r@ == self.host@ + seq![':'] + decimal(self.port as nat),
    {
        proof {
            reveal_strlit(":");
        }
        concat3(self.host.as_str(), ":", decimal_string(self.port as u64).as_str())
    }
}

} // verus!
