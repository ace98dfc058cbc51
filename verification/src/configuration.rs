//! The balancer's configuration, held as plain values. Reading and
//! parsing the configuration file is the surrounding application's job;
//! the library only consumes the resulting values.

use vstd::prelude::*;

verus! {

/// One forwarding target, as configured: a host name or address and a
/// port. Resolution to a socket address happens in the surrounding
/// application.
#[derive(Debug)]
pub struct Backend {
    pub ip: String,
    pub port: u16,
}

/// The effective configuration of the balancer.
#[derive(Debug)]
pub struct Configuration {
    pub listen_ip: String,
    pub listen_port: u16,
    pub strip_fields: Vec<String>,
    pub blank_fields: Vec<String>,
    pub log_level: String,
    pub transparent: bool,
    pub attach_source_info: bool,
    pub allowed_source_ips: Vec<String>,
    pub backends: Vec<Backend>,
    pub use_gzip: Option<bool>,
    pub chunk_size: u64,
    pub web_ui_port: Option<u16>,
}

pub fn default_ip() -> (r: String)
    ensures
        r@ == "127.0.0.1"@,
{
    "127.0.0.1".to_owned()
}

pub fn default_log_level() -> (r: String)
    ensures
        r@ == "info"@,
{
    "info".to_owned()
}

pub fn default_transparent() -> (r: bool)
    ensures
        r == true,
{
    true
}

pub fn default_chunk_size() -> (r: u64)
    ensures
        r == 1024,
{
    1024
}

pub fn default_use_gzip() -> (r: Option<bool>)
    ensures
        r == Some(true),
{
    Some(true)
}

impl Default for Configuration {
    /// The defaults: empty listen address and port, no field rewriting,
    /// transparent forwarding, GZip on, 1024-byte chunks.
    fn default() -> (r: Configuration)
        ensures
            r.listen_ip@ == Seq::<char>::empty(),
            r.listen_port == 0,
            r.strip_fields@.len() == 0,
            r.blank_fields@.len() == 0,
            r.log_level@ == "info"@,
            r.transparent == true,
            r.attach_source_info == false,
            r.allowed_source_ips@.len() == 0,
            r.backends@.len() == 0,
            r.use_gzip == Some(true),
            r.chunk_size == 1024,
            r.web_ui_port is None,
    {
        proof {
            reveal_strlit("");
            assert((""@) =~= Seq::<char>::empty());
        }
        Configuration {
            listen_ip: "".to_owned(),
            listen_port: 0,
            strip_fields: Vec::new(),
            blank_fields: Vec::new(),
            log_level: default_log_level(),
            transparent: default_transparent(),
            attach_source_info: false,
            allowed_source_ips: Vec::new(),
            backends: Vec::new(),
            use_gzip: default_use_gzip(),
            chunk_size: default_chunk_size(),
            web_ui_port: None,
        }
    }
}

impl Configuration {
    /// Whether the pipeline must decode and re-encode payloads in flight:
    /// any of source-info attachment, field stripping, field blanking or
    /// transparent mode asks for it. Transparent mode by itself rewrites
    /// nothing, but it is part of the trigger set, so it forces
    /// reassembly all the same.
    pub open spec fn spec_massage_required(&self) -> bool {
        self.transparent || self.attach_source_info || self.blank_fields@.len() > 0
            || self.strip_fields@.len() > 0
    }

    #[verifier::when_used_as_spec(spec_massage_required)]
    pub fn massage_required(&self) -> (r: bool)
        ensures
            r == self.spec_massage_required(),
    {
        self.transparent || self.attach_source_info || self.blank_fields.len() > 0
            || self.strip_fields.len() > 0
    }
}

} // verus!
