//! Service configuration: the settings of the NFS listener, the exported
//! directories, logging and TLS, with their default values.

use vstd::prelude::*;
use vstd::string::{StringExecFns, StringSliceAdditionalSpecFns};
use crate::path_ext::{backslashed, is_absolute, path_is_absolute, to_backslashes, verbatim_prefix};
use crate::paths::starts_with;

verus! {

/// The whole configuration file.
#[derive(Clone, Debug)]
pub struct Config {
    pub nfs: NfsConfig,
    pub exports: ExportsConfig,
    pub logging: LoggingConfig,
    pub tls: TlsConfig,
}

/// Listener settings.
#[derive(Clone, Debug)]
pub struct NfsConfig {
    pub listen_address: String,
    pub bind_ip: String,
    pub enable_v3: bool,
    pub enable_v4: bool,
    pub threads: usize,
    /// Maximum concurrent TCP connections; new ones beyond it are rejected.
    pub max_connections: usize,
    /// Maximum new connections from one address within a rate window.
    pub max_conn_rate_per_ip: usize,
    /// Whether the UDP listener runs.
    pub enable_udp: bool,
}

/// The exported directories.
#[derive(Clone, Debug)]
pub struct ExportsConfig {
    pub entries: Vec<ExportEntry>,
}

/// One exported directory as written in the configuration.
#[derive(Clone, Debug)]
pub struct ExportEntry {
    pub path: String,
    pub alias: Option<String>,
    pub allowed_clients: Vec<String>,
    pub options: Vec<String>,
    pub description: Option<String>,
}

/// Logging settings.
#[derive(Clone, Debug)]
pub struct LoggingConfig {
    pub level: String,
    pub file: String,
    pub max_log_size_mb: usize,
    pub max_log_files: usize,
}

/// TLS settings for the TCP transport.
#[derive(Clone, Debug)]
pub struct TlsConfig {
    pub enabled: bool,
    pub cert_path: Option<String>,
    pub key_path: Option<String>,
}

impl Default for TlsConfig {
    fn default() -> (r: Self)
        ensures
            !r.enabled,
            r.cert_path is None,
            r.key_path is None,
    {
        TlsConfig { enabled: false, cert_path: None, key_path: None }
    }
}

/// Default listen address.
pub fn default_listen_address() -> (r: String)
    ensures
        r@ == "0.0.0.0:2049"@,
{
    String::from_str("0.0.0.0:2049")
}

/// Default address the listeners bind to.
pub fn default_bind_ip() -> (r: String)
    ensures
        r@ == "0.0.0.0"@,
{
    String::from_str("0.0.0.0")
}

/// NFSv3 is served by default.
pub fn default_enable_v3() -> (r: bool)
    ensures
        r,
{
    true
}

/// NFSv4 is served by default.
pub fn default_enable_v4() -> (r: bool)
    ensures
        r,
{
    true
}

/// Default worker thread count.
pub fn default_threads() -> (r: usize)
    ensures
        r == 4,
{
    4
}

/// Default limit on concurrent TCP connections.
pub fn default_max_connections() -> (r: usize)
    ensures
        r == 128,
{
    128
}

/// Default limit on new connections per address per window; a client opens
/// several connections (portmap, mount, nfs) for one mount.
pub fn default_max_conn_rate_per_ip() -> (r: usize)
    ensures
        r == 60,
{
    60
}

/// UDP is served by default.
pub fn default_enable_udp() -> (r: bool)
    ensures
        r,
{
    true
}

/// Default log level.
pub fn default_log_level() -> (r: String)
    ensures
        r@ == "info"@,
{
    String::from_str("info")
}

/// Default log file.
pub fn default_log_file() -> (r: String)
    ensures
        r@ == "C:\\ProgramData\\RustNfsSvc\\logs\\rustnfssvc.log"@,
{
    String::from_str("C:\\ProgramData\\RustNfsSvc\\logs\\rustnfssvc.log")
}

/// Default size of one log file, in megabytes.
pub fn default_max_log_size_mb() -> (r: usize)
    ensures
        r == 100,
{
    100
}

/// Default number of log files kept.
pub fn default_max_log_files() -> (r: usize)
    ensures
        r == 10,
{
    10
}

/// The system-wide configuration file, read when no other is given.
pub fn default_config_path() -> (r: String)
    ensures
        r@ == "C:\\ProgramData\\RustNfsSvc\\config.toml"@,
{
    String::from_str("C:\\ProgramData\\RustNfsSvc\\config.toml")
}

/// Where the configuration file is looked for.
#[derive(PartialEq, Eq, Structural, Clone, Copy, Debug)]
pub enum ConfigSource {
    /// The path named by the `RUSTNFSSVC_CONFIG` environment variable.
    Environment,
    /// `config.toml` in the working directory.
    WorkingDirectory,
    /// [`default_config_path`].
    System,
}

/// Picks the configuration file: the environment variable wins, then a
/// `config.toml` in the working directory, then the system-wide file.
pub fn config_source(env_var_set: bool, local_file_exists: bool) -> (r: ConfigSource)
    ensures
        r == (if env_var_set {
            ConfigSource::Environment
        } else if local_file_exists {
            ConfigSource::WorkingDirectory
        } else {
            ConfigSource::System
        }),
{
    if env_var_set {
        ConfigSource::Environment
    } else if local_file_exists {
        ConfigSource::WorkingDirectory
    } else {
        ConfigSource::System
    }
}

/// Whether `p` contains `..` anywhere.
pub open spec fn mentions_parent_dir(p: Seq<u8>) -> bool {
    exists|i: int| 0 <= i && i + 1 < p.len() && p[i] == 0x2e && #[trigger] p[i + 1] == 0x2e
}

/// Whether a configuration path given from outside contains `..`, a sign of
/// a traversal attempt that deserves a warning.
pub fn has_parent_dir_ref(p: &[u8]) -> (r: bool)
    ensures
        r == mentions_parent_dir(p@),
{
    let mut i: usize = 0;
    while i < p.len()
        invariant
            i <= p@.len(),
            forall|k: int| 0 <= k < i && k + 1 < p@.len() ==> !(p@[k] == 0x2e && #[trigger] p@[k + 1] == 0x2e),
        decreases p@.len() - i,
    {
        if i + 1 < p.len() && p[i] == 0x2e && p[i + 1] == 0x2e {
            assert(p@[i as int] == 0x2e && p@[i + 1] == 0x2e);
            return true;
        }
        i += 1;
    }
    proof {
        assert forall|k: int| 0 <= k && k + 1 < p@.len() implies !(p@[k] == 0x2e && #[trigger] p@[k + 1] == 0x2e) by {
            assert(k < i);
        }
    }
    false
}

/// What [`extended`] gives: the path as it is when it already starts with
/// `\\?\` or is relative; otherwise `\\?\` before it, with `\` separators.
pub open spec fn extended_file_path(p: Seq<u8>) -> Seq<u8> {
    if starts_with(p, verbatim_prefix()) {
        p
    } else if is_absolute(p) {
        verbatim_prefix() + backslashed(p)
    } else {
        p
    }
}

/// The long-path form used to open the configuration file; off Windows
/// (`windows` false) the path as it is.
pub fn extended(path: &[u8], windows: bool) -> (r: Vec<u8>)
    ensures
        r@ == (if windows { extended_file_path(path@) } else { path@ }),
{
    let verbatim = path.len() >= 4 && path[0] == 0x5c && path[1] == 0x5c && path[2] == 0x3f
        && path[3] == 0x5c;
    proof {
        if path@.len() >= 4 {
            let s = path@.subrange(0, 4);
            assert(s[0] == path@[0] && s[1] == path@[1] && s[2] == path@[2] && s[3] == path@[3]);
            if verbatim {
                assert(s =~= verbatim_prefix());
            }
        }
    }
    if !windows || verbatim || !path_is_absolute(path) {
        let r = crate::xdr::copy_range(path, 0, path.len());
        assert(path@.subrange(0, path@.len() as int) =~= path@);
        return r;
    }
    let mut r: Vec<u8> = Vec::new();
    r.push(0x5c);
    r.push(0x5c);
    r.push(0x3f);
    r.push(0x5c);
    let n = to_backslashes(path);
    crate::xdr::put_bytes(&mut r, n.as_slice());
    assert(r@ =~= verbatim_prefix() + backslashed(path@));
    r
}

/// Why the TLS settings cannot be used.
#[derive(PartialEq, Eq, Structural, Clone, Copy, Debug)]
pub enum TlsSetupError {
    /// TLS is enabled but `cert_path` is not set.
    MissingCertPath,
    /// TLS is enabled but `key_path` is not set.
    MissingKeyPath,
}

/// The certificate and key files to load: `None` when TLS is disabled,
/// an error when it is enabled without a certificate path (checked first)
/// or without a key path.
pub fn tls_files(tls: &TlsConfig) -> (r: Result<Option<(String, String)>, TlsSetupError>)
    ensures
        !tls.enabled ==> r == Ok::<Option<(String, String)>, TlsSetupError>(None),
        tls.enabled && tls.cert_path is None ==> r == Err::<Option<(String, String)>, TlsSetupError>(
            TlsSetupError::MissingCertPath,
        ),
        tls.enabled && tls.cert_path is Some && tls.key_path is None ==> r == Err::<
            Option<(String, String)>,
            TlsSetupError,
        >(TlsSetupError::MissingKeyPath),
        tls.enabled && tls.cert_path is Some && tls.key_path is Some ==> (r matches Ok(Some((c, k)))
            && c@ == tls.cert_path->0@ && k@ == tls.key_path->0@),
{
    if !tls.enabled {
        return Ok(None);
    }
    match &tls.cert_path {
        None => Err(TlsSetupError::MissingCertPath),
        Some(c) => match &tls.key_path {
            None => Err(TlsSetupError::MissingKeyPath),
            Some(k) => Ok(Some((c.clone(), k.clone()))),
        },
    }
}

/// The directories tried for the log files, in order: the directory of the
/// configured log file (when it has one), then the system-wide log
/// directory, then `.\\logs`.
pub open spec fn log_dir_candidates(file: Seq<u8>) -> Seq<Seq<u8>> {
    let fixed = seq!["C:\\ProgramData\\RustNfsSvc\\logs".spec_bytes(), ".\\logs".spec_bytes()];
    match crate::paths::parent(file) {
        Some(d) => seq![d] + fixed,
        None => fixed,
    }
}

/// Lists the directories tried for the log files.
pub fn log_dirs(logging: &LoggingConfig) -> (r: Vec<Vec<u8>>)
    ensures
        r@.map_values(|d: Vec<u8>| d@) == log_dir_candidates(crate::exports::text(logging.file)),
{
    let file_bytes = crate::exports::text_of(&logging.file);
    let file = file_bytes.as_slice();
    let mut r: Vec<Vec<u8>> = Vec::new();
    if let Some(d) = crate::paths::parent_of(file) {
        r.push(d);
    }
    let a = "C:\\ProgramData\\RustNfsSvc\\logs".as_bytes();
    r.push(crate::xdr::copy_range(a, 0, a.len()));
    let b = ".\\logs".as_bytes();
    r.push(crate::xdr::copy_range(b, 0, b.len()));
    proof {
        assert(a@.subrange(0, a@.len() as int) =~= a@);
        assert(b@.subrange(0, b@.len() as int) =~= b@);
        assert(r@.map_values(|d: Vec<u8>| d@) =~= log_dir_candidates(crate::exports::text(logging.file)));
    }
    r
}

/// Whether `c` holds every default setting and no export.
pub open spec fn is_default_config(c: Config) -> bool {
    &&& c.nfs.listen_address@ == "0.0.0.0:2049"@
    &&& c.nfs.bind_ip@ == "0.0.0.0"@
    &&& c.nfs.enable_v3
    &&& c.nfs.enable_v4
    &&& c.nfs.threads == 4
    &&& c.nfs.max_connections == 128
    &&& c.nfs.max_conn_rate_per_ip == 60
    &&& c.nfs.enable_udp
    &&& c.exports.entries@.len() == 0
    &&& c.logging.level@ == "info"@
    &&& c.logging.file@ == "C:\\ProgramData\\RustNfsSvc\\logs\\rustnfssvc.log"@
    &&& c.logging.max_log_size_mb == 100
    &&& c.logging.max_log_files == 10
    &&& !c.tls.enabled
    &&& c.tls.cert_path is None
    &&& c.tls.key_path is None
}

impl Default for Config {
    fn default() -> (r: Self)
        ensures
            is_default_config(r),
    {
        Config {
            nfs: NfsConfig {
                listen_address: default_listen_address(),
                bind_ip: default_bind_ip(),
                enable_v3: default_enable_v3(),
                enable_v4: default_enable_v4(),
                threads: default_threads(),
                max_connections: default_max_connections(),
                max_conn_rate_per_ip: default_max_conn_rate_per_ip(),
                enable_udp: default_enable_udp(),
            },
            exports: ExportsConfig { entries: Vec::new() },
            logging: LoggingConfig {
                level: default_log_level(),
                file: default_log_file(),
                max_log_size_mb: default_max_log_size_mb(),
                max_log_files: default_max_log_files(),
            },
            tls: TlsConfig::default(),
        }
    }
}

} // verus!
