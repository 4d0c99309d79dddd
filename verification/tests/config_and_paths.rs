use rustnfssvc::config::{
    config_source, default_config_path, extended, has_parent_dir_ref, log_dirs, tls_files, Config,
    ConfigSource, LoggingConfig, TlsConfig, TlsSetupError,
};
use rustnfssvc::exports::ExportOptions;
use rustnfssvc::path_ext::{extend_path, path_is_absolute, strip_extended_prefix, to_extended_path};
use rustnfssvc::paths::{file_name_of, is_within, join_path, parent_of};

fn text(b: &[u8]) -> String {
    String::from_utf8(b.to_vec()).unwrap()
}

#[test]
fn test_default_config() {
    let config = Config::default();
    assert_eq!(config.nfs.listen_address, "0.0.0.0:2049");
    assert_eq!(config.nfs.bind_ip, "0.0.0.0");
    assert!(config.nfs.enable_v3);
    assert!(config.nfs.enable_v4);
    assert_eq!(config.nfs.threads, 4);
}

#[test]
fn default_config_remaining_fields() {
    let config = Config::default();
    assert_eq!(config.nfs.max_connections, 128);
    assert_eq!(config.nfs.max_conn_rate_per_ip, 60);
    assert!(config.nfs.enable_udp);
    assert!(config.exports.entries.is_empty());
    assert_eq!(config.logging.level, "info");
    assert_eq!(config.logging.file, "C:\\ProgramData\\RustNfsSvc\\logs\\rustnfssvc.log");
    assert_eq!(config.logging.max_log_size_mb, 100);
    assert_eq!(config.logging.max_log_files, 10);
    assert!(!config.tls.enabled);
    assert!(config.tls.cert_path.is_none());
    assert!(config.tls.key_path.is_none());
}

#[test]
fn test_export_options_default() {
    let opts = ExportOptions::default();
    assert!(opts.sync);
    assert!(!opts.read_only);
}

#[test]
fn test_extended_prefix_added() {
    let ep = to_extended_path(br"C:\Users\test\file.txt", None, true);
    assert!(ep.starts_with(br"\\?\"));
    assert_eq!(text(&ep), r"\\?\C:\Users\test\file.txt");
}

#[test]
fn test_extended_prefix_not_doubled() {
    let ep = to_extended_path(br"\\?\C:\already", None, true);
    assert_eq!(text(&ep).matches(r"\\?\").count(), 1);
}

#[test]
fn test_strip_extended_prefix() {
    let stripped = strip_extended_prefix(br"\\?\C:\Users\test", true);
    assert_eq!(text(&stripped), r"C:\Users\test");
}

#[test]
fn test_unc_path() {
    let ep = to_extended_path(br"\\server\share\file.txt", None, true);
    assert!(ep.starts_with(br"\\?\UNC\"));
    assert_eq!(text(&ep), r"\\?\UNC\server\share\file.txt");
}

#[test]
fn extended_path_relative_uses_cwd() {
    let rooted = to_extended_path(br"\foo", Some(br"C:\w"), true);
    assert_eq!(text(&rooted), r"\\?\C:\foo");
    let ep = to_extended_path(b"data/file.txt", Some(br"D:\work"), true);
    assert_eq!(text(&ep), r"\\?\D:\work\data\file.txt");
    // without a current directory the path is left alone
    let same = to_extended_path(b"data/file.txt", None, true);
    assert_eq!(text(&same), "data/file.txt");
    let owned = extend_path(b"C:/x/y".to_vec(), None, true);
    assert_eq!(text(&owned), r"\\?\C:\x\y");
}

#[test]
fn extended_path_device_untouched() {
    let ep = to_extended_path(br"\\.\COM1", Some(br"C:\"), true);
    assert_eq!(text(&ep), r"\\.\COM1");
}

#[test]
fn strip_undoes_extend() {
    for p in [&br"C:\a\b"[..], &br"\\srv\share\f"[..], &b"E:/mixed\\seps"[..]] {
        let round = strip_extended_prefix(&to_extended_path(p, None, true), true);
        let expected: Vec<u8> = p.iter().map(|&b| if b == b'/' { b'\\' } else { b }).collect();
        assert_eq!(round, expected);
    }
    assert_eq!(text(&strip_extended_prefix(br"\\?\UNC\srv\share", true)), r"\\srv\share");
    assert_eq!(text(&strip_extended_prefix(b"plain", true)), "plain");
    // off Windows nothing is added or removed
    assert_eq!(text(&to_extended_path(b"/srv/data", Some(b"/home"), false)), "/srv/data");
    assert_eq!(text(&to_extended_path(br"C:\x", None, false)), r"C:\x");
    assert_eq!(text(&extend_path(b"rel".to_vec(), Some(b"/home"), false)), "rel");
    assert_eq!(text(&strip_extended_prefix(br"\\?\C:\x", false)), r"\\?\C:\x");
    assert_eq!(text(&extended(b"C:/cfg.toml", false)), "C:/cfg.toml");
}

#[test]
fn absolute_rules() {
    assert!(path_is_absolute(br"C:\x"));
    assert!(path_is_absolute(b"c:/x"));
    assert!(path_is_absolute(br"\\server\share"));
    assert!(!path_is_absolute(br"\x"));
    assert!(!path_is_absolute(b"C:x"));
    assert!(!path_is_absolute(b"rel"));
}

#[test]
fn config_extended_path() {
    assert_eq!(text(&extended(b"C:/ProgramData/cfg.toml", true)), r"\\?\C:\ProgramData\cfg.toml");
    assert_eq!(text(&extended(br"\\?\C:\x", true)), r"\\?\C:\x");
    assert_eq!(text(&extended(b"config.toml", true)), "config.toml");
}

#[test]
fn config_source_priority() {
    assert_eq!(config_source(true, true), ConfigSource::Environment);
    assert_eq!(config_source(false, true), ConfigSource::WorkingDirectory);
    assert_eq!(config_source(false, false), ConfigSource::System);
    assert_eq!(default_config_path(), "C:\\ProgramData\\RustNfsSvc\\config.toml");
}

#[test]
fn parent_dir_reference() {
    assert!(has_parent_dir_ref(br"C:\cfg\..\evil.toml"));
    assert!(!has_parent_dir_ref(br"C:\cfg\.\a.toml"));
    assert!(!has_parent_dir_ref(b""));
}

#[test]
fn tls_files_rules() {
    let off = TlsConfig { enabled: false, cert_path: Some("c".to_string()), key_path: None };
    assert!(matches!(tls_files(&off), Ok(None)));
    let no_cert = TlsConfig { enabled: true, cert_path: None, key_path: Some("k".to_string()) };
    assert!(matches!(tls_files(&no_cert), Err(TlsSetupError::MissingCertPath)));
    let no_key = TlsConfig { enabled: true, cert_path: Some("c".to_string()), key_path: None };
    assert!(matches!(tls_files(&no_key), Err(TlsSetupError::MissingKeyPath)));
    let both = TlsConfig { enabled: true, cert_path: Some("c.pem".to_string()), key_path: Some("k.pem".to_string()) };
    match tls_files(&both) {
        Ok(Some((c, k))) => {
            assert_eq!(c, "c.pem");
            assert_eq!(k, "k.pem");
        }
        _ => panic!("expected both paths"),
    }
}

#[test]
fn log_dir_candidates() {
    let cfg = LoggingConfig {
        level: "info".to_string(),
        file: "C:\\ProgramData\\RustNfsSvc\\logs\\rustnfssvc.log".to_string(),
        max_log_size_mb: 100,
        max_log_files: 10,
    };
    let dirs: Vec<String> = log_dirs(&cfg).iter().map(|d| text(d)).collect();
    assert_eq!(dirs, vec![
        "C:\\ProgramData\\RustNfsSvc\\logs".to_string(),
        "C:\\ProgramData\\RustNfsSvc\\logs".to_string(),
        ".\\logs".to_string(),
    ]);
    let bare = LoggingConfig { file: String::new(), ..cfg };
    assert_eq!(log_dirs(&bare).len(), 2);
}

#[test]
fn path_helpers() {
    assert_eq!(text(&join_path(br"C:\exp", b"a.txt")), r"C:\exp\a.txt");
    assert_eq!(text(&join_path(br"C:\exp\", b"a.txt")), r"C:\exp\a.txt");
    assert_eq!(text(&join_path(br"C:\exp", br"D:\abs")), r"D:\abs");
    // a name with a drive but no root still replaces the directory
    assert_eq!(text(&join_path(br"C:\exp", b"D:rel")), "D:rel");
    // a name that starts at the root keeps the directory's drive or share
    assert_eq!(text(&join_path(br"C:\x", br"\foo")), r"C:\foo");
    assert_eq!(text(&join_path(br"C:\x\y", b"/foo")), "C:/foo");
    assert_eq!(text(&join_path(br"\\srv\share\dir", br"\foo")), r"\\srv\share\foo");
    assert_eq!(text(&join_path(br"\\?\C:\dir", br"\foo")), r"\\?\C:\foo");
    assert_eq!(text(&join_path(br"\\?\UNC\srv\share\dir", br"\foo")), r"\\?\UNC\srv\share\foo");
    assert_eq!(text(&join_path(b"rel", br"\foo")), r"\foo");
    // a share or device path replaces the directory
    assert_eq!(text(&join_path(br"C:\x", br"\\srv\share")), r"\\srv\share");
    // a bare drive takes the name without a separator
    assert_eq!(text(&join_path(b"C:", b"foo")), "C:foo");
    // a digit before ':' is no drive
    assert_eq!(text(&join_path(br"C:\x", b"1:y")), r"C:\x\1:y");
    assert_eq!(text(&file_name_of(br"C:\exp\dir\file.bin")), "file.bin");
    assert_eq!(text(&file_name_of(br"C:\")), "");
    assert_eq!(parent_of(br"C:\exp\dir").map(|p| text(&p)), Some(r"C:\exp".to_string()));
    assert_eq!(parent_of(br"C:\exp").map(|p| text(&p)), Some(r"C:\".to_string()));
    assert_eq!(parent_of(br"C:\"), None);
    assert!(is_within(br"C:\exp\a\b", br"C:\exp"));
    assert!(!is_within(br"C:\expother", br"C:\exp"));
}
