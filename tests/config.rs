use mover::config::{
    ConfigError, MoverConfig, MoverEnv, IORING_SETUP_ATTACH_WQ, IORING_SETUP_CLAMP,
    IORING_SETUP_CQSIZE, IORING_SETUP_IOPOLL, IORING_SETUP_SQPOLL, IORING_SETUP_SQ_AFF,
};

fn empty_env() -> MoverEnv {
    MoverEnv {
        socket_path: None,
        db_url: None,
        iouring_entries: None,
        iouring_flags: None,
        buffer_count: None,
        buffer_size: None,
        batch_timeout_ms: None,
        max_connections: None,
        enable_huge_pages: None,
        enable_send_zc: None,
    }
}

#[test]
fn test_default_config() {
    let config = MoverConfig::with_defaults();
    assert_eq!(config.iouring_entries, 4096);
    assert!(config.iouring_entries.is_power_of_two());
}

#[test]
fn test_validate_power_of_two() {
    let mut config = MoverConfig::with_defaults();
    config.iouring_entries = 1000; // Not power of 2
    assert!(config.validate().is_err());
}

#[test]
fn test_validate_buffer_size() {
    let mut config = MoverConfig::with_defaults();
    config.buffer_size = 3000; // Not multiple of 4096
    assert!(config.validate().is_err());
}

#[test]
fn test_parse_flags_string() {
    let flags = MoverConfig::parse_iouring_flags("clamp,sqpoll").unwrap();
    assert_eq!(flags, IORING_SETUP_CLAMP | IORING_SETUP_SQPOLL);
}

#[test]
fn test_parse_flags_numeric() {
    let flags = MoverConfig::parse_iouring_flags("18").unwrap(); // CLAMP | SQPOLL
    assert_eq!(flags, 18);
}

#[test]
fn defaults_are_valid() {
    let config = MoverConfig::with_defaults();
    assert_eq!(config.socket_path, "/tmp/mover.sock");
    assert_eq!(config.db_url, "postgres://localhost/orchestrator");
    assert_eq!(config.iouring_flags, IORING_SETUP_CLAMP);
    assert_eq!(config.buffer_count, 256);
    assert_eq!(config.buffer_size, 4096);
    assert_eq!(config.batch_timeout_ms, 10);
    assert_eq!(config.max_connections, 32);
    assert!(!config.enable_huge_pages);
    assert!(config.enable_send_zc);
    assert!(config.validate().is_ok());
}

fn with_entries(n: u32) -> Result<MoverConfig, ConfigError> {
    let mut config = MoverConfig::with_defaults();
    config.iouring_entries = n;
    config.validate()
}

#[test]
fn ring_entries_rules() {
    assert_eq!(with_entries(1000).unwrap_err(), ConfigError::EntriesNotPowerOfTwo(1000));
    assert_eq!(with_entries(0).unwrap_err(), ConfigError::EntriesNotPowerOfTwo(0));
    assert_eq!(with_entries(128).unwrap_err(), ConfigError::EntriesOutOfRange(128));
    assert_eq!(with_entries(16384).unwrap_err(), ConfigError::EntriesOutOfRange(16384));
    assert_eq!(with_entries(4096).unwrap().iouring_entries, 4096);
    assert!(with_entries(256).is_ok());
    assert!(with_entries(8192).is_ok());
}

#[test]
fn buffer_rules() {
    let mut config = MoverConfig::with_defaults();
    config.buffer_size = 3000;
    assert_eq!(config.validate().unwrap_err(), ConfigError::BufferSizeNotPageMultiple(3000));
    let mut config = MoverConfig::with_defaults();
    config.buffer_size = 8192;
    assert!(config.validate().is_ok());
    for (count, ok) in [(0usize, false), (2000, false), (256, true), (1, true), (1024, true), (1025, false)] {
        let mut config = MoverConfig::with_defaults();
        config.buffer_count = count;
        match config.validate() {
            Ok(_) => assert!(ok, "count {}", count),
            Err(e) => {
                assert!(!ok, "count {}", count);
                assert_eq!(e, ConfigError::BufferCountOutOfRange(count));
            }
        }
    }
}

#[test]
fn batch_timeout_rules() {
    for (ms, ok) in [(0u64, false), (1, true), (1000, true), (1001, false)] {
        let mut config = MoverConfig::with_defaults();
        config.batch_timeout_ms = ms;
        assert_eq!(config.validate().is_ok(), ok, "timeout {}", ms);
    }
}

#[test]
fn socket_path_must_be_absolute() {
    let mut config = MoverConfig::with_defaults();
    config.socket_path = "relative/path".to_string();
    assert_eq!(
        config.validate().unwrap_err(),
        ConfigError::SocketPathNotAbsolute("relative/path".to_string())
    );
    let mut config = MoverConfig::with_defaults();
    config.socket_path = String::new();
    assert!(config.validate().is_err());
    let mut config = MoverConfig::with_defaults();
    config.socket_path = "/tmp/mover.sock".to_string();
    assert!(config.validate().is_ok());
}

#[test]
fn flag_lists() {
    assert_eq!(MoverConfig::parse_iouring_flags("").unwrap(), 0);
    assert_eq!(
        MoverConfig::parse_iouring_flags("bogus").unwrap_err(),
        ConfigError::UnknownFlag("bogus".to_string())
    );
    assert_eq!(
        MoverConfig::parse_iouring_flags("clamp,Bogus,alsobad").unwrap_err(),
        ConfigError::UnknownFlag("bogus".to_string())
    );
    assert_eq!(
        MoverConfig::parse_iouring_flags("iopoll,sqpoll,sq_aff,cqsize,clamp,attach_wq").unwrap(),
        IORING_SETUP_IOPOLL
            | IORING_SETUP_SQPOLL
            | IORING_SETUP_SQ_AFF
            | IORING_SETUP_CQSIZE
            | IORING_SETUP_CLAMP
            | IORING_SETUP_ATTACH_WQ
    );
    assert_eq!(MoverConfig::parse_iouring_flags("clamp,,sqpoll,").unwrap(), 0x12);
    assert_eq!(MoverConfig::parse_iouring_flags("+7").unwrap(), 7);
    assert_eq!(MoverConfig::parse_iouring_flags("4294967295").unwrap(), u32::MAX);
    assert!(MoverConfig::parse_iouring_flags("4294967296").is_err());
}

#[test]
fn flag_names_are_trimmed_and_case_folded() {
    assert_eq!(
        MoverConfig::parse_iouring_flags(" CLAMP , SqPoll ").unwrap(),
        IORING_SETUP_CLAMP | IORING_SETUP_SQPOLL
    );
}

#[test]
fn flags_description_lists_set_flags() {
    let mut config = MoverConfig::with_defaults();
    assert_eq!(config.flags_description(), "CLAMP");
    config.iouring_flags = IORING_SETUP_IOPOLL | IORING_SETUP_SQPOLL | IORING_SETUP_CLAMP | IORING_SETUP_CQSIZE;
    assert_eq!(config.flags_description(), "IOPOLL|SQPOLL|CLAMP|CQSIZE");
    config.iouring_flags = IORING_SETUP_CQSIZE | IORING_SETUP_SQPOLL;
    assert_eq!(config.flags_description(), "SQPOLL|CQSIZE");
    config.iouring_flags = IORING_SETUP_SQ_AFF | IORING_SETUP_ATTACH_WQ;
    assert_eq!(config.flags_description(), "None");
    config.iouring_flags = 0;
    assert_eq!(config.flags_description(), "None");
}

#[test]
fn load_from_env_uses_defaults() {
    let config = MoverConfig::load_from_env(&empty_env()).unwrap();
    assert_eq!(config.socket_path, "/tmp/mover.sock");
    assert_eq!(config.db_url, "postgres://localhost/orchestrator");
    assert_eq!(config.iouring_entries, 4096);
    assert_eq!(config.iouring_flags, IORING_SETUP_CLAMP);
    assert_eq!(config.buffer_count, 256);
    assert_eq!(config.buffer_size, 4096);
    assert_eq!(config.batch_timeout_ms, 10);
    assert_eq!(config.max_connections, 32);
    assert!(!config.enable_huge_pages);
    assert!(config.enable_send_zc);
}

#[test]
fn load_from_env_reads_settings() {
    let mut env = empty_env();
    env.socket_path = Some("/run/m.sock".to_string());
    env.iouring_entries = Some("512".to_string());
    env.iouring_flags = Some("18".to_string());
    env.buffer_count = Some("not a number".to_string());
    env.buffer_size = Some("8192".to_string());
    env.batch_timeout_ms = Some("-5".to_string());
    env.enable_huge_pages = Some("TRUE".to_string());
    env.enable_send_zc = Some("yes".to_string());
    let config = MoverConfig::load_from_env(&env).unwrap();
    assert_eq!(config.socket_path, "/run/m.sock");
    assert_eq!(config.iouring_entries, 512);
    assert_eq!(config.iouring_flags, 18);
    assert_eq!(config.buffer_count, 256);
    assert_eq!(config.buffer_size, 8192);
    assert_eq!(config.batch_timeout_ms, 10);
    assert!(config.enable_huge_pages);
    assert!(!config.enable_send_zc);
}

#[test]
fn load_from_env_rejects_unknown_flag() {
    let mut env = empty_env();
    env.iouring_flags = Some("clamp,turbo".to_string());
    assert_eq!(
        MoverConfig::load_from_env(&env).unwrap_err(),
        ConfigError::UnknownFlag("turbo".to_string())
    );
}
