use ftp_sync::{Config, CustomError};

fn sample_config() -> Config {
    Config::from_parts(
        "ftp.example.net".to_string(),
        "21".to_string(),
        vec!["/in".to_string(), "/drop".to_string()],
        "/local/mirror".to_string(),
        "user".to_string(),
        "pass".to_string(),
        4,
        30,
        "txt".to_string(),
    )
}

#[test]
fn hostname_joins_host_and_port() {
    let c = sample_config();
    assert_eq!(c.get_hostname().as_str(), "ftp.example.net:21");
}

#[test]
fn watch_list_and_interval_come_from_config() {
    let c = sample_config();
    assert_eq!(c.get_dirs_to_watch(), vec!["/in".to_string(), "/drop".to_string()]);
    assert_eq!(c.get_healthcheck_interval(), 30);
    assert_eq!(c.connections, 4);
    assert_eq!(c.ready_flag_file_ext.as_str(), "txt");
}

#[test]
fn config_target_path_substitutes_local_folder() {
    let c = sample_config();
    assert_eq!(
        c.get_download_target_path("/in", "/in/batch1/a.dat").as_str(),
        "/local/mirror/batch1/a.dat"
    );
    assert_eq!(
        c.get_download_target_path("/in", "/elsewhere/a.dat").as_str(),
        "/elsewhere/a.dat"
    );
}

#[test]
fn error_variants_carry_their_message() {
    let io = CustomError::Io("open failed".to_string());
    let ftp = CustomError::Ftp("login failed".to_string());
    let serde = CustomError::Serde("bad config".to_string());
    assert_eq!(io.message().as_str(), "open failed");
    assert_eq!(ftp.message().as_str(), "login failed");
    assert_eq!(serde.message().as_str(), "bad config");
    assert!(matches!(io, CustomError::Io(_)));
    assert!(matches!(ftp, CustomError::Ftp(_)));
    assert!(matches!(serde, CustomError::Serde(_)));
}
