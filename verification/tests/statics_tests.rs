use fwupdate::statics::{
    config_file_argument, parse_port, port_argument, ConfigEntries, Statics, MIB,
    UPLOAD_MEMORY_LIMIT,
};

fn full_entries() -> ConfigEntries {
    ConfigEntries {
        web_bind_address: Some("127.0.0.1".to_string()),
        web_bind_port: Some(8080),
        web_fwupdate_filesize: Some(64),
        web_fwupdate_path: Some("/data".to_string()),
        web_project_name: Some("box".to_string()),
        http_remote_addr: Some("http://fw.local".to_string()),
        http_remote_fw_type: Some("dev".to_string()),
    }
}

#[test]
fn default_settings() {
    let s = Statics::default();
    assert_eq!(s.web_bind_address, "0.0.0.0");
    assert_eq!(s.web_bind_port, 80);
    assert_eq!(s.web_fwupdate_filesize, 120);
    assert_eq!(s.web_fwupdate_path, "/tmp");
    assert_eq!(s.web_project_name, "rollo");
    assert_eq!(s.http_remote_addr, "http://10.10.2.58:8181/");
    assert_eq!(s.http_remote_fw_type, "release");
}

#[test]
fn settings_from_file() {
    let s = Statics::new_from_file(full_entries());
    assert_eq!(s.web_bind_address, "127.0.0.1");
    assert_eq!(s.web_bind_port, 8080);
    assert_eq!(s.web_fwupdate_filesize, 64);
    assert_eq!(s.web_fwupdate_path, "/data");
    assert_eq!(s.web_project_name, "box");
    assert_eq!(s.http_remote_addr, "http://fw.local");
    assert_eq!(s.http_remote_fw_type, "dev");
}

#[test]
fn settings_from_file_without_address() {
    let mut e = full_entries();
    e.web_bind_address = None;
    assert_eq!(Statics::new_from_file(e).web_bind_address, "0.0.0.0");
}

#[test]
fn upload_limits() {
    let s = Statics::default();
    assert_eq!(s.upload_total_limit(), 120 * 1024 * 1024);
    assert_eq!(MIB, 1024 * 1024);
    assert_eq!(UPLOAD_MEMORY_LIMIT, 30 * 1024 * 1024);
}

#[test]
fn config_file_argument_forms() {
    let args = |v: &[&str]| v.iter().map(|s| s.to_string()).collect::<Vec<String>>();
    assert_eq!(config_file_argument(&args(&["fw", "-c", "cfg.toml"])), Some("cfg.toml".to_string()));
    assert_eq!(config_file_argument(&args(&["fw", "-c", "a", "b"])), Some("a".to_string()));
    assert_eq!(config_file_argument(&args(&["fw", "-c"])), None);
    assert_eq!(config_file_argument(&args(&["fw", "-p", "8080"])), None);
    assert_eq!(config_file_argument(&args(&[])), None);
}

#[test]
fn port_argument_forms() {
    let args = |v: &[&str]| v.iter().map(|s| s.to_string()).collect::<Vec<String>>();
    assert_eq!(port_argument(&args(&["fw", "-p", "8080"])), Some(8080));
    assert_eq!(port_argument(&args(&["fw", "-p", "65535"])), Some(65535));
    assert_eq!(port_argument(&args(&["fw", "-p", "65536"])), None);
    assert_eq!(port_argument(&args(&["fw", "-p", "80a"])), None);
    assert_eq!(port_argument(&args(&["fw", "-c", "8080"])), None);
    assert_eq!(port_argument(&args(&["fw", "-p"])), None);
    assert_eq!(parse_port("0"), Some(0));
    assert_eq!(parse_port("007"), Some(7));
    assert_eq!(parse_port(""), None);
    assert_eq!(parse_port("99999999999999999999"), None);
    assert_eq!(parse_port("-1"), None);
}
