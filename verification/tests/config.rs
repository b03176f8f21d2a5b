use rusty_counter::config::Config;

#[test]
fn test_config_holds_documented_defaults() {
    let config = Config {
        data_file_path: "./local_dir/data.bin".to_string(),
        backup_file_path: "./local_dir/backup.bin".to_string(),
        backup_interval: 3600,
        service_ip: "127.0.0.1".to_string(),
        service_port: 8080,
    };
    assert_eq!(config.data_file_path, "./local_dir/data.bin");
    assert_eq!(config.backup_file_path, "./local_dir/backup.bin");
    assert_eq!(config.backup_interval, 3600);
    assert_eq!(config.service_ip, "127.0.0.1");
    assert_eq!(config.service_port, 8080);
}
