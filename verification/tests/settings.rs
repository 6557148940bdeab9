use modbus_prometheus_api_server::configuration::Args;
use modbus_prometheus_api_server::errors::ErrorRuntime;
use modbus_prometheus_api_server::logging::{number_to_text, print_start};

#[test]
fn settings_give_back_their_values() {
    let args = Args::new("debug".to_string(), 8080, 1000, "/etc/gateway/config".to_string());
    assert_eq!(args.get_log_level(), "debug");
    assert_eq!(args.get_port(), 8080);
    assert_eq!(args.get_read_data_interval_ms(), 1000);
    assert_eq!(args.get_config_path(), "/etc/gateway/config");
    assert_eq!(args, Args::new("debug".to_string(), 8080, 1000, "/etc/gateway/config".to_string()));
}

#[test]
fn start_lists_the_descriptions_that_were_found() {
    let files = Ok(vec!["/cfg/a.json".to_string(), "/cfg/b.json".to_string()]);
    assert_eq!(
        print_start("/cfg".to_string(), &files),
        vec![
            "Starting server...",
            "Initializing  Clients...",
            "Trying to read local stored config files...",
            "Location for config files: /cfg",
            "Found 2 config files, so 2 client/s will be initialized.",
            "Config file: /cfg/a.json",
            "Config file: /cfg/b.json",
        ]
    );
    assert_eq!(
        print_start("".to_string(), &Ok(Vec::new())),
        vec![
            "Starting server...",
            "Initializing  Clients...",
            "Trying to read local stored config files...",
            "Location for config files: ",
            "Found 0 config files, so 0 client/s will be initialized.",
        ]
    );
}

#[test]
fn start_says_so_where_nothing_could_be_listed() {
    assert_eq!(
        print_start("/cfg".to_string(), &Err(ErrorRuntime::FSReadDirError)),
        vec![
            "Starting server...",
            "Initializing  Clients...",
            "Trying to read local stored config files...",
            "Location for config files: /cfg",
            "No config files found. No clients will be initialized.",
        ]
    );
}

#[test]
fn start_counts_in_decimal() {
    let many: Vec<String> = (0..12).map(|i| format!("f{}", i)).collect();
    let lines = print_start("c".to_string(), &Ok(many));
    assert_eq!(lines.len(), 17);
    assert_eq!(lines[4], "Found 12 config files, so 12 client/s will be initialized.");
    assert_eq!(lines[16], "Config file: f11");
}

#[test]
fn numbers_are_written_like_the_standard_library_writes_them() {
    for n in [0usize, 1, 9, 10, 11, 99, 100, 101, 1000, 65535, 65536, 1234567890, usize::MAX] {
        assert_eq!(number_to_text(n), n.to_string());
    }
}
