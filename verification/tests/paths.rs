use g2mirror::paths::{
    config_path, is_stale_socket, is_valid_socket_name, join_path, pid_exists, signal_target,
    socket_name, socket_pid, SignalTest, STALE_SOCKET_AGE,
};

#[test]
fn socket_names_are_sanitized_and_bounded() {
    let name = socket_name(1234, "/Users/jim/my project/x");
    assert_eq!(name, "1234-_Users_jim_my_project_x");
    assert!(is_valid_socket_name(&name));
    assert_eq!(socket_pid(&name), Some(1234));

    let long = "/a".repeat(200);
    let name = socket_name(1, &long);
    assert!(name.len() <= 60 + 8);
    assert!(is_valid_socket_name(&name));
}

#[test]
fn rejects_path_traversal_in_socket_names() {
    assert!(!is_valid_socket_name("123-../../etc/passwd"));
    assert!(!is_valid_socket_name("../123-x"));
    assert!(!is_valid_socket_name("nopid"));
    assert!(!is_valid_socket_name(""));
}

#[test]
fn socket_pids_are_read_from_the_prefix() {
    assert_eq!(socket_pid("12-a-b"), Some(12));
    assert_eq!(socket_pid("12"), Some(12));
    assert_eq!(socket_pid("+12-a"), Some(12));
    assert!(!is_valid_socket_name("+12-a"), "a plus sign is no socket name");
    for bad in ["-12", "", "+", "4294967296-a", "1 2-a"] {
        assert_eq!(socket_pid(bad), None, "{bad}");
    }
    assert_eq!(socket_pid("4294967295-a"), Some(u32::MAX));
    assert_eq!(socket_name(7, ""), "7-");
    assert_eq!(socket_name(7, "/\u{e9}x"), "7-__x");
}

#[test]
fn stale_sockets_are_old_and_ownerless() {
    let hour = STALE_SOCKET_AGE;
    assert!(is_stale_socket("1-a", true, Some(hour + 1), false));
    assert!(!is_stale_socket("1-a", true, Some(hour), false));
    assert!(!is_stale_socket("1-a", true, None, false));
    assert!(!is_stale_socket("1-a", false, Some(hour + 1), false));
    assert!(!is_stale_socket("1-a", true, Some(hour + 1), true));
    assert!(!is_stale_socket("config.json", true, Some(hour + 1), false));
}

#[test]
fn processes_exist_when_a_signal_could_be_sent() {
    assert!(pid_exists(Some(SignalTest::Delivered)));
    assert!(pid_exists(Some(SignalTest::NotPermitted)));
    assert!(!pid_exists(Some(SignalTest::Failed)));
    assert!(!pid_exists(None));
    assert_eq!(signal_target(0), None);
    assert_eq!(signal_target(0x8000_0000), None);
    assert_eq!(signal_target(0x7fff_fff0), Some(0x7fff_fff0));
}

#[test]
fn the_config_lives_in_the_runtime_directory() {
    assert_eq!(config_path("/home/u/.g2mirror"), "/home/u/.g2mirror/config.json");
    assert_eq!(config_path("/x/"), "/x/config.json");
    assert_eq!(config_path(""), "config.json");
    assert_eq!(join_path("/a", "1-b"), "/a/1-b");
}
