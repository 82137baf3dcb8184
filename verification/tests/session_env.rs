use cosmic_comp::session::{get_env, parse_raw_fd, session_message, Common, Message, SessionError};

#[test]
fn env_names_the_wayland_socket() {
    let common = Common { socket: b"wayland-1".to_vec(), xwayland_display: None };
    let env = get_env(&common).unwrap();
    assert_eq!(env, vec![(String::from("WAYLAND_DISPLAY"), String::from("wayland-1"))]);
}

#[test]
fn env_names_the_x_display_while_xwayland_runs() {
    let common = Common { socket: b"wayland-0".to_vec(), xwayland_display: Some(1) };
    let env = get_env(&common).unwrap();
    assert_eq!(
        env,
        vec![
            (String::from("WAYLAND_DISPLAY"), String::from("wayland-0")),
            (String::from("DISPLAY"), String::from(":1")),
        ]
    );
}

#[test]
fn display_numbers_are_written_in_decimal() {
    for (n, text) in [(0u32, ":0"), (10, ":10"), (407, ":407"), (u32::MAX, ":4294967295")] {
        let common = Common { socket: b"w".to_vec(), xwayland_display: Some(n) };
        let env = get_env(&common).unwrap();
        assert_eq!(env[1].1, text);
        assert_eq!(env[1].1, format!(":{}", n));
    }
}

#[test]
fn non_ascii_socket_names_are_kept() {
    let common = Common { socket: "wäyland-é".as_bytes().to_vec(), xwayland_display: None };
    let env = get_env(&common).unwrap();
    assert_eq!(env[0].1, "wäyland-é");
}

#[test]
fn socket_name_that_is_not_utf8_is_refused() {
    let common = Common { socket: vec![b'w', 0xff, 0xfe], xwayland_display: Some(2) };
    assert_eq!(get_env(&common), Err(SessionError::SocketNotUtf8));
}

#[test]
fn set_env_message_holds_the_variables() {
    let common = Common { socket: b"wayland-2".to_vec(), xwayland_display: None };
    let message = Message::SetEnv { variables: get_env(&common).unwrap() };
    let Message::SetEnv { variables } = message;
    assert_eq!(variables.len(), 1);
}

#[test]
fn fd_numbers_parse_as_i32() {
    assert_eq!(parse_raw_fd("0"), Some(0));
    assert_eq!(parse_raw_fd("12"), Some(12));
    assert_eq!(parse_raw_fd("+7"), Some(7));
    assert_eq!(parse_raw_fd("-1"), Some(-1));
    assert_eq!(parse_raw_fd("007"), Some(7));
    assert_eq!(parse_raw_fd("2147483647"), Some(i32::MAX));
    assert_eq!(parse_raw_fd("-2147483648"), Some(i32::MIN));
}

#[test]
fn malformed_fd_numbers_are_refused() {
    for text in ["", "+", "-", "2147483648", "-2147483649", "12a", " 3", "3 ", "1_0", "٣", "99999999999999999999"] {
        assert_eq!(parse_raw_fd(text), None, "{:?}", text);
        assert_eq!(parse_raw_fd(text), text.parse::<i32>().ok(), "{:?}", text);
    }
}

#[test]
fn fd_parsing_agrees_with_std() {
    for text in ["5", "-5", "+0", "-0", "65536", "000000000000000000012", "-2147483648", "2147483647"] {
        assert_eq!(parse_raw_fd(text), text.parse::<i32>().ok(), "{:?}", text);
    }
}

#[test]
fn env_names_are_distinct() {
    let common = Common { socket: b"wayland-3".to_vec(), xwayland_display: Some(3) };
    let env = get_env(&common).unwrap();
    assert_ne!(env[0].0, env[1].0);
}

#[test]
fn session_message_carries_the_environment() {
    let common = Common { socket: b"wayland-1".to_vec(), xwayland_display: Some(0) };
    let Message::SetEnv { variables } = session_message(&common).unwrap();
    assert_eq!(variables, get_env(&common).unwrap());
    let bad = Common { socket: vec![0xc0, 0x80], xwayland_display: None };
    assert!(matches!(session_message(&bad), Err(SessionError::SocketNotUtf8)));
}
