use xdp_ip_counter::args::{Args, ArgsError};

fn args(ports: &str, window: &str, server_port: &str) -> Args {
    Args {
        iface: "eth0".to_string(),
        ports: ports.to_string(),
        window: window.to_string(),
        server_port: server_port.to_owned(),
        serve_ip_list: false,
    }
}

#[test]
fn test_parse_custom_ports() {
    let args = Args {
        iface: "eth0".to_string(),
        ports: "80,8341,22".to_string(),
        window: "60".to_string(),
        server_port: "3031".to_owned(),
        serve_ip_list: false,
    };

    let expected = vec![80, 8341, 22];
    match args.parse_custom_ports() {
        Some(ports) => {
            assert_eq!(ports, expected)
        }
        None => {
            assert!(false)
        }
    }
}

#[test]
fn test_parse_window() {
    let args = Args {
        iface: "eth0".to_string(),
        ports: "80,8341,22".to_string(),
        window: "60".to_string(),
        server_port: "3031".to_owned(),
        serve_ip_list: false,
    };

    let expected = 60;
    assert_eq!(args.parse_window(), expected)
}

#[test]
fn test_parse_server_port() {
    let args = Args {
        iface: "eth0".to_string(),
        ports: "80,8341,22".to_string(),
        window: "60".to_string(),
        server_port: "3031".to_owned(),
        serve_ip_list: false,
    };

    let expected = 3031;
    assert_eq!(args.parse_server_port(), expected)
}

#[test]
fn custom_ports_zero_means_all_ports() {
    assert_eq!(args("0", "60", "3031").parse_custom_ports(), None);
    assert_eq!(args("0", "60", "3031").checked_custom_ports(), Ok(None));
    assert_eq!(args("000", "60", "3031").checked_custom_ports(), Ok(None));
}

#[test]
fn custom_ports_empty_means_all_ports() {
    assert_eq!(args("", "60", "3031").checked_custom_ports(), Ok(None));
    assert_eq!(args("   ", "60", "3031").checked_custom_ports(), Ok(None));
    assert_eq!(args("", "60", "3031").parse_custom_ports(), None);
}

#[test]
fn custom_ports_are_trimmed_as_a_whole() {
    assert_eq!(args(" 80,443\n", "60", "3031").checked_custom_ports(), Ok(Some(vec![80, 443])));
    assert_eq!(
        args("\u{2003}80,443\u{3000}", "60", "3031").checked_custom_ports(),
        Ok(Some(vec![80, 443]))
    );
    assert_eq!(
        args("80, 443", "60", "3031").checked_custom_ports(),
        Err(ArgsError::MalformedPortList)
    );
}

#[test]
fn custom_ports_keep_order_and_repeats() {
    assert_eq!(args("0,80", "60", "3031").checked_custom_ports(), Ok(Some(vec![0, 80])));
    assert_eq!(args("443,80,443", "60", "3031").checked_custom_ports(), Ok(Some(vec![443, 80, 443])));
    assert_eq!(args("+80,65535", "60", "3031").checked_custom_ports(), Ok(Some(vec![80, 65535])));
    assert_eq!(args("0,0", "60", "3031").checked_custom_ports(), Ok(Some(vec![0, 0])));
}

#[test]
fn custom_ports_malformed_list() {
    for ports in ["80,,443", ",80", "80,", "8a", "-1", "80;443", "+", "80,+", "٣"] {
        assert_eq!(
            args(ports, "60", "3031").checked_custom_ports(),
            Err(ArgsError::MalformedPortList),
            "{ports:?}"
        );
    }
}

#[test]
fn custom_ports_invalid_port_value() {
    assert_eq!(args("65536", "60", "3031").checked_custom_ports(), Err(ArgsError::InvalidPort));
    assert_eq!(args("80,70000", "60", "3031").checked_custom_ports(), Err(ArgsError::InvalidPort));
    assert_eq!(
        args("80,99999999999999999999999999999999999999999", "60", "3031").checked_custom_ports(),
        Err(ArgsError::InvalidPort)
    );
}

#[test]
fn custom_ports_first_bad_entry_decides() {
    assert_eq!(args("70000,x", "60", "3031").checked_custom_ports(), Err(ArgsError::InvalidPort));
    assert_eq!(
        args("x,70000", "60", "3031").checked_custom_ports(),
        Err(ArgsError::MalformedPortList)
    );
}

#[test]
fn window_accepts_positive_multiples_of_ten() {
    assert_eq!(args("0", "10", "3031").checked_window(), Ok(10));
    assert_eq!(args("0", " 600 ", "3031").checked_window(), Ok(600));
    assert_eq!(args("0", "+20", "3031").checked_window(), Ok(20));
    assert_eq!(args("0", "0060", "3031").checked_window(), Ok(60));
    assert_eq!(
        args("0", "18446744073709551610", "3031").checked_window(),
        Ok(18446744073709551610)
    );
    assert_eq!(args("0", "600", "3031").parse_window(), 600);
}

#[test]
fn window_rejects_zero_and_other_values() {
    assert_eq!(args("0", "0", "3031").checked_window(), Err(ArgsError::WindowNotMultiple));
    assert_eq!(args("0", "65", "3031").checked_window(), Err(ArgsError::WindowNotMultiple));
    assert_eq!(args("0", "5", "3031").checked_window(), Err(ArgsError::WindowNotMultiple));
    assert_eq!(
        args("0", "18446744073709551615", "3031").checked_window(),
        Err(ArgsError::WindowNotMultiple)
    );
}

#[test]
fn window_rejects_what_is_no_number() {
    assert_eq!(args("0", "", "3031").checked_window(), Err(ArgsError::InvalidWindow));
    assert_eq!(args("0", "abc", "3031").checked_window(), Err(ArgsError::InvalidWindow));
    assert_eq!(args("0", "-10", "3031").checked_window(), Err(ArgsError::InvalidWindow));
    assert_eq!(args("0", "6 0", "3031").checked_window(), Err(ArgsError::InvalidWindow));
    assert_eq!(args("0", "60.0", "3031").checked_window(), Err(ArgsError::InvalidWindow));
    assert_eq!(
        args("0", "18446744073709551616", "3031").checked_window(),
        Err(ArgsError::InvalidWindow)
    );
    assert_eq!(
        args("0", "18446744073709551620", "3031").checked_window(),
        Err(ArgsError::InvalidWindow)
    );
}

#[test]
fn server_port_values() {
    assert_eq!(args("0", "60", "0").checked_server_port(), Ok(0));
    assert_eq!(args("0", "60", " 8080 ").checked_server_port(), Ok(8080));
    assert_eq!(args("0", "60", "65535").checked_server_port(), Ok(65535));
    assert_eq!(args("0", "60", "65535").parse_server_port(), 65535);
    assert_eq!(args("0", "60", "65536").checked_server_port(), Err(ArgsError::InvalidServerPort));
    assert_eq!(args("0", "60", "").checked_server_port(), Err(ArgsError::InvalidServerPort));
    assert_eq!(args("0", "60", "http").checked_server_port(), Err(ArgsError::InvalidServerPort));
    assert_eq!(args("0", "60", "-1").checked_server_port(), Err(ArgsError::InvalidServerPort));
}
