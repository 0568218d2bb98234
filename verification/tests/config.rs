use longlens::config::{parse_hostname_port, parse_u16, split_domain};

#[test]
fn split_domain_with_backslash() {
    assert_eq!(
        split_domain("DOMAIN\\user"),
        ("DOMAIN".into(), "user".into())
    );
}

#[test]
fn split_domain_bare_username() {
    assert_eq!(split_domain("user"), (String::new(), "user".into()));
}

#[test]
fn split_domain_only_first_backslash() {
    assert_eq!(
        split_domain("DOMAIN\\sub\\user"),
        ("DOMAIN".into(), "sub\\user".into())
    );
}

#[test]
fn parse_hostname_port_default() {
    assert_eq!(parse_hostname_port("server"), ("server".into(), 3389));
}

#[test]
fn parse_hostname_port_custom() {
    assert_eq!(parse_hostname_port("server:3390"), ("server".into(), 3390));
}

#[test]
fn split_domain_empty_parts() {
    assert_eq!(split_domain("\\user"), (String::new(), "user".into()));
    assert_eq!(split_domain("DOMAIN\\"), ("DOMAIN".into(), String::new()));
    assert_eq!(split_domain(""), (String::new(), String::new()));
}

#[test]
fn parse_hostname_port_invalid_port_falls_back() {
    assert_eq!(parse_hostname_port("server:abc"), ("server".into(), 3389));
    assert_eq!(parse_hostname_port("server:"), ("server".into(), 3389));
    assert_eq!(parse_hostname_port("server:70000"), ("server".into(), 3389));
    assert_eq!(parse_hostname_port("server:-1"), ("server".into(), 3389));
}

#[test]
fn parse_hostname_port_splits_at_first_colon() {
    assert_eq!(parse_hostname_port("host:12:34"), ("host".into(), 3389));
    assert_eq!(parse_hostname_port(":4000"), (String::new(), 4000));
}

#[test]
fn parse_u16_matches_std() {
    for input in ["0", "65535", "65536", "+80", "+", "", "-0", "007", "1a", "99999999999", "٣"] {
        assert_eq!(parse_u16(input), input.parse::<u16>().ok(), "input {input:?}");
    }
}
