use longlens::config::{parse_hostname_port, split_domain};
use longlens::rdp_file::connection_from_fields;

fn s(v: &str) -> String {
    v.to_owned()
}

#[test]
fn address_port_and_domain_are_combined() {
    let c = connection_from_fields(
        s("server.example.com"),
        s("alice"),
        s("CORP"),
        3390,
        Some(s("longlens-test-full")),
    );
    assert_eq!(c.name, "longlens-test-full");
    assert_eq!(c.hostname, "server.example.com:3390");
    assert_eq!(c.username, "CORP\\alice");
}

#[test]
fn default_port_is_not_appended_to_address() {
    let c = connection_from_fields(s("host"), s("bob"), s(""), 3389, Some(s("x")));
    assert_eq!(c.hostname, "host");
    assert_eq!(c.username, "bob");
    let c = connection_from_fields(s("host"), s("bob"), s(""), 0, Some(s("x")));
    assert_eq!(c.hostname, "host");
}

#[test]
fn port_already_in_address_is_preserved() {
    let c = connection_from_fields(s("host:4000"), s(""), s(""), 3390, None);
    assert_eq!(c.hostname, "host:4000");
}

#[test]
fn missing_stem_names_the_destination_after_its_address() {
    let c = connection_from_fields(s("host"), s("bob"), s(""), 3390, None);
    assert_eq!(c.name, "host:3390");
}

#[test]
fn imported_destination_connects_as_the_file_says() {
    let c = connection_from_fields(s("server"), s("alice"), s("CORP"), 3390, None);
    assert_eq!(parse_hostname_port(&c.hostname), (s("server"), 3390));
    assert_eq!(split_domain(&c.username), (s("CORP"), s("alice")));
    let c = connection_from_fields(s("server"), s("bob"), s(""), 0, None);
    assert_eq!(parse_hostname_port(&c.hostname), (s("server"), 3389));
    assert_eq!(split_domain(&c.username), (s(""), s("bob")));
}
