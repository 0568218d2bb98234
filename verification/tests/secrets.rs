use longlens::secrets::{keyring_label, make_attrs};

#[test]
fn attributes_name_application_and_destination() {
    let attrs = make_attrs("1234");
    assert_eq!(attrs, vec![("application", "longlens"), ("uuid", "1234")]);
}

#[test]
fn label_names_the_destination() {
    assert_eq!(keyring_label("abcd"), "LongLens: abcd");
}
