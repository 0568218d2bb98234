use longlens::destinations::{
    ConnectionOptions, DestinationData, DestinationError, DestinationService, Destinations,
    PasswordAction,
};

fn options() -> ConnectionOptions {
    ConnectionOptions {
        clipboard_enabled: true,
        sound_enabled: false,
        inhibit_system_shortcuts: true,
    }
}

fn destination(name: &str, hostname: &str, username: &str) -> DestinationData {
    DestinationData::new(name.to_owned(), hostname.to_owned(), username.to_owned(), options())
}

fn is_hyphenated_uuid(s: &str) -> bool {
    s.len() == 36
        && s.chars().enumerate().all(|(i, c)| {
            if [8, 13, 18, 23].contains(&i) {
                c == '-'
            } else {
                c.is_ascii_digit() || ('a'..='f').contains(&c)
            }
        })
}

#[test]
fn new_destinations_get_fresh_identifiers() {
    let a = destination("a", "host", "user");
    let b = destination("a", "host", "user");
    assert!(is_hyphenated_uuid(&a.uuid));
    assert!(is_hyphenated_uuid(&b.uuid));
    assert_ne!(a.uuid, b.uuid);
    assert!(a.clipboard_enabled && !a.sound_enabled && a.inhibit_system_shortcuts);
}

#[test]
fn titles_and_subtitles() {
    let named = destination("Office", "office.example.com", "alice");
    assert_eq!(named.display_title(), "Office");
    assert_eq!(named.display_subtitle(), "Host: office.example.com, User: alice");
    let unnamed = destination("", "office.example.com", "alice");
    assert_eq!(unnamed.display_title(), "office.example.com");
    assert_eq!(unnamed.display_subtitle(), "User: alice");
}

#[test]
fn connection_options_round_trip() {
    let mut d = destination("", "h", "u");
    assert_eq!(d.connection_options(), options());
    let other = ConnectionOptions {
        clipboard_enabled: false,
        sound_enabled: true,
        inhibit_system_shortcuts: false,
    };
    d.set_connection_options(other);
    assert_eq!(d.connection_options(), other);
}

#[test]
fn add_then_get_and_duplicates() {
    let mut store = Destinations::new();
    let d = destination("", "h", "u");
    let id = store.add(d.clone()).unwrap();
    assert_eq!(id, d.uuid);
    assert_eq!(store.len(), 1);
    assert_eq!(store.get(&id).unwrap().hostname, "h");
    let dup = destination("other name", "h", "u");
    assert!(matches!(store.add(dup), Err(DestinationError::Duplicate)));
    assert_eq!(store.len(), 1);
    assert!(store.get("missing").is_none());
}

#[test]
fn update_replaces_fields() {
    let mut store = Destinations::new();
    let d = destination("", "h", "u");
    let id = store.add(d.clone()).unwrap();
    let mut changed = d.clone();
    changed.name = "Renamed".to_owned();
    store.update(changed).unwrap();
    assert_eq!(store.get(&id).unwrap().name, "Renamed");
    let stranger = destination("", "x", "y");
    assert!(matches!(store.update(stranger), Err(DestinationError::NotFound)));
}

#[test]
fn restore_undoes_remove() {
    let mut store = Destinations::new();
    let ids: Vec<String> = ["a", "b", "c"]
        .iter()
        .map(|h| store.add(destination("", h, "u")).unwrap())
        .collect();
    let (pos, data) = store.find(&ids[1]).unwrap();
    assert_eq!(pos, 1);
    store.remove(&ids[1]).unwrap();
    assert_eq!(store.len(), 2);
    assert!(matches!(store.remove(&ids[1]), Err(DestinationError::NotFound)));
    store.restore(pos, data).unwrap();
    let hosts: Vec<String> = store.items().into_iter().map(|d| d.hostname).collect();
    assert_eq!(hosts, ["a", "b", "c"]);
}

#[test]
fn restore_past_the_end_is_ignored() {
    let mut store = Destinations::new();
    store.restore(5, destination("", "h", "u")).unwrap();
    assert_eq!(store.len(), 0);
}

#[test]
fn search_matches_all_terms_ignoring_case() {
    let mut store = Destinations::new();
    let office = store.add(destination("Office", "office.example.com", "Alice")).unwrap();
    let lab = store.add(destination("Lab", "lab.example.com", "bob")).unwrap();
    let terms = |t: &[&str]| t.iter().map(|s| s.to_string()).collect::<Vec<_>>();
    assert_eq!(store.search(&terms(&["alice"])), vec![office.clone()]);
    assert_eq!(store.search(&terms(&["EXAMPLE"])), vec![office.clone(), lab.clone()]);
    assert_eq!(store.search(&terms(&["lab", "bob"])), vec![lab.clone()]);
    assert!(store.search(&terms(&["lab", "alice"])).is_empty());
    assert_eq!(store.search(&[]), vec![office, lab]);
}

#[test]
fn from_items_keeps_order() {
    let store = Destinations::from_items(vec![destination("", "a", "u"), destination("", "b", "u")]);
    let hosts: Vec<String> = store.items().into_iter().map(|d| d.hostname).collect();
    assert_eq!(hosts, ["a", "b"]);
}

#[test]
fn password_is_stored_only_when_remembered_and_entered() {
    assert_eq!(DestinationService::password_action(true, "pw"), PasswordAction::Store);
    assert_eq!(DestinationService::password_action(true, ""), PasswordAction::Delete);
    assert_eq!(DestinationService::password_action(false, "pw"), PasswordAction::Delete);
}

#[test]
fn service_add_update_remove_restore() {
    let mut service = DestinationService::new(Destinations::new());
    let id = service
        .add_from_form("".into(), "h".into(), "u".into(), options())
        .unwrap();
    assert!(is_hyphenated_uuid(&id));
    assert!(matches!(
        service.add_from_form("n".into(), "h".into(), "u".into(), options()),
        Err(DestinationError::Duplicate)
    ));
    let same = service
        .update_from_form(&id, "Named".into(), "h2".into(), "u".into(), options())
        .unwrap();
    assert_eq!(same, id);
    assert_eq!(service.store().get(&id).unwrap().hostname, "h2");
    assert!(matches!(
        service.update_from_form("nope", "".into(), "".into(), "".into(), options()),
        Err(DestinationError::NotFound)
    ));
    let removed = service.remove(&id).unwrap();
    assert_eq!(removed.pos, 0);
    assert_eq!(removed.uuid, id);
    assert_eq!(service.store().len(), 0);
    service.restore(removed).unwrap();
    assert_eq!(service.store().get(&id).unwrap().name, "Named");
    assert!(matches!(service.remove("nope"), Err(DestinationError::NotFound)));
}

#[test]
fn storage_errors_convert() {
    let io = std::io::Error::other("disk full");
    assert!(matches!(DestinationError::from(io), DestinationError::Io(_)));
    let serde = serde_json::from_str::<u8>("not json").unwrap_err();
    assert!(matches!(DestinationError::from(serde), DestinationError::Serde(_)));
}
