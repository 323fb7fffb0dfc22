use rcon_cli::store::{RconCliConfig, ServerConfig, StoreError};

fn profile(name: &str, ip: &str, port: &str, pass: &str) -> ServerConfig {
    ServerConfig::new(
        name.to_string(),
        ip.to_string(),
        port.to_string(),
        pass.to_string(),
    )
}

fn empty_store() -> RconCliConfig {
    RconCliConfig::new(None, Vec::new())
}

#[test]
fn add_then_has() {
    let mut store = empty_store();
    store.add_server(profile("alpha", "10.0.0.1", "27015", "pw")).unwrap();
    assert!(store.has_server(&profile("alpha", "10.0.0.1", "27015", "pw")));
    assert!(!store.has_server(&profile("alpha", "10.0.0.1", "27015", "other")));
}

#[test]
fn duplicate_name_is_rejected() {
    let mut store = empty_store();
    store.add_server(profile("alpha", "10.0.0.1", "27015", "pw")).unwrap();
    let result = store.add_server(profile("alpha", "10.9.9.9", "1337", "other"));
    assert!(matches!(result, Err(StoreError::DuplicateNameError)));
    assert_eq!(store.servers.len(), 1);
}

#[test]
fn duplicate_endpoint_is_rejected() {
    let mut store = empty_store();
    store.add_server(profile("alpha", "10.0.0.1", "27015", "pw")).unwrap();
    let result = store.add_server(profile("bravo", "10.0.0.1", "27015", "other"));
    assert!(matches!(result, Err(StoreError::DuplicateEndpointError)));
    assert_eq!(store.servers.len(), 1);
}

#[test]
fn name_conflict_reported_before_endpoint() {
    let mut store = empty_store();
    store.add_server(profile("alpha", "10.0.0.1", "27015", "pw")).unwrap();
    // Same name and same endpoint: the name decides.
    let result = store.add_server(profile("alpha", "10.0.0.1", "27015", "pw"));
    assert!(matches!(result, Err(StoreError::DuplicateNameError)));
}

#[test]
fn removing_default_clears_selection() {
    let mut store = empty_store();
    store.add_server(profile("alpha", "10.0.0.1", "27015", "pw")).unwrap();
    store.set_default_server(profile("alpha", "10.0.0.1", "27015", "pw")).unwrap();
    assert!(store.default_server.is_some());
    store.remove_server(profile("alpha", "10.0.0.1", "27015", "pw"));
    assert!(store.default_server.is_none());
    assert!(store.servers.is_empty());
}

#[test]
fn removing_other_profile_keeps_default() {
    let mut store = empty_store();
    store.add_server(profile("alpha", "10.0.0.1", "27015", "pw")).unwrap();
    store.add_server(profile("bravo", "10.0.0.2", "27015", "pw")).unwrap();
    store.set_default_server(profile("alpha", "10.0.0.1", "27015", "pw")).unwrap();
    store.remove_server(profile("bravo", "10.0.0.2", "27015", "pw"));
    let default = store.default_server.as_ref().unwrap();
    assert_eq!(default.name, "alpha");
}

#[test]
fn remove_absent_profile_is_a_no_op() {
    let mut store = empty_store();
    store.add_server(profile("alpha", "10.0.0.1", "27015", "pw")).unwrap();
    store.remove_server(profile("ghost", "10.0.0.9", "27015", "pw"));
    assert_eq!(store.servers.len(), 1);
}

#[test]
fn set_default_of_unknown_profile_is_rejected() {
    let mut store = empty_store();
    store.add_server(profile("alpha", "10.0.0.1", "27015", "pw")).unwrap();
    let result = store.set_default_server(profile("ghost", "10.0.0.9", "27015", "pw"));
    assert!(matches!(result, Err(StoreError::UnknownProfileError)));
    assert!(store.default_server.is_none());
}

#[test]
fn get_default_without_selection_is_rejected() {
    let store = empty_store();
    assert!(matches!(
        store.get_default(),
        Err(StoreError::NoDefaultProfileError)
    ));
}

#[test]
fn get_default_returns_selection() {
    let mut store = empty_store();
    store.add_server(profile("alpha", "10.0.0.1", "27015", "pw")).unwrap();
    store.set_default_server(profile("alpha", "10.0.0.1", "27015", "pw")).unwrap();
    let default = store.get_default().unwrap();
    assert_eq!(default.name, "alpha");
    assert_eq!(default.ip, "10.0.0.1");
}

#[test]
fn clear_empties_everything() {
    let mut store = empty_store();
    store.add_server(profile("alpha", "10.0.0.1", "27015", "pw")).unwrap();
    store.set_default_server(profile("alpha", "10.0.0.1", "27015", "pw")).unwrap();
    store.clear();
    assert!(store.servers.is_empty());
    assert!(store.default_server.is_none());
}

#[test]
fn ordering_is_case_insensitive_ascending() {
    let mut store = empty_store();
    store.add_server(profile("Bravo", "10.0.0.1", "27015", "pw")).unwrap();
    store.add_server(profile("alpha", "10.0.0.2", "27015", "pw")).unwrap();
    store.add_server(profile("Charlie", "10.0.0.3", "27015", "pw")).unwrap();
    store.order_servers();
    let names: Vec<&str> = store.servers.iter().map(|s| s.name.as_str()).collect();
    assert_eq!(names, vec!["alpha", "Bravo", "Charlie"]);
}

#[test]
fn ordering_keeps_default() {
    let mut store = empty_store();
    store.add_server(profile("zulu", "10.0.0.1", "27015", "pw")).unwrap();
    store.add_server(profile("alpha", "10.0.0.2", "27015", "pw")).unwrap();
    store.set_default_server(profile("zulu", "10.0.0.1", "27015", "pw")).unwrap();
    store.order_servers();
    assert_eq!(store.default_server.as_ref().unwrap().name, "zulu");
    assert_eq!(store.servers[0].name, "alpha");
}

#[test]
fn endpoint_frees_up_after_removal() {
    let mut store = empty_store();
    store.add_server(profile("alpha", "10.0.0.1", "27015", "pw")).unwrap();
    store.remove_server(profile("alpha", "10.0.0.1", "27015", "pw"));
    store.add_server(profile("bravo", "10.0.0.1", "27015", "pw")).unwrap();
    assert_eq!(store.servers[0].name, "bravo");
}
