use mcproxy::model::{Hostname, Upstream};
use mcproxy::registry::{
    ActiveServer, ContainerId, ContainerIdError, DiscoveredServers, ServerId,
    ServerInsertionError,
};

fn container_id(fill: char) -> ContainerId {
    let hex: String = std::iter::repeat(fill).take(64).collect();
    ContainerId::parse(&hex).unwrap()
}

fn server(hostnames: &[&str], host: &str, port: u16) -> ActiveServer {
    ActiveServer {
        hostnames: hostnames.iter().map(|h| Hostname::from_str(h)).collect(),
        upstream: Upstream {
            host: String::from(host),
            port,
        },
    }
}

#[test]
fn insert_then_lookup() {
    let mut registry = DiscoveredServers::new();
    assert!(registry.is_empty());
    registry
        .insert(
            ServerId::Docker(container_id('a')),
            server(&["mc.example"], "10.0.0.2", 25565),
        )
        .unwrap();
    assert_eq!(registry.len(), 1);
    let found = registry.get_by_hostname("mc.example").unwrap();
    assert_eq!(found.upstream.host, "10.0.0.2");
    assert_eq!(found.upstream.port, 25565);
    assert!(registry.get_by_hostname("absent.example").is_none());
}

#[test]
fn duplicate_server_id_is_refused() {
    let mut registry = DiscoveredServers::new();
    registry
        .insert(
            ServerId::Docker(container_id('a')),
            server(&["one.example"], "10.0.0.2", 25565),
        )
        .unwrap();
    let err = registry
        .insert(
            ServerId::Docker(container_id('a')),
            server(&["two.example"], "10.0.0.3", 25565),
        )
        .unwrap_err();
    assert!(matches!(err, ServerInsertionError::ServerIdExists));
    // the losing insertion left nothing behind
    assert!(registry.get_by_hostname("two.example").is_none());
    assert_eq!(registry.len(), 1);
}

/// Registry conflict rollback: a second server claiming an existing
/// hostname fails atomically, leaving no trace of its other hostnames.
#[test]
fn conflicting_hostname_rolls_back() {
    let mut registry = DiscoveredServers::new();
    registry
        .insert(
            ServerId::Docker(container_id('a')),
            server(&["x.example", "y.example"], "10.0.0.2", 25565),
        )
        .unwrap();
    let err = registry
        .insert(
            ServerId::Docker(container_id('b')),
            server(&["y.example", "z.example"], "10.0.0.3", 25565),
        )
        .unwrap_err();
    match err {
        ServerInsertionError::HostnameExists(e) => {
            assert_eq!(e.hostname(), "y.example");
        },
        ServerInsertionError::ServerIdExists => panic!("wrong error"),
    }
    // no dangling entry for the rolled-back hostname
    assert!(registry.get_by_hostname("z.example").is_none());
    // the first server's mapping is intact
    let x = registry.get_by_hostname("x.example").unwrap();
    assert_eq!(x.upstream.host, "10.0.0.2");
    let y = registry.get_by_hostname("y.example").unwrap();
    assert_eq!(y.upstream.host, "10.0.0.2");
    assert_eq!(registry.len(), 1);
}

#[test]
fn remove_deletes_every_index_entry() {
    let mut registry = DiscoveredServers::new();
    let id = ServerId::Docker(container_id('c'));
    registry
        .insert(id.clone(), server(&["a.example", "b.example"], "10.0.0.4", 25570))
        .unwrap();
    let removed = registry.remove(&id).unwrap();
    assert_eq!(removed.hostnames.len(), 2);
    assert!(registry.get_by_hostname("a.example").is_none());
    assert!(registry.get_by_hostname("b.example").is_none());
    assert!(registry.is_empty());
    assert!(registry.remove(&id).is_none());
}

#[test]
fn container_id_parses_hexadecimal() {
    let hex = "0123456789abcdef0123456789abcdef0123456789abcdef0123456789abcdef";
    let id = ContainerId::parse(hex).unwrap();
    assert_eq!(id.hex_string(), hex);
}

#[test]
fn container_id_skips_separators_and_case_folds_output() {
    let spaced = "01:23:45:67:89:AB:CD:EF:01:23:45:67:89:ab:cd:ef:\
                  01:23:45:67:89:ab:cd:ef:01:23:45:67:89:ab:cd:ef";
    let id = ContainerId::parse(spaced).unwrap();
    assert_eq!(
        id.hex_string(),
        "0123456789abcdef0123456789abcdef0123456789abcdef0123456789abcdef"
    );
}

#[test]
fn container_id_rejects_wrong_digit_counts() {
    assert!(matches!(
        ContainerId::parse("abc"),
        Err(ContainerIdError::TooFewNibbles)
    ));
    let long: String = std::iter::repeat('a').take(65).collect();
    assert!(matches!(
        ContainerId::parse(&long),
        Err(ContainerIdError::TooManyNibbles)
    ));
}

#[test]
fn removed_hostnames_can_be_claimed_again() {
    let mut registry = DiscoveredServers::new();
    let first = ServerId::Docker(container_id('a'));
    registry
        .insert(first.clone(), server(&["mc.example"], "10.0.0.2", 25565))
        .unwrap();
    registry.remove(&first).unwrap();
    registry
        .insert(
            ServerId::Docker(container_id('b')),
            server(&["mc.example"], "10.0.0.3", 25566),
        )
        .unwrap();
    let found = registry.get_by_hostname("mc.example").unwrap();
    assert_eq!(found.upstream.host, "10.0.0.3");
}

#[test]
fn duplicate_hostname_within_one_insertion_conflicts_with_itself() {
    let mut registry = DiscoveredServers::new();
    let err = registry
        .insert(
            ServerId::Docker(container_id('a')),
            server(&["same.example", "same.example"], "10.0.0.2", 25565),
        )
        .unwrap_err();
    assert!(matches!(err, ServerInsertionError::HostnameExists(_)));
    assert!(registry.get_by_hostname("same.example").is_none());
    assert!(registry.is_empty());
}
