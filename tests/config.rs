use election::config::{Configuration, ConfigurationSTate, Server};
use election::error::ConsensusError;
use election::peer::Peer;

fn server(id: u64) -> Server {
    Server { server_id: id, server_addr: format!("[::1]:{}", 9000 + id) }
}

fn servers(ids: &[u64]) -> Vec<Server> {
    ids.iter().map(|&i| server(i)).collect()
}

#[test]
fn test_configuration() {
    let mut configuration = Configuration::new();
    configuration.old_servers.push(Server { server_id: 1, server_addr: "[::1]:9001".to_string() });
    configuration.new_servers.push(Server { server_id: 2, server_addr: "[::1]:9002".to_string() });

    let ser_data = configuration.to_data();
    let de_configuration = Configuration::from_data(&ser_data).unwrap();

    assert_eq!(de_configuration, configuration);

    assert_eq!(
        configuration.query_configuration_state(1),
        ConfigurationSTate { in_new: false, in_old: true }
    );
}

#[test]
fn round_trip_keeps_membership_answers() {
    let mut c = Configuration::new();
    c.append_new_server(&servers(&[2, 3, 4]));
    c.old_servers = servers(&[1, 2, 3]);
    let bytes = c.to_data();
    assert!(!bytes.is_empty());
    let d = Configuration::from_data(&bytes).unwrap();
    assert_eq!(d, c);
    for id in 0..6u64 {
        assert_eq!(c.query_configuration_state(id), d.query_configuration_state(id));
    }
    assert_eq!(d.query_configuration_state(1), ConfigurationSTate { in_new: false, in_old: true });
    assert_eq!(d.query_configuration_state(4), ConfigurationSTate { in_new: true, in_old: false });
    assert_eq!(d.query_configuration_state(2), ConfigurationSTate { in_new: true, in_old: true });
}

#[test]
fn from_data_rejects_garbage() {
    assert_eq!(Configuration::from_data(&vec![1, 2, 3]), Err(ConsensusError::CorruptPersistedState));
}

#[test]
fn configuration_state_new_is_in_new_only() {
    assert_eq!(ConfigurationSTate::new(), ConfigurationSTate { in_new: true, in_old: false });
}

#[test]
fn joint_configuration_lifecycle() {
    // Cold = {A, B, C} = {1, 2, 3}; Cnew = {B, C, D} = {2, 3, 4}.
    let joint = Configuration { old_servers: servers(&[1, 2, 3]), new_servers: servers(&[2, 3, 4]) };
    assert!(joint.is_configuration_old_new());
    assert!(!joint.is_configuration_new());
    // A majority of both halves is needed.
    assert!(joint.is_quorum(&vec![2, 3]));
    assert!(joint.is_quorum(&vec![1, 2, 4]));
    assert!(!joint.is_quorum(&vec![1, 2]));
    assert!(!joint.is_quorum(&vec![3, 4]));
    assert!(!joint.is_quorum(&vec![1, 4]));
    let cnew = joint.gen_new_configuration();
    assert!(cnew.is_configuration_new());
    assert!(cnew.old_servers.is_empty());
    assert_eq!(cnew.new_servers, servers(&[2, 3, 4]));
    // Only a majority of {B, C, D} is needed now.
    assert!(cnew.is_quorum(&vec![3, 4]));
    assert!(!cnew.is_quorum(&vec![1, 2]));
    assert!(!cnew.is_quorum(&vec![4]));
}

#[test]
fn quorum_counts_each_listed_server_once() {
    let c = Configuration { old_servers: vec![], new_servers: servers(&[1, 2, 3, 4]) };
    assert!(!c.is_quorum(&vec![1, 2]));
    assert!(!c.is_quorum(&vec![1, 1, 1]));
    assert!(c.is_quorum(&vec![1, 2, 3]));
    assert!(!c.is_quorum(&vec![]));
}

#[test]
fn append_old_peers_keeps_order() {
    let mut c = Configuration::new();
    let peers = vec![Peer::new(7, "a".to_string()), Peer::new(5, "b".to_string())];
    c.append_old_peers(&peers);
    assert_eq!(c.old_servers, vec![Server { server_id: 7, server_addr: "a".to_string() }, Server { server_id: 5, server_addr: "b".to_string() }]);
    assert!(c.new_servers.is_empty());
    assert!(!c.is_configuration_old_new());
}
