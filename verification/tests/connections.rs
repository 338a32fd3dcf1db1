use seeker::addr::Ipv4Address;
use seeker::connections::Connection;
use seeker::pool::Pool;
use seeker::store::{Store, StoreError};

fn store_for_test() -> Store {
    Store::new(Pool::new(Ipv4Address::from_octets(10, 128, 0, 0), 16).unwrap())
}

// insert a new connection and check if it is inserted correctly
#[test]
fn test_new_connection() {
    let mut store = store_for_test();
    let id = 1;
    let host = "baidu.com";
    let network = "tcp";
    let conn_type = "client";
    let proxy_server = "proxy.com";
    store
        .new_connection(id, host, network, conn_type, proxy_server)
        .unwrap();
    let connections = store.list_connections().unwrap();
    assert_eq!(connections.len(), 1);
    let connection = &connections[0];
    assert_eq!(connection.id, id);
}

// update a connection and check if it is updated correctly
#[test]
fn test_update_connection() {
    let mut store = store_for_test();
    let id = 1;
    let host = "baidu.com";
    let network = "tcp";
    let conn_type = "client";
    let proxy_server = "proxy.com";
    store
        .new_connection(id, host, network, conn_type, proxy_server)
        .unwrap();
    let recv_bytes = 100;
    let send_bytes = 200;
    store
        .update_connection(id, recv_bytes, send_bytes, None)
        .unwrap();
    let connections = store.list_connections().unwrap();
    assert_eq!(connections.len(), 1);
    let connection = &connections[0];
    assert_eq!(connection.id, id);
    assert_eq!(connection.recv_bytes, recv_bytes);
    assert_eq!(connection.send_bytes, send_bytes);
}

// shutdown a connection and check if it is shutdown correctly
#[test]
fn test_shutdown_connection() {
    let mut store = store_for_test();
    let id = 1;
    let host = "baidu.com";
    let network = "tcp";
    let conn_type = "client";
    let proxy_server = "proxy.com";
    store
        .new_connection(id, host, network, conn_type, proxy_server)
        .unwrap();
    store.shutdown_connection(id).unwrap();
    let connections = store.list_connections().unwrap();
    assert_eq!(connections.len(), 1);
    let connection = &connections[0];
    assert_eq!(connection.id, id);
    assert_eq!(connection.is_alive, false);
}

// clear dead connections and check if it is cleared correctly
#[test]
fn test_clear_dead_connections() {
    let mut store = store_for_test();
    let id = 1;
    let host = "baidu.com";
    let network = "tcp";
    let conn_type = "client";
    let proxy_server = "proxy.com";
    store
        .new_connection(id, host, network, conn_type, proxy_server)
        .unwrap();
    store
        .new_connection(id + 1, host, network, conn_type, proxy_server)
        .unwrap();
    store
        .new_connection(id + 2, host, network, conn_type, proxy_server)
        .unwrap();
    store
        .new_connection(id + 3, host, network, conn_type, proxy_server)
        .unwrap();
    store.shutdown_connection(id).unwrap();
    store.clear_dead_connections(0).unwrap();
    let connections = store.list_connections().unwrap();
    assert_eq!(connections.len(), 3);
}

#[test]
fn new_connection_at_fills_every_field() {
    let mut store = store_for_test();
    store
        .new_connection_at(7, "example.org", "udp", "client", "relay-1", 1_700_000_000)
        .unwrap();
    let connections = store.list_connections().unwrap();
    assert_eq!(
        connections,
        vec![Connection {
            id: 7,
            host: "example.org".to_string(),
            network: "udp".to_string(),
            conn_type: "client".to_string(),
            recv_bytes: 0,
            send_bytes: 0,
            proxy_server: "relay-1".to_string(),
            connect_time: 1_700_000_000,
            last_update: 1_700_000_000,
            is_alive: true,
        }]
    );
}

#[test]
fn new_connection_reads_the_clock() {
    let mut store = store_for_test();
    store.new_connection(1, "a", "tcp", "client", "p").unwrap();
    let connections = store.list_connections().unwrap();
    assert!(connections[0].connect_time > 1_500_000_000);
    assert_eq!(connections[0].connect_time, connections[0].last_update);
}

#[test]
fn new_connection_refuses_a_used_id() {
    let mut store = store_for_test();
    store.new_connection_at(1, "a.com", "tcp", "client", "p", 10).unwrap();
    let second = store.new_connection_at(1, "b.com", "udp", "client", "q", 20);
    assert_eq!(second, Err(StoreError::LedgerWriteFailed));
    let connections = store.list_connections().unwrap();
    assert_eq!(connections.len(), 1);
    assert_eq!(connections[0].host, "a.com");
    assert_eq!(connections[0].connect_time, 10);
}

#[test]
fn update_connection_at_touches_one_record() {
    let mut store = store_for_test();
    store.new_connection_at(1, "a.com", "tcp", "client", "p", 10).unwrap();
    store.new_connection_at(2, "b.com", "tcp", "client", "p", 11).unwrap();
    store.update_connection_at(2, 5, 6, 30).unwrap();
    let connections = store.list_connections().unwrap();
    assert_eq!(connections[0].recv_bytes, 0);
    assert_eq!(connections[0].send_bytes, 0);
    assert_eq!(connections[0].last_update, 10);
    assert_eq!(connections[1].recv_bytes, 5);
    assert_eq!(connections[1].send_bytes, 6);
    assert_eq!(connections[1].last_update, 30);
    assert_eq!(connections[1].connect_time, 11);
    assert!(connections[1].is_alive);
}

#[test]
fn update_connection_takes_the_given_time() {
    let mut store = store_for_test();
    store.new_connection_at(1, "a.com", "tcp", "client", "p", 10).unwrap();
    store.update_connection(1, 1, 2, Some(44)).unwrap();
    assert_eq!(store.list_connections().unwrap()[0].last_update, 44);
}

#[test]
fn update_of_an_unknown_id_changes_nothing() {
    let mut store = store_for_test();
    store.new_connection_at(1, "a.com", "tcp", "client", "p", 10).unwrap();
    let before = store.list_connections().unwrap();
    assert_eq!(store.update_connection_at(9, 5, 6, 30), Ok(()));
    assert_eq!(store.shutdown_connection_at(9, 30), Ok(()));
    assert_eq!(store.list_connections().unwrap(), before);
}

#[test]
fn shutdown_is_idempotent() {
    let mut store = store_for_test();
    store.new_connection_at(1, "a.com", "tcp", "client", "p", 10).unwrap();
    store.new_connection_at(2, "b.com", "tcp", "client", "p", 10).unwrap();
    store.shutdown_connection_at(1, 20).unwrap();
    let once = store.list_connections().unwrap();
    store.shutdown_connection_at(1, 20).unwrap();
    let twice = store.list_connections().unwrap();
    assert_eq!(once, twice);
    assert!(!twice[0].is_alive);
    assert_eq!(twice[0].last_update, 20);
    assert!(twice[1].is_alive);
    store.shutdown_connection_at(1, 25).unwrap();
    let later = store.list_connections().unwrap();
    assert!(!later[0].is_alive);
    assert_eq!(later[0].last_update, 25);
}

#[test]
fn sweep_respects_the_timeout() {
    let mut store = store_for_test();
    store.new_connection_at(1, "a.com", "tcp", "client", "p", 90).unwrap();
    store.new_connection_at(2, "b.com", "tcp", "client", "p", 90).unwrap();
    store.shutdown_connection_at(1, 100).unwrap();
    store.clear_dead_connections_at(10, 109).unwrap();
    assert_eq!(store.list_connections().unwrap().len(), 2);
    store.clear_dead_connections_at(10, 110).unwrap();
    let left = store.list_connections().unwrap();
    assert_eq!(left.len(), 1);
    assert_eq!(left[0].id, 2);
    store.clear_dead_connections_at(0, 1_000_000).unwrap();
    assert_eq!(store.list_connections().unwrap().len(), 1);
}

#[test]
fn sweep_with_a_timeout_beyond_the_clock_removes_nothing() {
    let mut store = store_for_test();
    store.new_connection_at(1, "a.com", "tcp", "client", "p", 1).unwrap();
    store.shutdown_connection_at(1, 2).unwrap();
    store.clear_dead_connections_at(u64::MAX, 50).unwrap();
    assert_eq!(store.list_connections().unwrap().len(), 1);
    store.clear_dead_connections_at(51, 50).unwrap();
    assert_eq!(store.list_connections().unwrap().len(), 1);
}

#[test]
fn sweep_leaves_the_flows_that_have_not_ended() {
    let mut store = store_for_test();
    for id in 1..=5u64 {
        store.new_connection_at(id, "a.com", "tcp", "client", "p", 10).unwrap();
    }
    store.shutdown_connection_at(2, 11).unwrap();
    store.shutdown_connection_at(5, 12).unwrap();
    store.clear_dead_connections_at(0, 12).unwrap();
    let left = store.list_connections().unwrap();
    let ids: Vec<u64> = left.iter().map(|c| c.id).collect();
    assert_eq!(ids, vec![1, 3, 4]);
}

#[test]
fn a_record_is_never_updated_before_it_was_opened() {
    let mut store = store_for_test();
    store.new_connection_at(1, "a.com", "tcp", "client", "p", 100).unwrap();
    store.update_connection(1, 3, 4, Some(50)).unwrap();
    let c = &store.list_connections().unwrap()[0];
    assert_eq!((c.recv_bytes, c.send_bytes, c.connect_time, c.last_update), (3, 4, 100, 100));
    store.update_connection_at(1, 5, 6, 101).unwrap();
    assert_eq!(store.list_connections().unwrap()[0].last_update, 101);
    store.update_connection_at(1, 7, 8, 100).unwrap();
    assert_eq!(store.list_connections().unwrap()[0].last_update, 100);
    store.shutdown_connection_at(1, 10).unwrap();
    let c = &store.list_connections().unwrap()[0];
    assert!(!c.is_alive);
    assert_eq!((c.connect_time, c.last_update), (100, 100));
    store.clear_dead_connections_at(0, 99).unwrap();
    assert_eq!(store.list_connections().unwrap().len(), 1);
    store.clear_dead_connections_at(0, 100).unwrap();
    assert_eq!(store.list_connections().unwrap().len(), 0);
}
