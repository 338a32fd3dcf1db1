use seeker::addr::Ipv4Address;
use seeker::connections::Connection;
use seeker::pool::Pool;
use seeker::store::{Binding, Store, StoreError};

fn ip(a: u8, b: u8, c: u8, d: u8) -> Ipv4Address {
    Ipv4Address::from_octets(a, b, c, d)
}

fn small_store() -> Store {
    Store::new(Pool::new(ip(10, 0, 0, 0), 30).unwrap())
}

#[test]
fn octets_round_trip() {
    let a = ip(192, 168, 1, 10);
    assert_eq!(a.bits, 0xC0A8_010A);
    assert_eq!(a.octets(), [192, 168, 1, 10]);
    assert_eq!(ip(255, 255, 255, 255).bits, u32::MAX);
    assert_eq!(ip(0, 0, 0, 0).octets(), [0, 0, 0, 0]);
}

#[test]
fn pool_of_a_block() {
    let pool = Pool::new(ip(10, 128, 0, 0), 16).unwrap();
    assert_eq!(pool.size(), 65536);
    assert!(pool.contains(ip(10, 128, 0, 0)));
    assert!(pool.contains(ip(10, 128, 255, 255)));
    assert!(!pool.contains(ip(10, 129, 0, 0)));
    assert!(!pool.contains(ip(10, 127, 255, 255)));
    assert_eq!(pool.nth(257), ip(10, 128, 1, 1));
    assert_eq!(pool.position(ip(10, 128, 1, 1)), Some(257));
    assert_eq!(pool.position(ip(10, 1, 0, 1)), None);
}

#[test]
fn pool_edges() {
    assert_eq!(Pool::new(ip(0, 0, 0, 0), 0).unwrap().size(), 1 << 32);
    assert_eq!(Pool::new(ip(1, 2, 3, 4), 32).unwrap().size(), 1);
    assert!(Pool::new(ip(1, 2, 3, 4), 32).unwrap().contains(ip(1, 2, 3, 4)));
    assert!(Pool::new(ip(255, 255, 255, 252), 30).unwrap().contains(ip(255, 255, 255, 255)));
}

#[test]
fn pool_refuses_what_is_no_block() {
    assert_eq!(Pool::new(ip(10, 128, 0, 0), 33), None);
    assert_eq!(Pool::new(ip(10, 128, 0, 1), 16), None);
    assert_eq!(Pool::new(ip(10, 128, 0, 0), 8), None);
    assert_eq!(Pool::new(ip(1, 0, 0, 0), 0), None);
}

#[test]
fn a_domain_gets_one_address_and_the_address_leads_back() {
    let mut store = Store::new(Pool::new(ip(10, 128, 0, 0), 16).unwrap());
    let first = store.get_ipv4_by_host("baidu.com").unwrap();
    assert!(store.pool().contains(first));
    assert_eq!(store.get_host_by_ipv4(first), Some("baidu.com".to_string()));
    let second = store.get_ipv4_by_host("baidu.com").unwrap();
    assert_eq!(first, second);
    assert_eq!(store.lookup_ipv4("baidu.com"), Some(first));
    assert_eq!(store.lookup_ipv4("other.com"), None);
}

#[test]
fn addresses_are_drawn_in_order() {
    let mut store = Store::new(Pool::new(ip(10, 128, 0, 0), 16).unwrap());
    assert_eq!(store.get_ipv4_by_host_at("a.com", 1), Ok(ip(10, 128, 0, 0)));
    assert_eq!(store.get_ipv4_by_host_at("b.com", 1), Ok(ip(10, 128, 0, 1)));
    assert_eq!(store.get_ipv4_by_host_at("a.com", 2), Ok(ip(10, 128, 0, 0)));
    assert_eq!(store.get_ipv4_by_host_at("c.com", 2), Ok(ip(10, 128, 0, 2)));
    assert_eq!(store.get_host_by_ipv4(ip(10, 128, 0, 1)), Some("b.com".to_string()));
}

#[test]
fn an_unbound_address_has_no_host() {
    let mut store = Store::new(Pool::new(ip(10, 128, 0, 0), 16).unwrap());
    store.get_ipv4_by_host_at("a.com", 1).unwrap();
    assert_eq!(store.get_host_by_ipv4(ip(10, 1, 0, 1)), None);
    assert_eq!(store.get_host_by_ipv4(ip(10, 128, 0, 1)), None);
    assert_eq!(store.get_host_by_ipv4(ip(10, 127, 255, 255)), None);
}

#[test]
fn a_full_pool_gives_up_its_oldest_binding() {
    let mut store = small_store();
    assert_eq!(store.get_ipv4_by_host_at("a.com", 5), Ok(ip(10, 0, 0, 0)));
    assert_eq!(store.get_ipv4_by_host_at("b.com", 3), Ok(ip(10, 0, 0, 1)));
    assert_eq!(store.get_ipv4_by_host_at("c.com", 4), Ok(ip(10, 0, 0, 2)));
    assert_eq!(store.get_ipv4_by_host_at("d.com", 6), Ok(ip(10, 0, 0, 3)));
    assert_eq!(store.get_ipv4_by_host_at("e.com", 7), Ok(ip(10, 0, 0, 1)));
    assert_eq!(store.get_host_by_ipv4(ip(10, 0, 0, 1)), Some("e.com".to_string()));
    assert_eq!(store.lookup_ipv4("b.com"), None);
    assert_eq!(store.lookup_ipv4("a.com"), Some(ip(10, 0, 0, 0)));
    assert_eq!(store.get_ipv4_by_host_at("f.com", 8), Ok(ip(10, 0, 0, 2)));
    assert_eq!(store.get_ipv4_by_host_at("b.com", 9), Ok(ip(10, 0, 0, 0)));
}

#[test]
fn of_bindings_of_one_age_the_first_is_given_up() {
    let mut store = small_store();
    for name in ["a.com", "b.com", "c.com", "d.com"] {
        store.get_ipv4_by_host_at(name, 5).unwrap();
    }
    assert_eq!(store.get_ipv4_by_host_at("e.com", 5), Ok(ip(10, 0, 0, 0)));
    assert_eq!(store.get_ipv4_by_host_at("f.com", 5), Ok(ip(10, 0, 0, 0)));
    assert_eq!(store.get_ipv4_by_host_at("g.com", 6), Ok(ip(10, 0, 0, 0)));
    assert_eq!(store.get_ipv4_by_host_at("h.com", 6), Ok(ip(10, 0, 0, 1)));
}

#[test]
fn a_binding_in_use_is_not_given_up() {
    let mut store = small_store();
    for (i, name) in ["a.com", "b.com", "c.com", "d.com"].iter().enumerate() {
        store.get_ipv4_by_host_at(name, i as u64).unwrap();
    }
    store.new_connection_at(1, "a.com", "tcp", "client", "p", 10).unwrap();
    store.new_connection_at(2, "b.com", "tcp", "client", "p", 10).unwrap();
    store.shutdown_connection_at(2, 11).unwrap();
    assert_eq!(store.get_ipv4_by_host_at("e.com", 12), Ok(ip(10, 0, 0, 1)));
    assert_eq!(store.lookup_ipv4("a.com"), Some(ip(10, 0, 0, 0)));
}

#[test]
fn a_pool_in_use_throughout_is_exhausted() {
    let mut store = small_store();
    for (i, name) in ["a.com", "b.com", "c.com", "d.com"].iter().enumerate() {
        store.get_ipv4_by_host_at(name, 1).unwrap();
        store.new_connection_at(i as u64, name, "tcp", "client", "p", 2).unwrap();
    }
    assert_eq!(store.get_ipv4_by_host_at("e.com", 3), Err(StoreError::PoolExhausted));
    assert_eq!(store.get_ipv4_by_host("e.com"), Err(StoreError::PoolExhausted));
    assert_eq!(store.lookup_ipv4("e.com"), None);
    assert_eq!(store.get_ipv4_by_host_at("c.com", 3), Ok(ip(10, 0, 0, 2)));
    store.shutdown_connection_at(3, 4).unwrap();
    assert_eq!(store.get_ipv4_by_host_at("e.com", 5), Ok(ip(10, 0, 0, 3)));
    assert_eq!(store.get_host_by_ipv4(ip(10, 0, 0, 3)), Some("e.com".to_string()));
}

#[test]
fn a_store_written_out_comes_back() {
    let mut store = small_store();
    store.get_ipv4_by_host_at("a.com", 5).unwrap();
    store.get_ipv4_by_host_at("b.com", 6).unwrap();
    store.new_connection_at(3, "a.com", "tcp", "client", "p", 7).unwrap();
    store.shutdown_connection_at(3, 8).unwrap();
    let bindings = store.list_bindings();
    assert_eq!(
        bindings,
        vec![
            Binding { domain: "a.com".to_string(), ip: ip(10, 0, 0, 0), created_at: 5 },
            Binding { domain: "b.com".to_string(), ip: ip(10, 0, 0, 1), created_at: 6 },
        ]
    );
    let connections = store.list_connections().unwrap();
    let mut back = Store::restore(store.pool(), bindings, connections).unwrap();
    assert_eq!(back.list_bindings(), store.list_bindings());
    assert_eq!(back.list_connections(), store.list_connections());
    assert_eq!(back.get_host_by_ipv4(ip(10, 0, 0, 1)), Some("b.com".to_string()));
    assert_eq!(back.get_ipv4_by_host_at("c.com", 9), Ok(ip(10, 0, 0, 2)));
}

#[test]
fn what_no_store_wrote_does_not_come_back() {
    let pool = Pool::new(ip(10, 0, 0, 0), 31).unwrap();
    let b = |domain: &str, last: u8| Binding {
        domain: domain.to_string(),
        ip: ip(10, 0, 0, last),
        created_at: 1,
    };
    let c = |id: u64| Connection { id, ..Connection::default() };
    assert!(Store::restore(pool, vec![], vec![]).is_some());
    assert!(Store::restore(pool, vec![b("a", 0), b("b", 1)], vec![c(1), c(2)]).is_some());
    assert!(Store::restore(pool, vec![b("a", 1)], vec![]).is_none());
    assert!(Store::restore(pool, vec![b("a", 0), b("b", 0)], vec![]).is_none());
    assert!(Store::restore(pool, vec![b("a", 0), b("a", 1)], vec![]).is_none());
    assert!(Store::restore(pool, vec![b("a", 0), b("b", 1), b("c", 2)], vec![]).is_none());
    assert!(Store::restore(pool, vec![], vec![c(1), c(2), c(1)]).is_none());
    let early = Connection { id: 1, connect_time: 5, last_update: 4, ..Connection::default() };
    assert!(Store::restore(pool, vec![], vec![early]).is_none());
    let timely = Connection { id: 1, connect_time: 5, last_update: 5, ..Connection::default() };
    assert!(Store::restore(pool, vec![], vec![timely]).is_some());
}
