use seeker::addr::{Ipv4Address, Ipv6Address};
use seeker::dns::{
    answers_from_upstream, convert_record, DnsPacket, DnsRecord, QueryType, TransientTtl,
    UpstreamData, UpstreamRecord,
};

fn ip(a: u8, b: u8, c: u8, d: u8) -> Ipv4Address {
    Ipv4Address::from_octets(a, b, c, d)
}

#[test]
fn query_type_numbers() {
    assert_eq!(QueryType::A.to_num(), 1);
    assert_eq!(QueryType::NS.to_num(), 2);
    assert_eq!(QueryType::CNAME.to_num(), 5);
    assert_eq!(QueryType::SOA.to_num(), 6);
    assert_eq!(QueryType::MX.to_num(), 15);
    assert_eq!(QueryType::TXT.to_num(), 16);
    assert_eq!(QueryType::AAAA.to_num(), 28);
    assert_eq!(QueryType::SRV.to_num(), 33);
    assert_eq!(QueryType::Unknown(99).to_num(), 99);
    for n in [0u16, 1, 2, 3, 5, 6, 15, 16, 28, 33, 255, 65535] {
        assert_eq!(QueryType::from_num(n).to_num(), n);
    }
    assert_eq!(QueryType::from_num(28), QueryType::AAAA);
    assert_eq!(QueryType::from_num(3), QueryType::Unknown(3));
}

#[test]
fn every_supported_record_is_converted() {
    let records = vec![
        UpstreamRecord { ttl: 60, data: Some(UpstreamData::A(ip(1, 2, 3, 4))) },
        UpstreamRecord { ttl: 61, data: Some(UpstreamData::AAAA(Ipv6Address { bits: 1 })) },
        UpstreamRecord { ttl: 62, data: Some(UpstreamData::CNAME("c.example.".to_string())) },
        UpstreamRecord {
            ttl: 63,
            data: Some(UpstreamData::MX { preference: 10, exchange: "mx.example.".to_string() }),
        },
        UpstreamRecord { ttl: 64, data: Some(UpstreamData::NS("ns.example.".to_string())) },
        UpstreamRecord {
            ttl: 65,
            data: Some(UpstreamData::SOA {
                mname: "m.example.".to_string(),
                rname: "r.example.".to_string(),
                serial: 2024,
                refresh: 7200,
                retry: -1,
                expire: i32::MIN,
                minimum: 300,
            }),
        },
        UpstreamRecord { ttl: 66, data: Some(UpstreamData::TXT("v=spf1".to_string())) },
        UpstreamRecord {
            ttl: 67,
            data: Some(UpstreamData::SRV {
                priority: 1,
                weight: 2,
                port: 443,
                target: "srv.example.".to_string(),
            }),
        },
    ];
    let d = "q.example".to_string();
    let packet = answers_from_upstream("q.example", &records);
    assert_eq!(
        packet.answers,
        vec![
            DnsRecord::A { domain: d.clone(), addr: ip(1, 2, 3, 4), ttl: TransientTtl(60) },
            DnsRecord::AAAA {
                domain: d.clone(),
                addr: Ipv6Address { bits: 1 },
                ttl: TransientTtl(61)
            },
            DnsRecord::CNAME {
                domain: d.clone(),
                host: "c.example.".to_string(),
                ttl: TransientTtl(62)
            },
            DnsRecord::MX {
                domain: d.clone(),
                priority: 10,
                host: "mx.example.".to_string(),
                ttl: TransientTtl(63)
            },
            DnsRecord::NS {
                domain: d.clone(),
                host: "ns.example.".to_string(),
                ttl: TransientTtl(64)
            },
            DnsRecord::SOA {
                domain: d.clone(),
                m_name: "m.example.".to_string(),
                r_name: "r.example.".to_string(),
                serial: 2024,
                refresh: 7200,
                retry: u32::MAX,
                expire: 0x8000_0000,
                minimum: 300,
                ttl: TransientTtl(65)
            },
            DnsRecord::TXT { domain: d.clone(), data: "v=spf1".to_string(), ttl: TransientTtl(66) },
            DnsRecord::SRV {
                domain: d.clone(),
                priority: 1,
                weight: 2,
                port: 443,
                host: "srv.example.".to_string(),
                ttl: TransientTtl(67)
            },
        ]
    );
}

#[test]
fn records_without_data_or_of_other_types_are_dropped() {
    let records = vec![
        UpstreamRecord { ttl: 1, data: None },
        UpstreamRecord { ttl: 2, data: Some(UpstreamData::A(ip(9, 9, 9, 9))) },
        UpstreamRecord { ttl: 3, data: Some(UpstreamData::Unsupported) },
        UpstreamRecord { ttl: 4, data: Some(UpstreamData::A(ip(8, 8, 8, 8))) },
    ];
    let packet = answers_from_upstream("x.org", &records);
    assert_eq!(
        packet.answers,
        vec![
            DnsRecord::A { domain: "x.org".to_string(), addr: ip(9, 9, 9, 9), ttl: TransientTtl(2) },
            DnsRecord::A { domain: "x.org".to_string(), addr: ip(8, 8, 8, 8), ttl: TransientTtl(4) },
        ]
    );
    assert_eq!(convert_record("x.org", &records[0]), None);
    assert_eq!(convert_record("x.org", &records[2]), None);
    assert_eq!(answers_from_upstream("x.org", &vec![]).answers, vec![]);
}

#[test]
fn a_records_are_picked_in_turn() {
    let packet = DnsPacket {
        answers: vec![
            DnsRecord::CNAME {
                domain: "x".to_string(),
                host: "y".to_string(),
                ttl: TransientTtl(1),
            },
            DnsRecord::A { domain: "x".to_string(), addr: ip(1, 1, 1, 1), ttl: TransientTtl(1) },
            DnsRecord::AAAA {
                domain: "x".to_string(),
                addr: Ipv6Address { bits: 5 },
                ttl: TransientTtl(1),
            },
            DnsRecord::A { domain: "x".to_string(), addr: ip(2, 2, 2, 2), ttl: TransientTtl(1) },
        ],
    };
    assert_eq!(packet.a_records(), vec![ip(1, 1, 1, 1), ip(2, 2, 2, 2)]);
    assert_eq!(packet.pick_a(0), Some(ip(1, 1, 1, 1)));
    assert_eq!(packet.pick_a(1), Some(ip(2, 2, 2, 2)));
    assert_eq!(packet.pick_a(2), Some(ip(1, 1, 1, 1)));
    assert_eq!(packet.pick_a(usize::MAX), Some(ip(2, 2, 2, 2)));
    assert_eq!(DnsPacket::new().pick_a(0), None);
    assert_eq!(DnsPacket::new().a_records(), vec![]);
}
