use seeker::addr::{IpAddress, Ipv4Address, Ipv6Address};
use seeker::rule::{Action, Cidr, Matcher, ProxyRules, Rule};

fn v4(a: u8, b: u8, c: u8, d: u8) -> IpAddress {
    IpAddress::V4(Ipv4Address::from_octets(a, b, c, d))
}

fn one(matcher: Matcher) -> ProxyRules {
    ProxyRules::new(vec![Rule { matcher, action: Action::Reject }], Action::Proxy)
}

#[test]
fn no_rule_no_action() {
    let rules = ProxyRules::new(vec![], Action::Direct);
    assert_eq!(rules.action_for(Some("baidu.com"), None, None), None);
    assert_eq!(rules.decide(Some("baidu.com"), None, None), Action::Direct);
    assert_eq!(rules.default_action(), Action::Direct);
}

#[test]
fn exact_domain_ignores_case() {
    let rules = one(Matcher::Domain("Example.COM".to_string()));
    assert_eq!(rules.action_for(Some("example.com"), None, None), Some(Action::Reject));
    assert_eq!(rules.action_for(Some("EXAMPLE.com"), None, None), Some(Action::Reject));
    assert_eq!(rules.action_for(Some("www.example.com"), None, None), None);
    assert_eq!(rules.action_for(Some("example.co"), None, None), None);
    assert_eq!(rules.action_for(Some("example.con"), None, None), None);
    assert_eq!(rules.action_for(None, Some(v4(1, 2, 3, 4)), None), None);
}

#[test]
fn suffix_matches_the_zone_and_what_is_under_it() {
    let rules = one(Matcher::DomainSuffix("ads.example".to_string()));
    assert_eq!(rules.action_for(Some("ads.example"), None, None), Some(Action::Reject));
    assert_eq!(rules.action_for(Some("banner.ads.example"), None, None), Some(Action::Reject));
    assert_eq!(rules.action_for(Some("a.b.ads.example"), None, None), Some(Action::Reject));
    assert_eq!(rules.action_for(Some("badads.example"), None, None), None);
    assert_eq!(rules.action_for(Some("ads.example.org"), None, None), None);
    assert_eq!(rules.action_for(Some(".ads.example"), None, None), Some(Action::Reject));
    assert_eq!(rules.action_for(Some("example"), None, None), None);
    assert_eq!(rules.action_for(None, None, None), None);
}

#[test]
fn keyword_matches_anywhere() {
    let rules = one(Matcher::DomainKeyword("track".to_string()));
    assert_eq!(rules.action_for(Some("track.example"), None, None), Some(Action::Reject));
    assert_eq!(rules.action_for(Some("my.tracker.example"), None, None), Some(Action::Reject));
    assert_eq!(rules.action_for(Some("example.track"), None, None), Some(Action::Reject));
    assert_eq!(rules.action_for(Some("trac.k"), None, None), None);
    assert_eq!(rules.action_for(Some("tra"), None, None), None);
    let any = one(Matcher::DomainKeyword(String::new()));
    assert_eq!(any.action_for(Some(""), None, None), Some(Action::Reject));
    assert_eq!(any.action_for(Some("x"), None, None), Some(Action::Reject));
    assert_eq!(any.action_for(None, None, None), None);
}

#[test]
fn cidr_needs_an_address_of_its_family() {
    let block = Cidr { network: v4(192, 168, 0, 0), prefix_len: 16 };
    let rules = one(Matcher::IpCidr(block));
    assert_eq!(rules.action_for(None, Some(v4(192, 168, 200, 1)), None), Some(Action::Reject));
    assert_eq!(rules.action_for(None, Some(v4(192, 169, 0, 1)), None), None);
    assert_eq!(rules.action_for(Some("192.168.0.1"), None, None), None);
    assert_eq!(
        rules.action_for(None, Some(IpAddress::V6(Ipv6Address { bits: 0xC0A8_0001 })), None),
        None
    );
}

#[test]
fn cidr_prefix_lengths() {
    let all = Cidr { network: v4(7, 7, 7, 7), prefix_len: 0 };
    assert!(all.contains(v4(1, 2, 3, 4)));
    assert!(!all.contains(IpAddress::V6(Ipv6Address { bits: 1 })));
    let host = Cidr { network: v4(10, 0, 0, 1), prefix_len: 32 };
    assert!(host.contains(v4(10, 0, 0, 1)));
    assert!(!host.contains(v4(10, 0, 0, 0)));
    let bad = Cidr { network: v4(10, 0, 0, 1), prefix_len: 33 };
    assert!(!bad.contains(v4(10, 0, 0, 1)));
    let six = Cidr {
        network: IpAddress::V6(Ipv6Address { bits: 0xfe80 << 112 }),
        prefix_len: 10,
    };
    assert!(six.contains(IpAddress::V6(Ipv6Address { bits: (0xfe80 << 112) | 0x1234 })));
    assert!(six.contains(IpAddress::V6(Ipv6Address { bits: 0xfebf << 112 })));
    assert!(!six.contains(IpAddress::V6(Ipv6Address { bits: 0xfec0 << 112 })));
    let one_six = Cidr { network: IpAddress::V6(Ipv6Address { bits: 1 }), prefix_len: 128 };
    assert!(one_six.contains(IpAddress::V6(Ipv6Address { bits: 1 })));
    assert!(!one_six.contains(IpAddress::V6(Ipv6Address { bits: 2 })));
}

#[test]
fn country_needs_an_address_and_its_country() {
    let rules = one(Matcher::GeoIp("CN".to_string()));
    assert_eq!(rules.action_for(None, Some(v4(1, 2, 3, 4)), Some("cn")), Some(Action::Reject));
    assert_eq!(rules.action_for(None, Some(v4(1, 2, 3, 4)), Some("US")), None);
    assert_eq!(rules.action_for(None, Some(v4(1, 2, 3, 4)), None), None);
    assert_eq!(rules.action_for(Some("x.cn"), None, Some("CN")), None);
}

#[test]
fn the_first_matching_rule_wins() {
    let rules = ProxyRules::new(
        vec![
            Rule { matcher: Matcher::Domain("a.example".to_string()), action: Action::Direct },
            Rule { matcher: Matcher::DomainSuffix("example".to_string()), action: Action::Reject },
            Rule { matcher: Matcher::MatchAll, action: Action::Proxy },
        ],
        Action::Direct,
    );
    assert_eq!(rules.action_for(Some("a.example"), None, None), Some(Action::Direct));
    assert_eq!(rules.action_for(Some("b.example"), None, None), Some(Action::Reject));
    assert_eq!(rules.action_for(Some("other.org"), None, None), Some(Action::Proxy));
    assert_eq!(rules.action_for(None, None, None), Some(Action::Proxy));
    assert_eq!(rules.decide(Some("other.org"), None, None), Action::Proxy);
}

#[test]
fn names_are_compared_by_characters() {
    let rules = one(Matcher::DomainSuffix("bücher.example".to_string()));
    assert_eq!(rules.action_for(Some("shop.bücher.example"), None, None), Some(Action::Reject));
    assert_eq!(rules.action_for(Some("shop.bucher.example"), None, None), None);
}
