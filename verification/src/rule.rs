//! The rule engine: an ordered list of matchers, each with an action, and a
//! default action for what no rule matches.

use crate::addr::IpAddress;
use crate::text::{
    chars_of, contains, eq_ignoring_case, has_part, in_zone, is_in_zone, same_ignoring_case,
};
use vstd::prelude::*;

verus! {

/// What is done with a flow.
#[derive(Clone, Copy, Debug, PartialEq, Eq, Structural, Hash)]
pub enum Action {
    /// Dial the real destination.
    Direct,
    /// Relay through the upstream proxy.
    Proxy,
    /// Drop.
    Reject,
}

/// A block of addresses: those that share the first `prefix_len` bits of
/// `network`. A prefix longer than the address covers nothing.
#[derive(Clone, Copy, Debug, PartialEq, Eq, Structural, Hash)]
pub struct Cidr {
    pub network: IpAddress,
    pub prefix_len: u8,
}

impl Cidr {
    /// `ip` is of the block's family and lies in the block.
    pub open spec fn covers(self, ip: IpAddress) -> bool {
        match (self.network, ip) {
            (IpAddress::V4(n), IpAddress::V4(a)) => {
                self.prefix_len == 0 || (self.prefix_len <= 32 && (n.bits >> ((32
                    - self.prefix_len) as u32)) == (a.bits >> ((32 - self.prefix_len) as u32)))
            },
            (IpAddress::V6(n), IpAddress::V6(a)) => {
                self.prefix_len == 0 || (self.prefix_len <= 128 && (n.bits >> ((128
                    - self.prefix_len) as u128)) == (a.bits >> ((128 - self.prefix_len) as u128)))
            },
            _ => false,
        }
    }

    /// Whether `ip` is of the block's family and lies in the block.
    pub fn contains(&self, ip: IpAddress) -> (r: bool)
        ensures
            r == self.covers(ip),
    {
        match (self.network, ip) {
            (IpAddress::V4(n), IpAddress::V4(a)) => {
                if self.prefix_len == 0 {
                    true
                } else if self.prefix_len > 32 {
                    false
                } else {
                    let shift: u32 = 32 - (self.prefix_len as u32);
                    (n.bits >> shift) == (a.bits >> shift)
                }
            },
            (IpAddress::V6(n), IpAddress::V6(a)) => {
                if self.prefix_len == 0 {
                    true
                } else if self.prefix_len > 128 {
                    false
                } else {
                    let shift: u128 = 128 - (self.prefix_len as u128);
                    (n.bits >> shift) == (a.bits >> shift)
                }
            },
            _ => false,
        }
    }
}

/// What a rule tests.
#[derive(Clone, Debug, PartialEq, Eq)]
pub enum Matcher {
    /// The whole name, ASCII letters compared without case.
    Domain(String),
    /// The name itself or any name under it.
    DomainSuffix(String),
    /// A piece of text anywhere in the name.
    DomainKeyword(String),
    /// An address block.
    IpCidr(Cidr),
    /// The country that the GeoIP database gives for the address.
    GeoIp(String),
    /// Everything.
    MatchAll,
}

/// What a `Matcher` holds, with every text as a sequence of characters.
pub enum MatcherView {
    Domain(Seq<char>),
    DomainSuffix(Seq<char>),
    DomainKeyword(Seq<char>),
    IpCidr(Cidr),
    GeoIp(Seq<char>),
    MatchAll,
}

impl View for Matcher {
    type V = MatcherView;

    open spec fn view(&self) -> MatcherView {
        match *self {
            Matcher::Domain(d) => MatcherView::Domain(d@),
            Matcher::DomainSuffix(d) => MatcherView::DomainSuffix(d@),
            Matcher::DomainKeyword(k) => MatcherView::DomainKeyword(k@),
            Matcher::IpCidr(c) => MatcherView::IpCidr(c),
            Matcher::GeoIp(cc) => MatcherView::GeoIp(cc@),
            Matcher::MatchAll => MatcherView::MatchAll,
        }
    }
}

/// What is classified: a name, an address, both or neither, and with an
/// address the country that the GeoIP database gives for it, if any.
pub struct Subject {
    pub domain: Option<Seq<char>>,
    pub ip: Option<IpAddress>,
    pub country: Option<Seq<char>>,
}

impl MatcherView {
    /// The matcher's test. A matcher on names fails where no name is given,
    /// one on addresses where no address is given, and the country test
    /// also where no country is known for the address.
    pub open spec fn matches(self, s: Subject) -> bool {
        match self {
            MatcherView::Domain(d) => s.domain is Some && same_ignoring_case(s.domain->0, d),
            MatcherView::DomainSuffix(d) => s.domain is Some && in_zone(s.domain->0, d),
            MatcherView::DomainKeyword(k) => s.domain is Some && contains(s.domain->0, k),
            MatcherView::IpCidr(c) => s.ip is Some && c.covers(s.ip->0),
            MatcherView::GeoIp(cc) => s.ip is Some && s.country is Some && same_ignoring_case(
                s.country->0,
                cc,
            ),
            MatcherView::MatchAll => true,
        }
    }
}

/// A matcher with the action for what it matches.
#[derive(Clone, Debug, PartialEq, Eq)]
pub struct Rule {
    pub matcher: Matcher,
    pub action: Action,
}

/// What a `Rule` holds.
pub struct RuleView {
    pub matcher: MatcherView,
    pub action: Action,
}

impl View for Rule {
    type V = RuleView;

    open spec fn view(&self) -> RuleView {
        RuleView { matcher: self.matcher@, action: self.action }
    }
}

/// The action of the first rule of `rules` that matches `s`, if one does.
pub open spec fn first_match(rules: Seq<RuleView>, s: Subject) -> Option<Action>
    decreases rules.len(),
{
    if rules.len() == 0 {
        None
    } else if rules[0].matcher.matches(s) {
        Some(rules[0].action)
    } else {
        first_match(rules.drop_first(), s)
    }
}

/// The subject that three optional arguments describe.
pub open spec fn subject_of(
    domain: Option<&str>,
    ip: Option<IpAddress>,
    country: Option<&str>,
) -> Subject {
    Subject {
        domain: match domain {
            Some(d) => Some(d@),
            None => None,
        },
        ip,
        country: match country {
            Some(c) => Some(c@),
            None => None,
        },
    }
}

/// A subject given by its name alone.
pub open spec fn named(domain: Seq<char>) -> Subject {
    Subject { domain: Some(domain), ip: None, country: None }
}

/// The rule set: rules in declaration order and the default action. It does
/// not change once made.
#[derive(Clone, Debug, PartialEq, Eq)]
pub struct ProxyRules {
    rules: Vec<Rule>,
    default_action: Action,
}

/// What a `ProxyRules` holds.
pub struct ProxyRulesView {
    pub rules: Seq<RuleView>,
    pub default_action: Action,
}

impl View for ProxyRules {
    type V = ProxyRulesView;

    closed spec fn view(&self) -> ProxyRulesView {
        ProxyRulesView {
            rules: self.rules@.map_values(|r: Rule| r@),
            default_action: self.default_action,
        }
    }
}

impl ProxyRulesView {
    /// The action for `s`: that of the first matching rule, else the default.
    pub open spec fn decide(self, s: Subject) -> Action {
        match first_match(self.rules, s) {
            Some(a) => a,
            None => self.default_action,
        }
    }
}

impl Matcher {
    /// Whether this matcher matches the subject that the arguments describe.
    pub fn is_match(
        &self,
        domain: Option<&str>,
        ip: Option<IpAddress>,
        country: Option<&str>,
    ) -> (r: bool)
        ensures
            r == self@.matches(subject_of(domain, ip, country)),
    {
        match self {
            Matcher::Domain(d) => match domain {
                Some(name) => eq_ignoring_case(&chars_of(name), &chars_of(d.as_str())),
                None => false,
            },
            Matcher::DomainSuffix(d) => match domain {
                Some(name) => is_in_zone(&chars_of(name), &chars_of(d.as_str())),
                None => false,
            },
            Matcher::DomainKeyword(k) => match domain {
                Some(name) => has_part(&chars_of(name), &chars_of(k.as_str())),
                None => false,
            },
            Matcher::IpCidr(c) => match ip {
                Some(a) => c.contains(a),
                None => false,
            },
            Matcher::GeoIp(cc) => match (ip, country) {
                (Some(_), Some(found)) => eq_ignoring_case(
                    &chars_of(found),
                    &chars_of(cc.as_str()),
                ),
                _ => false,
            },
            Matcher::MatchAll => true,
        }
    }
}

impl ProxyRules {
    /// The rule set with these rules, in this order, and this default.
    pub fn new(rules: Vec<Rule>, default_action: Action) -> (r: ProxyRules)
        ensures
            r@.rules == rules@.map_values(|x: Rule| x@),
            r@.default_action == default_action,
    {
        ProxyRules { rules, default_action }
    }

    /// The action for what no rule matches.
    pub fn default_action(&self) -> (a: Action)
        ensures
            a == self@.default_action,
    {
        self.default_action
    }

    /// The action of the first rule, in declaration order, that matches the
    /// subject; none where no rule matches. `country` is what the GeoIP
    /// database gives for `ip`.
    pub fn action_for(
        &self,
        domain: Option<&str>,
        ip: Option<IpAddress>,
        country: Option<&str>,
    ) -> (r: Option<Action>)
        ensures
            r == first_match(self@.rules, subject_of(domain, ip, country)),
    {
        let ghost s = subject_of(domain, ip, country);
        let ghost all = self@.rules;
        let n: usize = self.rules.len();
        let mut i: usize = 0;
        assert(all.skip(0) =~= all);
        while i < n
            invariant
                i <= n,
                n == self.rules.len(),
                all == self@.rules,
                s == subject_of(domain, ip, country),
                first_match(all, s) == first_match(all.skip(i as int), s),
            decreases n - i,
        {
            assert(all.skip(i as int)[0] == self.rules[i as int]@);
            assert(all.skip(i as int).drop_first() =~= all.skip(i + 1));
            if self.rules[i].matcher.is_match(domain, ip, country) {
                return Some(self.rules[i].action);
            }
            i = i + 1;
        }
        None
    }

    /// The action for the subject: that of the first matching rule, else the
    /// default action.
    pub fn decide(&self, domain: Option<&str>, ip: Option<IpAddress>, country: Option<&str>) -> (a:
        Action)
        ensures
            a == self@.decide(subject_of(domain, ip, country)),
    {
        match self.action_for(domain, ip, country) {
            Some(a) => a,
            None => self.default_action,
        }
    }
}

} // verus!
