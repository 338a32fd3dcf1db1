//! The rule-based DNS resolver: which queries it answers from the hosts
//! table, which it refuses, which it forwards, and which it answers with a
//! synthetic address bound in the store.

use crate::addr::{IpAddress, Ipv4Address};
use crate::clock::now;
use crate::dns::{
    answers_from_upstream, answers_of, upstream_views, DnsPacket, DnsRecord, DnsRecordView,
    QueryType, TransientTtl, UpstreamRecord, SYNTHETIC_TTL,
};
use crate::hosts::{host_ip, HostEntryView, Hosts};
use crate::rule::{first_match, named, Action, ProxyRules, ProxyRulesView};
use crate::store::{lemma_bind, Store, StoreView};
use vstd::prelude::*;

verus! {

/// Why a query was not resolved.
#[derive(Debug, PartialEq, Eq)]
pub enum ResolveError {
    /// The upstream client could not complete the query; its message.
    UpstreamDnsFailure(String),
}

/// What the resolver does with a query.
#[derive(Debug, PartialEq, Eq)]
pub enum Resolution {
    /// It answers with this response.
    Answer(DnsPacket),
    /// The query goes to the upstream server as it is.
    Forward,
}

/// What a `Resolution` holds.
pub enum ResolutionView {
    Answer(Seq<DnsRecordView>),
    Forward,
}

impl View for Resolution {
    type V = ResolutionView;

    open spec fn view(&self) -> ResolutionView {
        match *self {
            Resolution::Answer(p) => ResolutionView::Answer(p@),
            Resolution::Forward => ResolutionView::Forward,
        }
    }
}

/// The resolver: hosts table, rules, and whether names classified `Direct`
/// get their real addresses.
pub struct RuleBasedDnsResolver {
    hosts: Hosts,
    rules: ProxyRules,
    bypass_direct: bool,
}

/// What a `RuleBasedDnsResolver` holds.
pub struct ResolverView {
    pub hosts: Seq<HostEntryView>,
    pub rules: ProxyRulesView,
    pub bypass_direct: bool,
}

impl View for RuleBasedDnsResolver {
    type V = ResolverView;

    closed spec fn view(&self) -> ResolverView {
        ResolverView { hosts: self.hosts@, rules: self.rules@, bypass_direct: self.bypass_direct }
    }
}

/// The synthesized record that gives `ip` for `domain`: an A record for an
/// IPv4 address, an AAAA record for an IPv6 address.
pub open spec fn address_record(domain: Seq<char>, ip: IpAddress) -> DnsRecordView {
    match ip {
        IpAddress::V4(a) => DnsRecordView::A { domain, addr: a, ttl: SYNTHETIC_TTL },
        IpAddress::V6(a) => DnsRecordView::AAAA { domain, addr: a, ttl: SYNTHETIC_TTL },
    }
}

impl ResolverView {
    /// What the resolver does with the query for `domain` of type `qtype`
    /// at time `t`, and the store after it.
    ///
    /// A query for anything but an address is forwarded. A name of the
    /// hosts table is answered with its one address from there. Otherwise
    /// the first matching rule decides: `Reject` gives a response without
    /// answers; `Direct` is forwarded where the resolver bypasses direct
    /// names; anything else, no match included, gives the synthetic address
    /// that the store binds to the name, or a response without answers where
    /// the pool is exhausted. Only this last step can change the store.
    pub open spec fn resolve(self, store: StoreView, domain: Seq<char>, qtype: QueryType, t: u64) -> (
        ResolutionView,
        StoreView,
    ) {
        if !qtype.is_address() {
            (ResolutionView::Forward, store)
        } else if host_ip(self.hosts, domain) is Some {
            (
                ResolutionView::Answer(seq![address_record(domain, host_ip(self.hosts, domain)->0)]),
                store,
            )
        } else {
            let action = first_match(self.rules.rules, named(domain));
            if action == Some(Action::Reject) {
                (ResolutionView::Answer(Seq::empty()), store)
            } else if action == Some(Action::Direct) && self.bypass_direct {
                (ResolutionView::Forward, store)
            } else {
                let (bound, next) = store.bind(domain, t);
                match bound {
                    Ok(ip) => (
                        ResolutionView::Answer(seq![address_record(domain, IpAddress::V4(ip))]),
                        next,
                    ),
                    Err(_) => (ResolutionView::Answer(Seq::empty()), next),
                }
            }
        }
    }
}

/// The synthesized record that gives `ip` for `domain`.
pub fn synthesize(domain: &str, ip: IpAddress) -> (r: DnsRecord)
    ensures
        r@ == address_record(domain@, ip),
{
    match ip {
        IpAddress::V4(a) => DnsRecord::A {
            domain: domain.to_owned(),
            addr: a,
            ttl: TransientTtl(SYNTHETIC_TTL),
        },
        IpAddress::V6(a) => DnsRecord::AAAA {
            domain: domain.to_owned(),
            addr: a,
            ttl: TransientTtl(SYNTHETIC_TTL),
        },
    }
}

impl RuleBasedDnsResolver {
    /// The resolver over this hosts table and these rules.
    pub fn new(bypass_direct: bool, rules: ProxyRules, hosts: Hosts) -> (r: RuleBasedDnsResolver)
        ensures
            r@ == (ResolverView { hosts: hosts@, rules: rules@, bypass_direct }),
    {
        RuleBasedDnsResolver { hosts, rules, bypass_direct }
    }

    /// The domain for which `addr` stands in the store, if it stands for one.
    pub fn lookup_host(&self, store: &Store, addr: Ipv4Address) -> (r: Option<String>)
        requires
            store.wf(),
        ensures
            match r {
                Some(d) => store@.host_of(addr) == Some(d@),
                None => store@.host_of(addr) is None,
            },
    {
        store.get_host_by_ipv4(addr)
    }

    /// Decides the query for `domain` of type `qtype` at time `t`, as
    /// `ResolverView::resolve` says, binding a synthetic address in `store`
    /// where that is the answer.
    pub fn resolve_at(&self, store: &mut Store, domain: &str, qtype: QueryType, t: u64) -> (r:
        Resolution)
        requires
            old(store).wf(),
        ensures
            final(store).wf(),
            (r@, final(store)@) == self@.resolve(old(store)@, domain@, qtype, t),
    {
        match qtype {
            QueryType::A | QueryType::AAAA => {},
            _ => {
                return Resolution::Forward;
            },
        }
        if let Some(ip) = self.hosts.get(domain) {
            return Resolution::Answer(DnsPacket::single(synthesize(domain, ip)));
        }
        match self.rules.action_for(Some(domain), None, None) {
            Some(Action::Reject) => {
                return Resolution::Answer(DnsPacket::new());
            },
            Some(Action::Direct) => {
                if self.bypass_direct {
                    return Resolution::Forward;
                }
            },
            _ => {},
        }
        match store.get_ipv4_by_host_at(domain, t) {
            Ok(ip) => Resolution::Answer(DnsPacket::single(synthesize(domain, IpAddress::V4(ip)))),
            Err(_) => Resolution::Answer(DnsPacket::new()),
        }
    }

    /// Decides the query at the present time, as `resolve_at` does.
    pub fn resolve(&self, store: &mut Store, domain: &str, qtype: QueryType) -> (r: Resolution)
        requires
            old(store).wf(),
        ensures
            final(store).wf(),
            exists|t: u64|
                (r@, final(store)@) == #[trigger] self@.resolve(old(store)@, domain@, qtype, t),
    {
        let t: u64 = now();
        self.resolve_at(store, domain, qtype, t)
    }

    /// The response to a forwarded query, from what the upstream client
    /// returned: its records converted, or its failure with the message.
    pub fn resolve_real(domain: &str, upstream: Result<Vec<UpstreamRecord>, String>) -> (r: Result<
        DnsPacket,
        ResolveError,
    >)
        ensures
            match upstream {
                Ok(records) => r is Ok && r->Ok_0@ == answers_of(domain@, upstream_views(records@)),
                Err(msg) => r is Err && r->Err_0->UpstreamDnsFailure_0@ == msg@,
            },
    {
        match upstream {
            Ok(records) => Ok(answers_from_upstream(domain, &records)),
            Err(msg) => Err(ResolveError::UpstreamDnsFailure(msg)),
        }
    }
}

/// A name of the hosts table is answered, whatever the rules say, with
/// exactly the table's address, and the store is left as it was.
pub proof fn lemma_hosts_override(
    r: ResolverView,
    store: StoreView,
    domain: Seq<char>,
    qtype: QueryType,
    t: u64,
)
    requires
        qtype.is_address(),
        host_ip(r.hosts, domain) is Some,
    ensures
        r.resolve(store, domain, qtype, t) == (
            ResolutionView::Answer(seq![address_record(domain, host_ip(r.hosts, domain)->0)]),
            store,
        ),
{
}

/// An address query for a name that is not in the hosts table and that the
/// rules reject gets a response without answers, and the store is left as
/// it was.
pub proof fn lemma_reject_is_empty(
    r: ResolverView,
    store: StoreView,
    domain: Seq<char>,
    qtype: QueryType,
    t: u64,
)
    requires
        qtype.is_address(),
        host_ip(r.hosts, domain) is None,
        first_match(r.rules.rules, named(domain)) == Some(Action::Reject),
    ensures
        r.resolve(store, domain, qtype, t) == (
            ResolutionView::Answer(Seq::<DnsRecordView>::empty()),
            store,
        ),
{
}

/// Where the resolver answers with a synthetic address, that address lies
/// in the pool and leads back to the name in the store after the query; and
/// a second query for the name gets the same answer and changes nothing.
pub proof fn lemma_synthetic_answer_is_bound(
    r: ResolverView,
    store: StoreView,
    domain: Seq<char>,
    qtype: QueryType,
    t: u64,
    later: u64,
    ip: Ipv4Address,
)
    requires
        store.wf(),
        host_ip(r.hosts, domain) is None,
        r.resolve(store, domain, qtype, t).0 == ResolutionView::Answer(
            seq![address_record(domain, IpAddress::V4(ip))],
        ),
    ensures
        r.resolve(store, domain, qtype, t).1.host_of(ip) == Some(domain),
        store.pool.holds(ip),
        r.resolve(r.resolve(store, domain, qtype, t).1, domain, qtype, later) == r.resolve(
            store,
            domain,
            qtype,
            t,
        ),
{
    let first = r.resolve(store, domain, qtype, t);
    let bound = store.bind(domain, t);
    lemma_bind(store, domain, t);
    assert(first.0->Answer_0.len() == 1);
    assert(bound.0 is Ok);
    assert(first.0->Answer_0 == seq![address_record(domain, IpAddress::V4(bound.0->Ok_0))]);
    assert(seq![address_record(domain, IpAddress::V4(bound.0->Ok_0))][0] == seq![
        address_record(domain, IpAddress::V4(ip)),
    ][0]);
    assert(bound.0->Ok_0 == ip);
    lemma_bind(first.1, domain, later);
}

} // verus!
