//! DNS records as the resolver produces and consumes them, and the
//! conversion of an upstream answer into the records of a response.

use crate::addr::{Ipv4Address, Ipv6Address};
use vstd::prelude::*;

verus! {

/// Time to live, in seconds, of every record that the resolver synthesizes.
pub const SYNTHETIC_TTL: u32 = 3;

/// The type of a DNS query.
#[derive(Clone, Copy, Debug, PartialEq, Eq, Structural, Hash)]
pub enum QueryType {
    Unknown(u16),
    A,
    NS,
    CNAME,
    SOA,
    MX,
    TXT,
    AAAA,
    SRV,
}

impl QueryType {
    /// The number of this type on the wire.
    pub open spec fn num(self) -> u16 {
        match self {
            QueryType::Unknown(n) => n,
            QueryType::A => 1,
            QueryType::NS => 2,
            QueryType::CNAME => 5,
            QueryType::SOA => 6,
            QueryType::MX => 15,
            QueryType::TXT => 16,
            QueryType::AAAA => 28,
            QueryType::SRV => 33,
        }
    }

    /// Whether the resolver answers this type itself: only address queries.
    pub open spec fn is_address(self) -> bool {
        self == QueryType::A || self == QueryType::AAAA
    }

    /// The number of this type on the wire.
    pub fn to_num(&self) -> (n: u16)
        ensures
            n == self.num(),
    {
        match *self {
            QueryType::Unknown(n) => n,
            QueryType::A => 1,
            QueryType::NS => 2,
            QueryType::CNAME => 5,
            QueryType::SOA => 6,
            QueryType::MX => 15,
            QueryType::TXT => 16,
            QueryType::AAAA => 28,
            QueryType::SRV => 33,
        }
    }

    /// The type with the given number; a number of no known type is kept.
    pub fn from_num(n: u16) -> (t: QueryType)
        ensures
            t.num() == n,
            t is Unknown <==> !(n == 1 || n == 2 || n == 5 || n == 6 || n == 15 || n == 16 || n
                == 28 || n == 33),
    {
        match n {
            1 => QueryType::A,
            2 => QueryType::NS,
            5 => QueryType::CNAME,
            6 => QueryType::SOA,
            15 => QueryType::MX,
            16 => QueryType::TXT,
            28 => QueryType::AAAA,
            33 => QueryType::SRV,
            _ => QueryType::Unknown(n),
        }
    }
}

/// A record's time to live, in seconds.
#[derive(Clone, Copy, Debug, PartialEq, Eq, Structural, Hash)]
pub struct TransientTtl(pub u32);

/// A record of a DNS response.
#[allow(inconsistent_fields)]
#[derive(Clone, Debug, PartialEq, Eq)]
pub enum DnsRecord {
    A { domain: String, addr: Ipv4Address, ttl: TransientTtl },
    NS { domain: String, host: String, ttl: TransientTtl },
    CNAME { domain: String, host: String, ttl: TransientTtl },
    SOA {
        domain: String,
        m_name: String,
        r_name: String,
        serial: u32,
        refresh: u32,
        retry: u32,
        expire: u32,
        minimum: u32,
        ttl: TransientTtl,
    },
    MX { domain: String, priority: u16, host: String, ttl: TransientTtl },
    TXT { domain: String, data: String, ttl: TransientTtl },
    AAAA { domain: String, addr: Ipv6Address, ttl: TransientTtl },
    SRV { domain: String, priority: u16, weight: u16, port: u16, host: String, ttl: TransientTtl },
}

/// What a `DnsRecord` holds, with every name as a sequence of characters.
#[allow(inconsistent_fields)]
pub enum DnsRecordView {
    A { domain: Seq<char>, addr: Ipv4Address, ttl: u32 },
    NS { domain: Seq<char>, host: Seq<char>, ttl: u32 },
    CNAME { domain: Seq<char>, host: Seq<char>, ttl: u32 },
    SOA {
        domain: Seq<char>,
        m_name: Seq<char>,
        r_name: Seq<char>,
        serial: u32,
        refresh: u32,
        retry: u32,
        expire: u32,
        minimum: u32,
        ttl: u32,
    },
    MX { domain: Seq<char>, priority: u16, host: Seq<char>, ttl: u32 },
    TXT { domain: Seq<char>, data: Seq<char>, ttl: u32 },
    AAAA { domain: Seq<char>, addr: Ipv6Address, ttl: u32 },
    SRV { domain: Seq<char>, priority: u16, weight: u16, port: u16, host: Seq<char>, ttl: u32 },
}

impl View for DnsRecord {
    type V = DnsRecordView;

    open spec fn view(&self) -> DnsRecordView {
        match *self {
            DnsRecord::A { domain, addr, ttl } => DnsRecordView::A {
                domain: domain@,
                addr,
                ttl: ttl.0,
            },
            DnsRecord::NS { domain, host, ttl } => DnsRecordView::NS {
                domain: domain@,
                host: host@,
                ttl: ttl.0,
            },
            DnsRecord::CNAME { domain, host, ttl } => DnsRecordView::CNAME {
                domain: domain@,
                host: host@,
                ttl: ttl.0,
            },
            DnsRecord::SOA {
                domain,
                m_name,
                r_name,
                serial,
                refresh,
                retry,
                expire,
                minimum,
                ttl,
            } => DnsRecordView::SOA {
                domain: domain@,
                m_name: m_name@,
                r_name: r_name@,
                serial,
                refresh,
                retry,
                expire,
                minimum,
                ttl: ttl.0,
            },
            DnsRecord::MX { domain, priority, host, ttl } => DnsRecordView::MX {
                domain: domain@,
                priority,
                host: host@,
                ttl: ttl.0,
            },
            DnsRecord::TXT { domain, data, ttl } => DnsRecordView::TXT {
                domain: domain@,
                data: data@,
                ttl: ttl.0,
            },
            DnsRecord::AAAA { domain, addr, ttl } => DnsRecordView::AAAA {
                domain: domain@,
                addr,
                ttl: ttl.0,
            },
            DnsRecord::SRV { domain, priority, weight, port, host, ttl } => DnsRecordView::SRV {
                domain: domain@,
                priority,
                weight,
                port,
                host: host@,
                ttl: ttl.0,
            },
        }
    }
}

/// A DNS response, as far as the resolver fills it: its answer section.
#[derive(Clone, Debug, PartialEq, Eq)]
pub struct DnsPacket {
    pub answers: Vec<DnsRecord>,
}

impl View for DnsPacket {
    type V = Seq<DnsRecordView>;

    open spec fn view(&self) -> Seq<DnsRecordView> {
        self.answers@.map_values(|r: DnsRecord| r@)
    }
}

/// The addresses of the A records among `answers`, in their order.
pub open spec fn a_addresses(answers: Seq<DnsRecordView>) -> Seq<Ipv4Address>
    decreases answers.len(),
{
    if answers.len() == 0 {
        Seq::empty()
    } else {
        let rest = a_addresses(answers.drop_last());
        match answers.last() {
            DnsRecordView::A { addr, .. } => rest.push(addr),
            _ => rest,
        }
    }
}

impl DnsPacket {
    /// A response without answers.
    pub fn new() -> (p: DnsPacket)
        ensures
            p@ == Seq::<DnsRecordView>::empty(),
    {
        let p = DnsPacket { answers: Vec::new() };
        assert(p@ =~= Seq::<DnsRecordView>::empty());
        p
    }

    /// A response whose one answer is `record`.
    pub fn single(record: DnsRecord) -> (p: DnsPacket)
        ensures
            p@ == seq![record@],
    {
        let mut answers: Vec<DnsRecord> = Vec::new();
        answers.push(record);
        let p = DnsPacket { answers };
        assert(p@ =~= seq![record@]);
        p
    }

    /// The addresses of the A records of this response, in their order.
    pub fn a_records(&self) -> (v: Vec<Ipv4Address>)
        ensures
            v@ == a_addresses(self@),
    {
        let mut v: Vec<Ipv4Address> = Vec::new();
        let n: usize = self.answers.len();
        let mut i: usize = 0;
        assert(self@.take(0) =~= Seq::<DnsRecordView>::empty());
        while i < n
            invariant
                i <= n,
                n == self.answers.len(),
                v@ == a_addresses(self@.take(i as int)),
            decreases n - i,
        {
            assert(self@.take(i + 1).drop_last() =~= self@.take(i as int));
            assert(self@.take(i + 1).last() == self.answers[i as int]@);
            match &self.answers[i] {
                DnsRecord::A { addr, .. } => {
                    v.push(*addr);
                },
                _ => {},
            }
            i = i + 1;
        }
        assert(self@.take(n as int) =~= self@);
        v
    }

    /// One A record's address: none where the response has no A record, else
    /// the one that `choice` selects, counting round the A records in order.
    pub fn pick_a(&self, choice: usize) -> (r: Option<Ipv4Address>)
        ensures
            a_addresses(self@).len() == 0 ==> r is None,
            a_addresses(self@).len() > 0 ==> r == Some(
                a_addresses(self@)[choice as int % a_addresses(self@).len() as int],
            ),
    {
        let v = self.a_records();
        if v.len() == 0 {
            None
        } else {
            Some(v[choice % v.len()])
        }
    }
}

/// The data of one record of an upstream answer.
#[derive(Clone, Debug, PartialEq, Eq)]
pub enum UpstreamData {
    A(Ipv4Address),
    AAAA(Ipv6Address),
    CNAME(String),
    MX { preference: u16, exchange: String },
    NS(String),
    SOA {
        mname: String,
        rname: String,
        serial: u32,
        refresh: i32,
        retry: i32,
        expire: i32,
        minimum: u32,
    },
    TXT(String),
    SRV { priority: u16, weight: u16, port: u16, target: String },
    /// Data of a type that responses do not carry.
    Unsupported,
}

/// What an `UpstreamData` holds, with every name as a sequence of characters.
pub enum UpstreamDataView {
    A(Ipv4Address),
    AAAA(Ipv6Address),
    CNAME(Seq<char>),
    MX { preference: u16, exchange: Seq<char> },
    NS(Seq<char>),
    SOA {
        mname: Seq<char>,
        rname: Seq<char>,
        serial: u32,
        refresh: i32,
        retry: i32,
        expire: i32,
        minimum: u32,
    },
    TXT(Seq<char>),
    SRV { priority: u16, weight: u16, port: u16, target: Seq<char> },
    Unsupported,
}

impl View for UpstreamData {
    type V = UpstreamDataView;

    open spec fn view(&self) -> UpstreamDataView {
        match *self {
            UpstreamData::A(ip) => UpstreamDataView::A(ip),
            UpstreamData::AAAA(ip) => UpstreamDataView::AAAA(ip),
            UpstreamData::CNAME(host) => UpstreamDataView::CNAME(host@),
            UpstreamData::MX { preference, exchange } => UpstreamDataView::MX {
                preference,
                exchange: exchange@,
            },
            UpstreamData::NS(host) => UpstreamDataView::NS(host@),
            UpstreamData::SOA {
                mname,
                rname,
                serial,
                refresh,
                retry,
                expire,
                minimum,
            } => UpstreamDataView::SOA {
                mname: mname@,
                rname: rname@,
                serial,
                refresh,
                retry,
                expire,
                minimum,
            },
            UpstreamData::TXT(data) => UpstreamDataView::TXT(data@),
            UpstreamData::SRV { priority, weight, port, target } => UpstreamDataView::SRV {
                priority,
                weight,
                port,
                target: target@,
            },
            UpstreamData::Unsupported => UpstreamDataView::Unsupported,
        }
    }
}

/// One record of an upstream answer: its time to live and its data, if it
/// carries any.
#[derive(Clone, Debug, PartialEq, Eq)]
pub struct UpstreamRecord {
    pub ttl: u32,
    pub data: Option<UpstreamData>,
}

/// What an `UpstreamRecord` holds.
pub struct UpstreamRecordView {
    pub ttl: u32,
    pub data: Option<UpstreamDataView>,
}

impl View for UpstreamRecord {
    type V = UpstreamRecordView;

    open spec fn view(&self) -> UpstreamRecordView {
        UpstreamRecordView {
            ttl: self.ttl,
            data: match self.data {
                Some(d) => Some(d@),
                None => None,
            },
        }
    }
}

/// The response record that stands for one upstream record under the
/// queried name: none for a record without data or of an unsupported type.
/// The three SOA intervals are carried over bit for bit.
pub open spec fn record_of(domain: Seq<char>, rec: UpstreamRecordView) -> Option<DnsRecordView> {
    match rec.data {
        None => None,
        Some(UpstreamDataView::Unsupported) => None,
        Some(UpstreamDataView::A(ip)) => Some(DnsRecordView::A { domain, addr: ip, ttl: rec.ttl }),
        Some(UpstreamDataView::AAAA(ip)) => Some(
            DnsRecordView::AAAA { domain, addr: ip, ttl: rec.ttl },
        ),
        Some(UpstreamDataView::CNAME(host)) => Some(
            DnsRecordView::CNAME { domain, host, ttl: rec.ttl },
        ),
        Some(UpstreamDataView::MX { preference, exchange }) => Some(
            DnsRecordView::MX { domain, priority: preference, host: exchange, ttl: rec.ttl },
        ),
        Some(UpstreamDataView::NS(host)) => Some(DnsRecordView::NS { domain, host, ttl: rec.ttl }),
        Some(UpstreamDataView::SOA { mname, rname, serial, refresh, retry, expire, minimum }) => Some(
            DnsRecordView::SOA {
                domain,
                m_name: mname,
                r_name: rname,
                serial,
                refresh: refresh as u32,
                retry: retry as u32,
                expire: expire as u32,
                minimum,
                ttl: rec.ttl,
            },
        ),
        Some(UpstreamDataView::TXT(data)) => Some(DnsRecordView::TXT { domain, data, ttl: rec.ttl }),
        Some(UpstreamDataView::SRV { priority, weight, port, target }) => Some(
            DnsRecordView::SRV { domain, priority, weight, port, host: target, ttl: rec.ttl },
        ),
    }
}

/// The answers that an upstream answer gives: `record_of` each record, in
/// order, the records that give none left out.
pub open spec fn answers_of(domain: Seq<char>, recs: Seq<UpstreamRecordView>) -> Seq<DnsRecordView>
    decreases recs.len(),
{
    if recs.len() == 0 {
        Seq::empty()
    } else {
        let rest = answers_of(domain, recs.drop_last());
        match record_of(domain, recs.last()) {
            Some(r) => rest.push(r),
            None => rest,
        }
    }
}

/// The views of the records of an upstream answer.
pub open spec fn upstream_views(recs: Seq<UpstreamRecord>) -> Seq<UpstreamRecordView> {
    recs.map_values(|r: UpstreamRecord| r@)
}

/// The response record for one upstream record, if it gives one.
pub fn convert_record(domain: &str, rec: &UpstreamRecord) -> (r: Option<DnsRecord>)
    ensures
        match r {
            Some(x) => record_of(domain@, rec@) == Some(x@),
            None => record_of(domain@, rec@) is None,
        },
{
    let ttl = TransientTtl(rec.ttl);
    match &rec.data {
        None => None,
        Some(UpstreamData::Unsupported) => None,
        Some(UpstreamData::A(ip)) => Some(DnsRecord::A { domain: domain.to_owned(), addr: *ip, ttl }),
        Some(UpstreamData::AAAA(ip)) => Some(
            DnsRecord::AAAA { domain: domain.to_owned(), addr: *ip, ttl },
        ),
        Some(UpstreamData::CNAME(host)) => Some(
            DnsRecord::CNAME { domain: domain.to_owned(), host: host.clone(), ttl },
        ),
        Some(UpstreamData::MX { preference, exchange }) => Some(
            DnsRecord::MX {
                domain: domain.to_owned(),
                priority: *preference,
                host: exchange.clone(),
                ttl,
            },
        ),
        Some(UpstreamData::NS(host)) => Some(
            DnsRecord::NS { domain: domain.to_owned(), host: host.clone(), ttl },
        ),
        Some(UpstreamData::SOA { mname, rname, serial, refresh, retry, expire, minimum }) => Some(
            DnsRecord::SOA {
                domain: domain.to_owned(),
                m_name: mname.clone(),
                r_name: rname.clone(),
                serial: *serial,
                refresh: #[verifier::truncate]
                (*refresh as u32),
                retry: #[verifier::truncate]
                (*retry as u32),
                expire: #[verifier::truncate]
                (*expire as u32),
                minimum: *minimum,
                ttl,
            },
        ),
        Some(UpstreamData::TXT(data)) => Some(
            DnsRecord::TXT { domain: domain.to_owned(), data: data.clone(), ttl },
        ),
        Some(UpstreamData::SRV { priority, weight, port, target }) => Some(
            DnsRecord::SRV {
                domain: domain.to_owned(),
                priority: *priority,
                weight: *weight,
                port: *port,
                host: target.clone(),
                ttl,
            },
        ),
    }
}

/// The response to a forwarded query, built from the upstream's records:
/// each supported record with data becomes one answer under the queried
/// name, in the upstream's order; the others are dropped.
pub fn answers_from_upstream(domain: &str, records: &Vec<UpstreamRecord>) -> (packet: DnsPacket)
    ensures
        packet@ == answers_of(domain@, upstream_views(records@)),
{
    let mut packet = DnsPacket::new();
    let n: usize = records.len();
    let mut i: usize = 0;
    let ghost all = upstream_views(records@);
    assert(all.take(0) =~= Seq::<UpstreamRecordView>::empty());
    while i < n
        invariant
            i <= n,
            n == records.len(),
            all == upstream_views(records@),
            packet@ == answers_of(domain@, all.take(i as int)),
        decreases n - i,
    {
        assert(all.take(i + 1).drop_last() =~= all.take(i as int));
        assert(all.take(i + 1).last() == records[i as int]@);
        let ghost before = packet@;
        match convert_record(domain, &records[i]) {
            Some(r) => {
                packet.answers.push(r);
                assert(packet@ =~= before.push(r@));
            },
            None => {},
        }
        i = i + 1;
    }
    assert(all.take(n as int) =~= all);
    packet
}

} // verus!
