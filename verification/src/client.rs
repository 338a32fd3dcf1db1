//! The flow dispatcher and the direct transport, as far as they decide:
//! which name a flow goes by, which action it gets, which endpoint is
//! dialed, and which socket of the per-source table carries a datagram.

use crate::addr::{Address, AddressView, IpAddress, Ipv4Address, SocketAddress};
use crate::connections::{has_id, opened, with_shutdown};
use crate::dns::{a_addresses, DnsPacket};
use crate::rule::{Action, ProxyRules, ProxyRulesView, Subject};
use crate::store::{Store, StoreView};
use vstd::prelude::*;

verus! {

/// Why a flow was aborted.
#[derive(Debug, PartialEq, Eq)]
pub enum FlowError {
    /// The lookup of this domain gave no address.
    HostNotFound(String),
    /// The sockets of the configured user could not be listed; the message.
    OwnerLookupFailed(String),
    /// A socket failed; the message.
    TransportIoError(String),
}

/// What a `FlowError` holds, with every text as a sequence of characters.
pub enum FlowErrorView {
    HostNotFound(Seq<char>),
    OwnerLookupFailed(Seq<char>),
    TransportIoError(Seq<char>),
}

impl View for FlowError {
    type V = FlowErrorView;

    open spec fn view(&self) -> FlowErrorView {
        match *self {
            FlowError::HostNotFound(d) => FlowErrorView::HostNotFound(d@),
            FlowError::OwnerLookupFailed(m) => FlowErrorView::OwnerLookupFailed(m@),
            FlowError::TransportIoError(m) => FlowErrorView::TransportIoError(m@),
        }
    }
}

/// The view of a result whose error is a `FlowError`.
pub open spec fn outcome<T>(r: Result<T, FlowError>) -> Result<T, FlowErrorView> {
    match r {
        Ok(v) => Ok(v),
        Err(e) => Err(e@),
    }
}

/// One socket of a process.
#[derive(Clone, Copy, Debug, PartialEq, Eq, Structural)]
pub struct SocketInfo {
    pub local: SocketAddress,
    pub remote: SocketAddress,
}

/// The sockets of one process.
#[derive(Debug, PartialEq, Eq)]
pub struct ProcSockets {
    pub pid: i32,
    pub sockets: Vec<SocketInfo>,
}

/// Some socket of some listed process has `addr` as its local address.
pub open spec fn owned(addr: SocketAddress, user_socks: Seq<ProcSockets>) -> bool {
    exists|p: int, s: int|
        0 <= p < user_socks.len() && 0 <= s < user_socks[p].sockets@.len()
            && #[trigger] user_socks[p].sockets@[s].local == addr
}

/// Whether `addr` is the local address of a socket of one of the listed
/// processes, which are those of one user.
pub fn socket_addr_belong_to_user(addr: SocketAddress, user_socks: &Vec<ProcSockets>) -> (r: bool)
    ensures
        r == owned(addr, user_socks@),
{
    let n: usize = user_socks.len();
    let mut p: usize = 0;
    while p < n
        invariant
            p <= n,
            n == user_socks.len(),
            forall|i: int, s: int|
                0 <= i < p && 0 <= s < user_socks@[i].sockets@.len() ==> #[trigger] user_socks@[i].sockets@[s].local
                    != addr,
        decreases n - p,
    {
        let socks = &user_socks[p].sockets;
        let m: usize = socks.len();
        let mut s: usize = 0;
        while s < m
            invariant
                s <= m,
                m == socks.len(),
                p < n,
                n == user_socks.len(),
                socks == &user_socks@[p as int].sockets,
                forall|k: int| 0 <= k < s ==> (#[trigger] socks@[k]).local != addr,
            decreases m - s,
        {
            if socks[s].local == addr {
                assert(user_socks@[p as int].sockets@[s as int].local == addr);
                return true;
            }
            s = s + 1;
        }
        p = p + 1;
    }
    false
}

/// What listing the sockets of the configured user gave.
#[derive(Debug, PartialEq, Eq)]
pub enum OwnerTable {
    /// Nothing was listed: no user is configured, or the platform cannot list.
    Unavailable,
    /// The listing failed; the message.
    Failed(String),
    /// The sockets of the user's processes.
    Listed(Vec<ProcSockets>),
}

/// The transport of a flow.
#[derive(Clone, Copy, Debug, PartialEq, Eq, Structural)]
pub enum Network {
    Tcp,
    Udp,
}

impl Network {
    /// The name of the transport in a connection record.
    pub open spec fn text(self) -> Seq<char> {
        match self {
            Network::Tcp => seq!['t', 'c', 'p'],
            Network::Udp => seq!['u', 'd', 'p'],
        }
    }

    /// The name of the transport in a connection record.
    pub fn as_str(&self) -> (s: &'static str)
        ensures
            s@ == self.text(),
    {
        match self {
            Network::Tcp => {
                proof {
                    reveal_strlit("tcp");
                }
                assert("tcp"@ =~= seq!['t', 'c', 'p']);
                "tcp"
            },
            Network::Udp => {
                proof {
                    reveal_strlit("udp");
                }
                assert("udp"@ =~= seq!['u', 'd', 'p']);
                "udp"
            },
        }
    }
}

/// What is done with a flow, with the destination handed to the transport.
#[derive(Debug, PartialEq, Eq)]
pub enum Dispatch {
    /// The flow is dropped.
    Reject,
    /// The direct transport takes the flow to this destination.
    Direct(Address),
    /// The proxy transport takes the flow to this destination.
    Proxy(Address),
}

/// What a `Dispatch` holds.
pub enum DispatchView {
    Reject,
    Direct(AddressView),
    Proxy(AddressView),
}

impl View for Dispatch {
    type V = DispatchView;

    open spec fn view(&self) -> DispatchView {
        match *self {
            Dispatch::Reject => DispatchView::Reject,
            Dispatch::Direct(a) => DispatchView::Direct(a@),
            Dispatch::Proxy(a) => DispatchView::Proxy(a@),
        }
    }
}

/// The dispatch that carries out `action` towards `addr`.
pub open spec fn dispatch_of(action: Action, addr: AddressView) -> DispatchView {
    match action {
        Action::Reject => DispatchView::Reject,
        Action::Direct => DispatchView::Direct(addr),
        Action::Proxy => DispatchView::Proxy(addr),
    }
}

/// The name a flow goes by: its domain, or for a numeric destination the
/// text given for it.
pub open spec fn name_of(addr: AddressView, literal: Seq<char>) -> Seq<char> {
    match addr {
        AddressView::DomainNameAddress(d, _) => d,
        AddressView::SocketAddress(_) => literal,
    }
}

/// What the rules are asked about a flow: always its name; its address and
/// the country of that address only where the destination is numeric.
pub open spec fn flow_subject(addr: AddressView, literal: Seq<char>, country: Option<Seq<char>>) -> Subject {
    match addr {
        AddressView::DomainNameAddress(d, _) => Subject {
            domain: Some(d),
            ip: None,
            country: None,
        },
        AddressView::SocketAddress(a) => Subject { domain: Some(literal), ip: Some(a.ip), country },
    }
}

/// The action for a flow. With a user configured and that user's sockets
/// listed, a flow whose endpoint is none of them goes direct whatever the
/// rules say; a failed listing aborts the flow. In every other case the
/// rules decide, and their default where none matches.
pub open spec fn flow_action(
    rules: ProxyRulesView,
    proxy_uid: Option<u32>,
    subject: Subject,
    endpoint: SocketAddress,
    owner: OwnerTable,
) -> Result<Action, FlowErrorView> {
    if proxy_uid is Some && owner is Failed {
        Err(FlowErrorView::OwnerLookupFailed(owner->Failed_0@))
    } else if proxy_uid is Some && owner is Listed && !owned(endpoint, owner->Listed_0@) {
        Ok(Action::Direct)
    } else {
        Ok(rules.decide(subject))
    }
}

/// The endpoint that the direct transport dials for `addr`: a numeric
/// destination itself; for a domain the looked-up address with the
/// destination's port, and a failure where the lookup gave none.
pub open spec fn dial_target(addr: AddressView, looked_up: Option<Ipv4Address>) -> Result<
    SocketAddress,
    FlowErrorView,
> {
    match addr {
        AddressView::SocketAddress(a) => Ok(a),
        AddressView::DomainNameAddress(d, port) => match looked_up {
            Some(ip) => Ok(SocketAddress { ip: IpAddress::V4(ip), port }),
            None => Err(FlowErrorView::HostNotFound(d)),
        },
    }
}

/// What came of the two directions of a relayed stream: the failure of the
/// direction towards the destination if it failed, else that of the
/// direction back if it failed, else success.
pub open spec fn joined(up: Result<u64, String>, down: Result<u64, String>) -> Result<
    (),
    FlowErrorView,
> {
    match (up, down) {
        (Err(m), _) => Err(FlowErrorView::TransportIoError(m@)),
        (Ok(_), Err(m)) => Err(FlowErrorView::TransportIoError(m@)),
        (Ok(_), Ok(_)) => Ok(()),
    }
}

/// The direct transport: it dials the real destination, resolving a domain
/// through its DNS server first.
#[derive(Debug, PartialEq, Eq)]
pub struct DirectClient {
    dns_server: (String, u16),
}

impl DirectClient {
    /// The DNS server's host.
    pub closed spec fn server_host(&self) -> Seq<char> {
        self.dns_server.0@
    }

    /// The DNS server's port.
    pub closed spec fn server_port(&self) -> u16 {
        self.dns_server.1
    }

    /// The direct transport that resolves through `dns_server`.
    pub fn new(dns_server: (String, u16)) -> (c: DirectClient)
        ensures
            c.server_host() == dns_server.0@,
            c.server_port() == dns_server.1,
    {
        DirectClient { dns_server }
    }

    /// The DNS server: host and port.
    pub fn dns_server(&self) -> (r: (&str, u16))
        ensures
            r.0@ == self.server_host(),
            r.1 == self.server_port(),
    {
        (self.dns_server.0.as_str(), self.dns_server.1)
    }

    /// The IPv4 address that a lookup's response gives: none where it has
    /// no A record, else the A record that `choice` selects, counting round
    /// them in order.
    pub fn lookup_ip(&self, packet: &DnsPacket, choice: usize) -> (r: Option<Ipv4Address>)
        ensures
            a_addresses(packet@).len() == 0 ==> r is None,
            a_addresses(packet@).len() > 0 ==> r == Some(
                a_addresses(packet@)[choice as int % a_addresses(packet@).len() as int],
            ),
    {
        packet.pick_a(choice)
    }

    /// The endpoint to dial for a stream to `addr`, where `looked_up` is
    /// what the lookup of its domain gave.
    pub fn handle_tcp(&self, addr: &Address, looked_up: Option<Ipv4Address>) -> (r: Result<
        SocketAddress,
        FlowError,
    >)
        ensures
            outcome(r) == dial_target(addr@, looked_up),
    {
        match addr {
            Address::SocketAddress(a) => Ok(*a),
            Address::DomainNameAddress(domain, port) => match looked_up {
                Some(ip) => Ok(SocketAddress { ip: IpAddress::V4(ip), port: *port }),
                None => Err(FlowError::HostNotFound(domain.clone())),
            },
        }
    }

    /// What came of a relayed stream, from what its two directions returned.
    pub fn finish_tcp(up: Result<u64, String>, down: Result<u64, String>) -> (r: Result<
        (),
        FlowError,
    >)
        ensures
            outcome(r) == joined(up, down),
    {
        match up {
            Err(m) => Err(FlowError::TransportIoError(m)),
            Ok(_) => match down {
                Err(m) => Err(FlowError::TransportIoError(m)),
                Ok(_) => Ok(()),
            },
        }
    }

    /// The per-source table for datagrams to `addr`, empty, with the
    /// endpoint that every datagram is sent to.
    pub fn handle_udp(&self, addr: &Address, looked_up: Option<Ipv4Address>) -> (r: Result<
        UdpNat,
        FlowError,
    >)
        ensures
            match r {
                Ok(table) => dial_target(addr@, looked_up) == Ok::<SocketAddress, FlowErrorView>(
                    table.upstream(),
                ) && table.sources() == Seq::<SocketAddress>::empty() && table.wf(),
                Err(e) => dial_target(addr@, looked_up) == Err::<SocketAddress, FlowErrorView>(e@),
            },
    {
        match self.handle_tcp(addr, looked_up) {
            Ok(upstream) => Ok(UdpNat { upstream, sources: Vec::new() }),
            Err(e) => Err(e),
        }
    }
}

/// The per-source table of one datagram flow: each client source that was
/// seen has one socket, numbered in the order in which the sources came.
#[derive(Debug, PartialEq, Eq)]
pub struct UdpNat {
    upstream: SocketAddress,
    sources: Vec<SocketAddress>,
}

/// Which socket carries a datagram.
#[derive(Clone, Copy, Debug, PartialEq, Eq, Structural)]
pub enum NatStep {
    /// The socket with this number, bound earlier for the same source.
    Known(usize),
    /// A socket that is to be bound now and gets this number; what it
    /// receives goes back to the source.
    Bind(usize),
}

impl UdpNat {
    /// The endpoint that every datagram is sent to.
    pub closed spec fn upstream(&self) -> SocketAddress {
        self.upstream
    }

    /// The sources seen so far; a source's place is its socket's number.
    pub closed spec fn sources(&self) -> Seq<SocketAddress> {
        self.sources@
    }

    /// No source has two sockets.
    pub open spec fn wf(&self) -> bool {
        self.sources().no_duplicates()
    }

    /// The endpoint that every datagram is sent to.
    pub fn target(&self) -> (a: SocketAddress)
        ensures
            a == self.upstream(),
    {
        self.upstream
    }

    /// The socket for a datagram from `src`: the one bound for that source
    /// before, or a new one, which the table then holds for it.
    pub fn on_datagram(&mut self, src: SocketAddress) -> (step: NatStep)
        requires
            old(self).wf(),
        ensures
            final(self).wf(),
            final(self).upstream() == old(self).upstream(),
            match step {
                NatStep::Known(i) => 0 <= i < old(self).sources().len() && old(self).sources()[i as int]
                    == src && final(self).sources() == old(self).sources(),
                NatStep::Bind(i) => !old(self).sources().contains(src) && i == old(
                    self,
                ).sources().len() && final(self).sources() == old(self).sources().push(src),
            },
    {
        let n: usize = self.sources.len();
        let mut i: usize = 0;
        while i < n
            invariant
                i <= n,
                n == self.sources.len(),
                *self == *old(self),
                self.wf(),
                forall|j: int| 0 <= j < i ==> self.sources@[j] != src,
            decreases n - i,
        {
            if self.sources[i] == src {
                return NatStep::Known(i);
            }
            i = i + 1;
        }
        self.sources.push(src);
        NatStep::Bind(n)
    }
}

/// What the dispatcher decided for a new flow.
#[derive(Debug, PartialEq, Eq)]
pub struct FlowPlan {
    /// The transport to drive, with the destination to give it.
    pub dispatch: Dispatch,
    /// The name under which the flow is recorded and logged.
    pub display_name: String,
    /// Whether the ledger took the flow's record.
    pub recorded: bool,
}

/// The flow dispatcher: the rules, the direct transport, and the user whose
/// flows alone are subject to the rules, if one is configured.
#[derive(Debug, PartialEq, Eq)]
pub struct RuledClient {
    rule: ProxyRules,
    direct_client: DirectClient,
    proxy_uid: Option<u32>,
}

/// The destination a flow to `dst` goes by: the domain bound to its
/// address, with the port, where the store has one; else `dst` itself.
pub open spec fn flow_target(store: StoreView, dst: SocketAddress) -> AddressView {
    match dst.ip {
        IpAddress::V4(ip) => match store.host_of(ip) {
            Some(d) => AddressView::DomainNameAddress(d, dst.port),
            None => AddressView::SocketAddress(dst),
        },
        IpAddress::V6(_) => AddressView::SocketAddress(dst),
    }
}

impl RuledClient {
    /// The rules.
    pub closed spec fn rules(&self) -> ProxyRulesView {
        self.rule@
    }

    /// The configured user.
    pub closed spec fn uid(&self) -> Option<u32> {
        self.proxy_uid
    }

    /// The direct transport.
    pub closed spec fn direct(&self) -> DirectClient {
        self.direct_client
    }

    /// The dispatcher over these rules; its direct transport resolves
    /// through `dns_server`.
    pub fn new(rule: ProxyRules, dns_server: (String, u16), proxy_uid: Option<u32>) -> (c:
        RuledClient)
        ensures
            c.rules() == rule@,
            c.uid() == proxy_uid,
            c.direct().server_host() == dns_server.0@,
            c.direct().server_port() == dns_server.1,
    {
        RuledClient { rule, direct_client: DirectClient::new(dns_server), proxy_uid }
    }

    /// The user whose sockets are to be listed for the owner filter, if one
    /// is configured.
    pub fn proxy_uid(&self) -> (u: Option<u32>)
        ensures
            u == self.uid(),
    {
        self.proxy_uid
    }

    /// The direct transport.
    pub fn direct_client(&self) -> (d: &DirectClient)
        ensures
            *d == self.direct(),
    {
        &self.direct_client
    }

    /// The action for a flow to `addr`, as `flow_action` says. `literal` is
    /// the text of a numeric destination, `country` what the GeoIP database
    /// gives for it, `endpoint` the flow's address among the host's sockets.
    pub fn action_for_flow(
        &self,
        addr: &Address,
        literal: &str,
        country: Option<&str>,
        endpoint: SocketAddress,
        owner: &OwnerTable,
    ) -> (r: Result<Action, FlowError>)
        ensures
            outcome(r) == flow_action(
                self.rules(),
                self.uid(),
                flow_subject(
                    addr@,
                    literal@,
                    match country {
                        Some(c) => Some(c@),
                        None => None,
                    },
                ),
                endpoint,
                *owner,
            ),
    {
        if self.proxy_uid.is_some() {
            match owner {
                OwnerTable::Failed(msg) => {
                    return Err(FlowError::OwnerLookupFailed(msg.clone()));
                },
                OwnerTable::Listed(socks) => {
                    if !socket_addr_belong_to_user(endpoint, socks) {
                        return Ok(Action::Direct);
                    }
                },
                OwnerTable::Unavailable => {},
            }
        }
        match addr {
            Address::DomainNameAddress(domain, _) => Ok(
                self.rule.decide(Some(domain.as_str()), None, None),
            ),
            Address::SocketAddress(a) => Ok(self.rule.decide(Some(literal), Some(a.ip), country)),
        }
    }

    /// What is done with a stream to `addr`: the action of `flow_action`
    /// with the destination for the transport. `remote_addr` is the
    /// stream's remote address on the capturing device.
    pub fn handle_tcp(
        &self,
        addr: &Address,
        literal: &str,
        country: Option<&str>,
        remote_addr: SocketAddress,
        owner: &OwnerTable,
    ) -> (r: Result<Dispatch, FlowError>)
        ensures
            match flow_action(
                self.rules(),
                self.uid(),
                flow_subject(
                    addr@,
                    literal@,
                    match country {
                        Some(c) => Some(c@),
                        None => None,
                    },
                ),
                remote_addr,
                *owner,
            ) {
                Ok(a) => r is Ok && r->Ok_0@ == dispatch_of(a, addr@),
                Err(e) => r is Err && r->Err_0@ == e,
            },
    {
        match self.action_for_flow(addr, literal, country, remote_addr, owner) {
            Ok(Action::Reject) => Ok(Dispatch::Reject),
            Ok(Action::Direct) => Ok(Dispatch::Direct(addr.duplicate())),
            Ok(Action::Proxy) => Ok(Dispatch::Proxy(addr.duplicate())),
            Err(e) => Err(e),
        }
    }

    /// What is done with datagrams to `addr`: as `handle_tcp`, with the
    /// datagram socket's local address on the capturing device.
    pub fn handle_udp(
        &self,
        addr: &Address,
        literal: &str,
        country: Option<&str>,
        local_addr: SocketAddress,
        owner: &OwnerTable,
    ) -> (r: Result<Dispatch, FlowError>)
        ensures
            match flow_action(
                self.rules(),
                self.uid(),
                flow_subject(
                    addr@,
                    literal@,
                    match country {
                        Some(c) => Some(c@),
                        None => None,
                    },
                ),
                local_addr,
                *owner,
            ) {
                Ok(a) => r is Ok && r->Ok_0@ == dispatch_of(a, addr@),
                Err(e) => r is Err && r->Err_0@ == e,
            },
    {
        self.handle_tcp(addr, literal, country, local_addr, owner)
    }

    /// The destination a flow to `dst` goes by, as `flow_target` says.
    pub fn target_of(store: &Store, dst: SocketAddress) -> (addr: Address)
        requires
            store.wf(),
        ensures
            addr@ == flow_target(store@, dst),
    {
        match dst.ip {
            IpAddress::V4(ip) => match store.get_host_by_ipv4(ip) {
                Some(d) => Address::DomainNameAddress(d, dst.port),
                None => Address::SocketAddress(dst),
            },
            IpAddress::V6(_) => Address::SocketAddress(dst),
        }
    }

    /// Takes up a new flow to `dst` at time `t`: finds the name it goes by,
    /// decides its action, and opens its record in the ledger under `id`.
    /// A failed owner lookup aborts the flow before anything is recorded. A
    /// record that the ledger does not take, because the id is in use, does
    /// not abort the flow: the plan says that it was not recorded.
    pub fn open_flow(
        &self,
        store: &mut Store,
        id: u64,
        network: Network,
        dst: SocketAddress,
        literal: &str,
        country: Option<&str>,
        endpoint: SocketAddress,
        owner: &OwnerTable,
        conn_type: &str,
        proxy_server: &str,
        t: u64,
    ) -> (r: Result<FlowPlan, FlowError>)
        requires
            old(store).wf(),
        ensures
            final(store).wf(),
            final(store)@.pool == old(store)@.pool,
            final(store)@.bindings == old(store)@.bindings,
            ({
                let addr = flow_target(old(store)@, dst);
                let name = name_of(addr, literal@);
                let ledger = old(store)@.connections;
                match flow_action(
                    self.rules(),
                    self.uid(),
                    flow_subject(
                        addr,
                        literal@,
                        match country {
                            Some(c) => Some(c@),
                            None => None,
                        },
                    ),
                    endpoint,
                    *owner,
                ) {
                    Err(e) => r is Err && r->Err_0@ == e && final(store)@ == old(store)@,
                    Ok(a) => {
                        &&& r is Ok
                        &&& r->Ok_0.dispatch@ == dispatch_of(a, addr)
                        &&& r->Ok_0.display_name@ == name
                        &&& r->Ok_0.recorded == !has_id(ledger, id)
                        &&& has_id(ledger, id) ==> final(store)@ == old(store)@
                        &&& !has_id(ledger, id) ==> final(store)@.connections == ledger.push(
                            opened(id, name, network.text(), conn_type@, proxy_server@, t),
                        )
                    },
                }
            }),
    {
        let addr = Self::target_of(store, dst);
        let dispatch = match self.handle_tcp(&addr, literal, country, endpoint, owner) {
            Ok(d) => d,
            Err(e) => {
                return Err(e);
            },
        };
        let display_name = match &addr {
            Address::DomainNameAddress(d, _) => d.clone(),
            Address::SocketAddress(_) => literal.to_owned(),
        };
        let recorded = store.new_connection_at(
            id,
            display_name.as_str(),
            network.as_str(),
            conn_type,
            proxy_server,
            t,
        ).is_ok();
        Ok(FlowPlan { dispatch, display_name, recorded })
    }

    /// Closes the record of flow `id` at time `t`, whatever came of the flow.
    pub fn close_flow(&self, store: &mut Store, id: u64, t: u64)
        requires
            old(store).wf(),
        ensures
            final(store).wf(),
            final(store)@.pool == old(store)@.pool,
            final(store)@.bindings == old(store)@.bindings,
            final(store)@.connections == with_shutdown(old(store)@.connections, id, t),
    {
        let _ = store.shutdown_connection_at(id, t);
    }
}

} // verus!
