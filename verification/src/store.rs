//! The binding store: the two-way table between domains and synthetic
//! addresses, kept together with the connection ledger.

use crate::addr::Ipv4Address;
use crate::clock::now;
use crate::connections::{
    has_id, in_use, ledger_has, ledger_list, ledger_open, ledger_shutdown, ledger_sweep,
    ledger_update, ledger_uses, ledger_view, ledger_wf, swept, with_open, with_shutdown, with_update, Connection,
    ConnectionView,
};
use crate::pool::Pool;
use vstd::prelude::*;

verus! {

/// Why an operation of the store failed.
#[derive(Clone, Copy, Debug, PartialEq, Eq, Structural)]
pub enum StoreError {
    /// Every address of the pool is bound to a domain that a live flow uses.
    PoolExhausted,
    /// The ledger did not take the record.
    LedgerWriteFailed,
}

/// A domain with the synthetic address that stands for it.
#[derive(Debug, PartialEq, Eq)]
pub struct Binding {
    pub domain: String,
    pub ip: Ipv4Address,
    pub created_at: u64,
}

/// What a `Binding` holds, with the domain as a sequence of characters.
pub struct BindingView {
    pub domain: Seq<char>,
    pub ip: Ipv4Address,
    pub created_at: u64,
}

impl View for Binding {
    type V = BindingView;

    open spec fn view(&self) -> BindingView {
        BindingView { domain: self.domain@, ip: self.ip, created_at: self.created_at }
    }
}

/// The store: a pool, the bindings made from it and the connection ledger.
pub struct Store {
    pub(crate) pool: Pool,
    pub(crate) bindings: Vec<Binding>,
    pub(crate) connections: Vec<Connection>,
}

/// What a `Store` holds: the bindings in the order of their addresses and
/// the ledger in the order in which its records were opened.
pub struct StoreView {
    pub pool: Pool,
    pub bindings: Seq<BindingView>,
    pub connections: Seq<ConnectionView>,
}

impl StoreView {
    /// The binding at place `i` is the one of `domain`.
    pub open spec fn binds(self, i: int, domain: Seq<char>) -> bool {
        0 <= i < self.bindings.len() && self.bindings[i].domain == domain
    }

    /// The binding at place `i` is the one of `ip`.
    pub open spec fn maps(self, i: int, ip: Ipv4Address) -> bool {
        0 <= i < self.bindings.len() && self.bindings[i].ip == ip
    }

    /// The address bound to `domain`, if it has one.
    pub open spec fn ip_of(self, domain: Seq<char>) -> Option<Ipv4Address> {
        if exists|i: int| self.binds(i, domain) {
            Some(self.bindings[choose|i: int| self.binds(i, domain)].ip)
        } else {
            None
        }
    }

    /// The domain bound to `ip`, if it has one.
    pub open spec fn host_of(self, ip: Ipv4Address) -> Option<Seq<char>> {
        if exists|i: int| self.maps(i, ip) {
            Some(self.bindings[choose|i: int| self.maps(i, ip)].domain)
        } else {
            None
        }
    }

    /// The pool is valid; the bindings hold the pool's first addresses in
    /// ascending order, so no address is bound twice; no domain is bound
    /// twice; no two records of the ledger have the same id, and none was
    /// updated before it was opened.
    pub open spec fn wf(self) -> bool {
        &&& self.pool.wf()
        &&& self.bindings.len() <= self.pool.count()
        &&& forall|i: int|
            0 <= i < self.bindings.len() ==> (#[trigger] self.bindings[i]).ip.bits
                == self.pool.first() + i
        &&& forall|i: int, j: int|
            0 <= i < self.bindings.len() && 0 <= j < self.bindings.len() && i != j ==> (
            #[trigger] self.bindings[i]).domain != (#[trigger] self.bindings[j]).domain
        &&& ledger_wf(self.connections)
    }

    /// Every address of the pool is bound.
    pub open spec fn full(self) -> bool {
        self.bindings.len() == self.pool.count()
    }

    /// The binding at place `i` can be given up: no live flow uses its domain.
    pub open spec fn evictable(self, i: int) -> bool {
        0 <= i < self.bindings.len() && !in_use(self.connections, self.bindings[i].domain)
    }

    /// The binding at place `i` is the oldest that can be given up: none
    /// that can was created earlier, and of those created at the same time
    /// it stands first.
    pub open spec fn oldest_evictable(self, i: int) -> bool {
        &&& self.evictable(i)
        &&& forall|j: int| #[trigger]
            self.evictable(j) ==> self.bindings[i].created_at < self.bindings[j].created_at || (
            self.bindings[i].created_at == self.bindings[j].created_at && i <= j)
    }

    /// The store after `domain` has taken the place `i` at time `t`, with
    /// the address of that place.
    pub open spec fn rebound(self, i: int, domain: Seq<char>, t: u64) -> StoreView {
        StoreView {
            bindings: self.bindings.update(
                i,
                BindingView { domain, ip: self.bindings[i].ip, created_at: t },
            ),
            ..self
        }
    }

    /// The store after `domain` was bound at time `t` to the next address
    /// that was never bound.
    pub open spec fn extended(self, domain: Seq<char>, t: u64) -> StoreView {
        StoreView {
            bindings: self.bindings.push(
                BindingView {
                    domain,
                    ip: Ipv4Address { bits: (self.pool.first() + self.bindings.len()) as u32 },
                    created_at: t,
                },
            ),
            ..self
        }
    }

    /// What asking for the address of `domain` at time `t` gives, and the
    /// store after it. A bound domain keeps its address and nothing changes.
    /// An unbound one takes the next address never bound; where none is left
    /// it takes the place of the oldest binding that can be given up; where
    /// there is none of those either, the pool is exhausted and nothing
    /// changes.
    pub open spec fn bind(self, domain: Seq<char>, t: u64) -> (
        Result<Ipv4Address, StoreError>,
        StoreView,
    ) {
        if self.ip_of(domain) is Some {
            (Ok(self.ip_of(domain)->0), self)
        } else if !self.full() {
            let next = self.extended(domain, t);
            (Ok(next.bindings.last().ip), next)
        } else if exists|i: int| self.oldest_evictable(i) {
            let i = choose|i: int| self.oldest_evictable(i);
            (Ok(self.bindings[i].ip), self.rebound(i, domain, t))
        } else {
            (Err(StoreError::PoolExhausted), self)
        }
    }
}

impl View for Store {
    type V = StoreView;

    closed spec fn view(&self) -> StoreView {
        StoreView {
            pool: self.pool,
            bindings: self.bindings@.map_values(|b: Binding| b@),
            connections: ledger_view(self.connections@),
        }
    }
}

impl Store {
    /// The store is well formed: see `StoreView::wf`.
    pub open spec fn wf(&self) -> bool {
        self@.wf()
    }

    /// An empty store over `pool`.
    pub fn new(pool: Pool) -> (s: Store)
        ensures
            s.wf(),
            s@.pool == pool,
            s@.bindings == Seq::<BindingView>::empty(),
            s@.connections == Seq::<ConnectionView>::empty(),
    {
        proof {
            use_type_invariant(pool);
        }
        let s = Store { pool, bindings: Vec::new(), connections: Vec::new() };
        assert(s@.bindings =~= Seq::<BindingView>::empty());
        assert(s@.connections =~= Seq::<ConnectionView>::empty());
        s
    }

    /// The store that holds these bindings and these records, as a store
    /// over `pool` wrote them out before: none where they are not what a
    /// well-formed store holds.
    #[verifier::loop_isolation(false)]
    pub fn restore(pool: Pool, bindings: Vec<Binding>, connections: Vec<Connection>) -> (r: Option<
        Store,
    >)
        ensures
            ({
                let given = StoreView {
                    pool,
                    bindings: bindings@.map_values(|b: Binding| b@),
                    connections: ledger_view(connections@),
                };
                &&& r is Some <==> given.wf()
                &&& r is Some ==> r->0@ == given && r->0.wf()
            }),
    {
        proof {
            use_type_invariant(pool);
        }
        let ghost given = StoreView {
            pool,
            bindings: bindings@.map_values(|b: Binding| b@),
            connections: ledger_view(connections@),
        };
        let s = Store { pool, bindings, connections };
        assert(s@ == given);
        let n: usize = s.bindings.len();
        if n as u64 > s.pool.size() {
            return None;
        }
        let mut i: usize = 0;
        while i < n
            invariant
                i <= n,
                n == s.bindings.len(),
                n <= s.pool.count(),
                s.pool.wf(),
                s@ == given,
                forall|a: int|
                    0 <= a < i ==> (#[trigger] s@.bindings[a]).ip.bits == s@.pool.first() + a,
                forall|a: int, b: int|
                    0 <= a < i && 0 <= b < a ==> (#[trigger] s@.bindings[a]).domain != (
                    #[trigger] s@.bindings[b]).domain,
            decreases n - i,
        {
            if s.bindings[i].ip != s.pool.nth(i as u64) {
                assert(s@.bindings[i as int].ip.bits != s@.pool.first() + i);
                return None;
            }
            let mut j: usize = 0;
            while j < i
                invariant
                    j <= i < n,
                    n == s.bindings.len(),
                    s@ == given,
                    forall|b: int|
                        0 <= b < j ==> s@.bindings[i as int].domain != (
                        #[trigger] s@.bindings[b]).domain,
                decreases i - j,
            {
                if s.bindings[i].domain == s.bindings[j].domain {
                    assert(s@.bindings[i as int].domain == s@.bindings[j as int].domain);
                    return None;
                }
                j = j + 1;
            }
            i = i + 1;
        }
        let m: usize = s.connections.len();
        let mut k: usize = 0;
        while k < m
            invariant
                k <= m,
                m == s.connections.len(),
                s@ == given,
                forall|a: int, b: int|
                    0 <= a < k && 0 <= b < a ==> (#[trigger] s@.connections[a]).id != (
                    #[trigger] s@.connections[b]).id,
                forall|a: int| 0 <= a < k ==> (#[trigger] s@.connections[a]).well_timed(),
            decreases m - k,
        {
            let mut j: usize = 0;
            while j < k
                invariant
                    j <= k < m,
                    m == s.connections.len(),
                    s@ == given,
                    forall|b: int|
                        0 <= b < j ==> s@.connections[k as int].id != (
                        #[trigger] s@.connections[b]).id,
                decreases k - j,
            {
                if s.connections[k].id == s.connections[j].id {
                    assert(s@.connections[k as int].id == s@.connections[j as int].id);
                    return None;
                }
                j = j + 1;
            }
            if s.connections[k].connect_time > s.connections[k].last_update {
                assert(!s@.connections[k as int].well_timed());
                return None;
            }
            k = k + 1;
        }
        proof {
            assert forall|a: int, b: int|
                0 <= a < s@.bindings.len() && 0 <= b < s@.bindings.len() && a != b implies (
            #[trigger] s@.bindings[a]).domain != (#[trigger] s@.bindings[b]).domain by {
                if a < b {
                    assert(s@.bindings[b].domain != s@.bindings[a].domain);
                }
            }
            assert forall|a: int, b: int|
                0 <= a < s@.connections.len() && 0 <= b < s@.connections.len() && a
                    != b implies (#[trigger] s@.connections[a]).id != (
            #[trigger] s@.connections[b]).id by {
                if a < b {
                    assert(s@.connections[b].id != s@.connections[a].id);
                }
            }
        }
        Some(s)
    }

    /// The bindings, in the order of their addresses.
    pub fn list_bindings(&self) -> (out: Vec<Binding>)
        ensures
            out@.map_values(|b: Binding| b@) == self@.bindings,
    {
        let mut out: Vec<Binding> = Vec::new();
        let n: usize = self.bindings.len();
        let mut i: usize = 0;
        while i < n
            invariant
                i <= n,
                n == self.bindings.len(),
                out.len() == i,
                forall|j: int| 0 <= j < i ==> (#[trigger] out@[j])@ == self.bindings@[j]@,
            decreases n - i,
        {
            let b = &self.bindings[i];
            out.push(Binding { domain: b.domain.clone(), ip: b.ip, created_at: b.created_at });
            i = i + 1;
        }
        assert(out@.map_values(|b: Binding| b@) =~= self@.bindings);
        out
    }

    /// The pool of this store.
    pub fn pool(&self) -> (p: Pool)
        ensures
            p == self@.pool,
    {
        self.pool
    }

    /// The place of the binding of `domain`, if it is bound.
    fn find_domain(&self, domain: &String) -> (r: Option<usize>)
        ensures
            match r {
                Some(i) => self@.binds(i as int, domain@),
                None => forall|i: int| !self@.binds(i, domain@),
            },
    {
        let n: usize = self.bindings.len();
        let mut i: usize = 0;
        while i < n
            invariant
                i <= n,
                n == self.bindings.len(),
                forall|j: int| 0 <= j < i ==> !self@.binds(j, domain@),
            decreases n - i,
        {
            if self.bindings[i].domain == *domain {
                return Some(i);
            }
            i = i + 1;
        }
        None
    }

    /// The place of the oldest binding that can be given up, if there is one.
    fn find_evictable(&self) -> (r: Option<usize>)
        ensures
            match r {
                Some(i) => self@.oldest_evictable(i as int),
                None => forall|i: int| !self@.evictable(i),
            },
    {
        let n: usize = self.bindings.len();
        let mut best: Option<usize> = None;
        let mut i: usize = 0;
        while i < n
            invariant
                i <= n,
                n == self.bindings.len(),
                match best {
                    Some(b) => b < i && self@.evictable(b as int) && forall|j: int|
                        0 <= j < i && #[trigger] self@.evictable(j) ==> self@.bindings[b as int].created_at
                            < self@.bindings[j].created_at || (self@.bindings[b as int].created_at
                            == self@.bindings[j].created_at && b <= j),
                    None => forall|j: int| 0 <= j < i ==> !self@.evictable(j),
                },
            decreases n - i,
        {
            if !ledger_uses(&self.connections, &self.bindings[i].domain) {
                assert(self@.evictable(i as int));
                let better = match best {
                    Some(b) => self.bindings[i].created_at < self.bindings[b].created_at,
                    None => true,
                };
                if better {
                    best = Some(i);
                }
            } else {
                assert(!self@.evictable(i as int));
            }
            i = i + 1;
        }
        best
    }

    /// The domain bound to `ip`: none where `ip` is not bound, be it inside
    /// the pool or outside.
    pub fn get_host_by_ipv4(&self, ip: Ipv4Address) -> (r: Option<String>)
        requires
            self.wf(),
        ensures
            match r {
                Some(d) => self@.host_of(ip) == Some(d@),
                None => self@.host_of(ip) is None,
            },
    {
        match self.pool.position(ip) {
            Some(k) => {
                if k < self.bindings.len() as u64 {
                    let i: usize = k as usize;
                    assert(self@.maps(i as int, ip));
                    proof {
                        let c = choose|c: int| self@.maps(c, ip);
                        assert(self@.bindings[c].ip.bits == self@.pool.first() + c);
                    }
                    Some(self.bindings[i].domain.clone())
                } else {
                    assert forall|j: int| !self@.maps(j, ip) by {
                        if 0 <= j < self@.bindings.len() {
                            assert(self@.bindings[j].ip.bits == self@.pool.first() + j);
                        }
                    }
                    None
                }
            },
            None => {
                assert forall|j: int| !self@.maps(j, ip) by {
                    if 0 <= j < self@.bindings.len() {
                        assert(self@.bindings[j].ip.bits == self@.pool.first() + j);
                    }
                }
                None
            },
        }
    }

    /// The address bound to `domain`, if it is bound. Nothing is allocated.
    pub fn lookup_ipv4(&self, domain: &str) -> (r: Option<Ipv4Address>)
        requires
            self.wf(),
        ensures
            r == self@.ip_of(domain@),
    {
        let name = domain.to_owned();
        match self.find_domain(&name) {
            Some(i) => {
                proof {
                    let c = choose|c: int| self@.binds(c, domain@);
                    assert(c == i);
                }
                Some(self.bindings[i].ip)
            },
            None => None,
        }
    }

    /// The address of `domain`, asked for at time `t`: a bound domain keeps
    /// its address; an unbound one is bound as `StoreView::bind` says. Fails
    /// exactly where the pool is exhausted.
    pub fn get_ipv4_by_host_at(&mut self, domain: &str, t: u64) -> (r: Result<
        Ipv4Address,
        StoreError,
    >)
        requires
            old(self).wf(),
        ensures
            final(self).wf(),
            (r, final(self)@) == old(self)@.bind(domain@, t),
            r is Ok ==> final(self)@.host_of(r->Ok_0) == Some(domain@) && final(self)@.ip_of(
                domain@,
            ) == Some(r->Ok_0) && final(self)@.pool.holds(r->Ok_0),
    {
        let name = domain.to_owned();
        let ghost before = self@;
        match self.find_domain(&name) {
            Some(i) => {
                proof {
                    let c = choose|c: int| before.binds(c, domain@);
                    assert(c == i);
                    lemma_round_trip(before);
                }
                return Ok(self.bindings[i].ip);
            },
            None => {},
        }
        let n: usize = self.bindings.len();
        if (n as u64) < self.pool.size() {
            let ip = self.pool.nth(n as u64);
            self.bindings.push(Binding { domain: name, ip, created_at: t });
            proof {
                assert(self@.bindings =~= before.extended(domain@, t).bindings);
                assert(self@ == before.extended(domain@, t));
                assert forall|a: int, b: int|
                    0 <= a < self@.bindings.len() && 0 <= b < self@.bindings.len() && a
                        != b implies (#[trigger] self@.bindings[a]).domain != (
                #[trigger] self@.bindings[b]).domain by {
                    assert(!before.binds(a, domain@) && !before.binds(b, domain@));
                }
                assert forall|a: int| 0 <= a < self@.bindings.len() implies (
                #[trigger] self@.bindings[a]).ip.bits == self@.pool.first() + a by {
                    if a < n {
                        assert(self@.bindings[a] == before.bindings[a]);
                    }
                }
                assert(self@.binds(n as int, domain@));
                assert(self@.maps(n as int, ip));
                lemma_round_trip(self@);
            }
            return Ok(ip);
        }
        match self.find_evictable() {
            Some(i) => {
                let ip = self.bindings[i].ip;
                self.bindings.set(i, Binding { domain: name, ip, created_at: t });
                proof {
                    let c = choose|c: int| before.oldest_evictable(c);
                    assert(before.evictable(c) && before.evictable(i as int));
                    assert(c == i);
                    assert(self@.bindings =~= before.rebound(i as int, domain@, t).bindings);
                    assert(self@ == before.rebound(i as int, domain@, t));
                    assert(self@.binds(i as int, domain@));
                    assert(self@.maps(i as int, ip));
                    assert forall|a: int, b: int|
                        0 <= a < self@.bindings.len() && 0 <= b < self@.bindings.len() && a
                            != b implies (#[trigger] self@.bindings[a]).domain != (
                    #[trigger] self@.bindings[b]).domain by {
                        assert(!before.binds(a, domain@) && !before.binds(b, domain@));
                    }
                    lemma_round_trip(self@);
                }
                Ok(ip)
            },
            None => {
                assert(forall|j: int| !before.oldest_evictable(j));
                Err(StoreError::PoolExhausted)
            },
        }
    }

    /// The address of `domain`, asked for at the present time, as
    /// `get_ipv4_by_host_at` gives it.
    pub fn get_ipv4_by_host(&mut self, domain: &str) -> (r: Result<Ipv4Address, StoreError>)
        requires
            old(self).wf(),
        ensures
            final(self).wf(),
            exists|t: u64| (r, final(self)@) == #[trigger] old(self)@.bind(domain@, t),
            r is Ok ==> final(self)@.host_of(r->Ok_0) == Some(domain@) && final(self)@.ip_of(
                domain@,
            ) == Some(r->Ok_0) && final(self)@.pool.holds(r->Ok_0),
    {
        let t: u64 = now();
        self.get_ipv4_by_host_at(domain, t)
    }
}

impl Store {
    /// Opens the record of flow `id` at time `t`. Fails, and changes
    /// nothing, where a record with this id exists already.
    pub fn new_connection_at(
        &mut self,
        id: u64,
        host: &str,
        network: &str,
        conn_type: &str,
        proxy_server: &str,
        t: u64,
    ) -> (r: Result<(), StoreError>)
        requires
            old(self).wf(),
        ensures
            final(self).wf(),
            final(self)@.pool == old(self)@.pool,
            final(self)@.bindings == old(self)@.bindings,
            r is Ok <==> !has_id(old(self)@.connections, id),
            r is Err ==> r == Err::<(), StoreError>(StoreError::LedgerWriteFailed),
            final(self)@.connections == with_open(
                old(self)@.connections,
                id,
                host@,
                network@,
                conn_type@,
                proxy_server@,
                t,
            ),
    {
        if ledger_has(&self.connections, id) {
            return Err(StoreError::LedgerWriteFailed);
        }
        ledger_open(&mut self.connections, id, host, network, conn_type, proxy_server, t);
        Ok(())
    }

    /// Opens the record of flow `id` at the present time, as
    /// `new_connection_at` does.
    pub fn new_connection(
        &mut self,
        id: u64,
        host: &str,
        network: &str,
        conn_type: &str,
        proxy_server: &str,
    ) -> (r: Result<(), StoreError>)
        requires
            old(self).wf(),
        ensures
            final(self).wf(),
            final(self)@.pool == old(self)@.pool,
            final(self)@.bindings == old(self)@.bindings,
            r is Ok <==> !has_id(old(self)@.connections, id),
            r is Err ==> r == Err::<(), StoreError>(StoreError::LedgerWriteFailed),
            exists|t: u64|
                final(self)@.connections == #[trigger] with_open(
                    old(self)@.connections,
                    id,
                    host@,
                    network@,
                    conn_type@,
                    proxy_server@,
                    t,
                ),
    {
        let t: u64 = now();
        self.new_connection_at(id, host, network, conn_type, proxy_server, t)
    }

    /// Records the progress of flow `id`: its byte counts, and `t` as the
    /// time of its last update. Where no record has this id nothing changes.
    pub fn update_connection_at(&mut self, id: u64, recv_bytes: u64, send_bytes: u64, t: u64) -> (r:
        Result<(), StoreError>)
        requires
            old(self).wf(),
        ensures
            final(self).wf(),
            r is Ok,
            final(self)@.pool == old(self)@.pool,
            final(self)@.bindings == old(self)@.bindings,
            final(self)@.connections == with_update(
                old(self)@.connections,
                id,
                recv_bytes,
                send_bytes,
                t,
            ),
    {
        ledger_update(&mut self.connections, id, recv_bytes, send_bytes, t);
        Ok(())
    }

    /// Records the progress of flow `id` as `update_connection_at` does, at
    /// `last_update` where it is given, else at the present time.
    pub fn update_connection(
        &mut self,
        id: u64,
        recv_bytes: u64,
        send_bytes: u64,
        last_update: Option<u64>,
    ) -> (r: Result<(), StoreError>)
        requires
            old(self).wf(),
        ensures
            final(self).wf(),
            r is Ok,
            final(self)@.pool == old(self)@.pool,
            final(self)@.bindings == old(self)@.bindings,
            last_update is Some ==> final(self)@.connections == with_update(
                old(self)@.connections,
                id,
                recv_bytes,
                send_bytes,
                last_update->0,
            ),
            last_update is None ==> exists|t: u64|
                final(self)@.connections == #[trigger] with_update(
                    old(self)@.connections,
                    id,
                    recv_bytes,
                    send_bytes,
                    t,
                ),
    {
        let t: u64 = match last_update {
            Some(t) => t,
            None => now(),
        };
        self.update_connection_at(id, recv_bytes, send_bytes, t)
    }

    /// Marks flow `id` as ended at time `t`. Where no record has this id
    /// nothing changes.
    pub fn shutdown_connection_at(&mut self, id: u64, t: u64) -> (r: Result<(), StoreError>)
        requires
            old(self).wf(),
        ensures
            final(self).wf(),
            r is Ok,
            final(self)@.pool == old(self)@.pool,
            final(self)@.bindings == old(self)@.bindings,
            final(self)@.connections == with_shutdown(old(self)@.connections, id, t),
    {
        ledger_shutdown(&mut self.connections, id, t);
        Ok(())
    }

    /// Marks flow `id` as ended at the present time, as
    /// `shutdown_connection_at` does.
    pub fn shutdown_connection(&mut self, id: u64) -> (r: Result<(), StoreError>)
        requires
            old(self).wf(),
        ensures
            final(self).wf(),
            r is Ok,
            final(self)@.pool == old(self)@.pool,
            final(self)@.bindings == old(self)@.bindings,
            exists|t: u64|
                final(self)@.connections == #[trigger] with_shutdown(old(self)@.connections, id, t),
    {
        let t: u64 = now();
        self.shutdown_connection_at(id, t)
    }

    /// Removes, at time `t`, the records that are dead and were last
    /// updated `timeout_secs` seconds ago or earlier.
    pub fn clear_dead_connections_at(&mut self, timeout_secs: u64, t: u64) -> (r: Result<
        (),
        StoreError,
    >)
        requires
            old(self).wf(),
        ensures
            final(self).wf(),
            r is Ok,
            final(self)@.pool == old(self)@.pool,
            final(self)@.bindings == old(self)@.bindings,
            final(self)@.connections == swept(old(self)@.connections, t, timeout_secs),
    {
        let kept = ledger_sweep(&self.connections, timeout_secs, t);
        self.connections = kept;
        Ok(())
    }

    /// Removes the records that are dead and were last updated
    /// `timeout_secs` seconds ago or earlier, by the present time.
    pub fn clear_dead_connections(&mut self, timeout_secs: u64) -> (r: Result<(), StoreError>)
        requires
            old(self).wf(),
        ensures
            final(self).wf(),
            r is Ok,
            final(self)@.pool == old(self)@.pool,
            final(self)@.bindings == old(self)@.bindings,
            exists|t: u64|
                final(self)@.connections == #[trigger] swept(
                    old(self)@.connections,
                    t,
                    timeout_secs,
                ),
    {
        let t: u64 = now();
        self.clear_dead_connections_at(timeout_secs, t)
    }

    /// The records of the ledger, in the order in which they were opened.
    pub fn list_connections(&self) -> (r: Result<Vec<Connection>, StoreError>)
        requires
            self.wf(),
        ensures
            r is Ok,
            ledger_view(r->Ok_0@) == self@.connections,
    {
        Ok(ledger_list(&self.connections))
    }
}

/// In a well-formed store the two lookups undo each other: a domain's
/// address leads back to the domain, and an address's domain to the address.
pub proof fn lemma_round_trip(s: StoreView)
    requires
        s.wf(),
    ensures
        forall|d: Seq<char>| #[trigger]
            s.ip_of(d) is Some ==> s.host_of(s.ip_of(d)->0) == Some(d) && s.pool.holds(
                s.ip_of(d)->0,
            ),
        forall|ip: Ipv4Address| #[trigger]
            s.host_of(ip) is Some ==> s.ip_of(s.host_of(ip)->0) == Some(ip) && s.pool.holds(ip),
        forall|i: int, d: Seq<char>| #[trigger] s.binds(i, d) ==> s.ip_of(d) == Some(s.bindings[i].ip),
        forall|i: int, ip: Ipv4Address| #[trigger]
            s.maps(i, ip) ==> s.host_of(ip) == Some(s.bindings[i].domain),
{
    assert forall|i: int, d: Seq<char>| #[trigger] s.binds(i, d) implies s.ip_of(d) == Some(
        s.bindings[i].ip,
    ) by {
        let c = choose|c: int| s.binds(c, d);
        assert(c == i);
    }
    assert forall|i: int, ip: Ipv4Address| #[trigger] s.maps(i, ip) implies s.host_of(ip) == Some(
        s.bindings[i].domain,
    ) by {
        let c = choose|c: int| s.maps(c, ip);
        assert(s.bindings[c].ip.bits == s.pool.first() + c);
        assert(s.bindings[i].ip.bits == s.pool.first() + i);
        assert(c == i);
    }
    assert forall|d: Seq<char>| #[trigger] s.ip_of(d) is Some implies s.host_of(s.ip_of(d)->0)
        == Some(d) && s.pool.holds(s.ip_of(d)->0) by {
        let c = choose|c: int| s.binds(c, d);
        assert(s.maps(c, s.bindings[c].ip));
        assert(s.bindings[c].ip.bits == s.pool.first() + c);
    }
    assert forall|ip: Ipv4Address| #[trigger] s.host_of(ip) is Some implies s.ip_of(
        s.host_of(ip)->0,
    ) == Some(ip) && s.pool.holds(ip) by {
        let c = choose|c: int| s.maps(c, ip);
        assert(s.binds(c, s.bindings[c].domain));
        assert(s.bindings[c].ip.bits == s.pool.first() + c);
    }
}

/// Binding keeps a well-formed store well formed; the address it gives lies
/// in the pool and is, afterwards, the address of the domain and of no other.
pub proof fn lemma_bind(s: StoreView, domain: Seq<char>, t: u64)
    requires
        s.wf(),
    ensures
        s.bind(domain, t).1.wf(),
        s.bind(domain, t).1.pool == s.pool,
        s.bind(domain, t).1.connections == s.connections,
        s.bind(domain, t).0 is Ok ==> {
            let ip = s.bind(domain, t).0->Ok_0;
            let next = s.bind(domain, t).1;
            &&& s.pool.holds(ip)
            &&& next.ip_of(domain) == Some(ip)
            &&& next.host_of(ip) == Some(domain)
        },
        s.bind(domain, t).0 is Err ==> s.bind(domain, t).1 == s,
{
    let (r, next) = s.bind(domain, t);
    if s.ip_of(domain) is Some {
        lemma_round_trip(s);
    } else if !s.full() {
        let n = s.bindings.len() as int;
        assert forall|a: int, b: int|
            0 <= a < next.bindings.len() && 0 <= b < next.bindings.len() && a != b implies (
        #[trigger] next.bindings[a]).domain != (#[trigger] next.bindings[b]).domain by {
            assert(!s.binds(a, domain) && !s.binds(b, domain));
        }
        assert forall|a: int| 0 <= a < next.bindings.len() implies (
        #[trigger] next.bindings[a]).ip.bits == next.pool.first() + a by {
            if a < n {
                assert(next.bindings[a] == s.bindings[a]);
            }
        }
        assert(next.binds(n, domain));
        assert(next.maps(n, next.bindings[n].ip));
        lemma_round_trip(next);
    } else if exists|i: int| s.oldest_evictable(i) {
        let i = choose|i: int| s.oldest_evictable(i);
        assert(s.evictable(i));
        assert forall|a: int, b: int|
            0 <= a < next.bindings.len() && 0 <= b < next.bindings.len() && a != b implies (
        #[trigger] next.bindings[a]).domain != (#[trigger] next.bindings[b]).domain by {
            assert(!s.binds(a, domain) && !s.binds(b, domain));
        }
        assert forall|a: int| 0 <= a < next.bindings.len() implies (
        #[trigger] next.bindings[a]).ip.bits == next.pool.first() + a by {
            assert(s.bindings[a].ip.bits == s.pool.first() + a);
        }
        assert(next.binds(i, domain));
        assert(next.maps(i, next.bindings[i].ip));
        lemma_round_trip(next);
    }
}

} // verus!
