//! The connection ledger: one record per flow, with its byte counts and its
//! lifecycle from opening to the sweep that removes it.

use vstd::prelude::*;

verus! {

/// The record of one flow.
#[derive(Debug, Default, PartialEq)]
pub struct Connection {
    pub id: u64,
    pub host: String,
    pub network: String,
    pub conn_type: String,
    pub recv_bytes: u64,
    pub send_bytes: u64,
    pub proxy_server: String,
    pub connect_time: u64,
    pub last_update: u64,
    pub is_alive: bool,
}

/// What a `Connection` holds, with every text as a sequence of characters.
pub struct ConnectionView {
    pub id: u64,
    pub host: Seq<char>,
    pub network: Seq<char>,
    pub conn_type: Seq<char>,
    pub recv_bytes: u64,
    pub send_bytes: u64,
    pub proxy_server: Seq<char>,
    pub connect_time: u64,
    pub last_update: u64,
    pub is_alive: bool,
}

impl View for Connection {
    type V = ConnectionView;

    open spec fn view(&self) -> ConnectionView {
        ConnectionView {
            id: self.id,
            host: self.host@,
            network: self.network@,
            conn_type: self.conn_type@,
            recv_bytes: self.recv_bytes,
            send_bytes: self.send_bytes,
            proxy_server: self.proxy_server@,
            connect_time: self.connect_time,
            last_update: self.last_update,
            is_alive: self.is_alive,
        }
    }
}

/// The views of the records of a ledger.
pub open spec fn ledger_view(records: Seq<Connection>) -> Seq<ConnectionView> {
    records.map_values(|c: Connection| c@)
}

/// The record of a flow as it is opened at time `t`: alive, nothing
/// transferred yet.
pub open spec fn opened(
    id: u64,
    host: Seq<char>,
    network: Seq<char>,
    conn_type: Seq<char>,
    proxy_server: Seq<char>,
    t: u64,
) -> ConnectionView {
    ConnectionView {
        id,
        host,
        network,
        conn_type,
        recv_bytes: 0,
        send_bytes: 0,
        proxy_server,
        connect_time: t,
        last_update: t,
        is_alive: true,
    }
}

/// The later of two times.
pub open spec fn later(a: u64, b: u64) -> u64 {
    if a >= b {
        a
    } else {
        b
    }
}

impl ConnectionView {
    /// The record after a progress report at time `t`. A record is never
    /// updated before it was opened: a time before its opening counts as
    /// the time of its opening.
    pub open spec fn touched(self, recv_bytes: u64, send_bytes: u64, t: u64) -> ConnectionView {
        ConnectionView { recv_bytes, send_bytes, last_update: later(t, self.connect_time), ..self }
    }

    /// The record after the flow has ended at time `t`; a time before its
    /// opening counts as the time of its opening.
    pub open spec fn ended(self, t: u64) -> ConnectionView {
        ConnectionView { is_alive: false, last_update: later(t, self.connect_time), ..self }
    }

    /// The record is dead and has been so for at least `timeout` seconds at
    /// time `t`.
    pub open spec fn expired(self, t: u64, timeout: u64) -> bool {
        !self.is_alive && self.last_update + timeout <= t
    }

    /// The record was not updated before it was opened.
    pub open spec fn well_timed(self) -> bool {
        self.connect_time <= self.last_update
    }
}

/// Some record of the ledger has this id.
pub open spec fn has_id(ledger: Seq<ConnectionView>, id: u64) -> bool {
    exists|i: int| 0 <= i < ledger.len() && #[trigger] ledger[i].id == id
}

/// No two records of the ledger have the same id.
pub open spec fn distinct_ids(ledger: Seq<ConnectionView>) -> bool {
    forall|i: int, j: int|
        0 <= i < ledger.len() && 0 <= j < ledger.len() && i != j ==> #[trigger] ledger[i].id
            != #[trigger] ledger[j].id
}

/// The ledger is well formed: its ids are distinct and every record is
/// well timed.
pub open spec fn ledger_wf(ledger: Seq<ConnectionView>) -> bool {
    &&& distinct_ids(ledger)
    &&& forall|i: int| 0 <= i < ledger.len() ==> (#[trigger] ledger[i]).well_timed()
}

/// The ledger after a progress report for `id`: the record with that id is
/// touched, the others are as they were.
pub open spec fn with_update(
    ledger: Seq<ConnectionView>,
    id: u64,
    recv_bytes: u64,
    send_bytes: u64,
    t: u64,
) -> Seq<ConnectionView> {
    ledger.map_values(
        |c: ConnectionView|
            if c.id == id {
                c.touched(recv_bytes, send_bytes, t)
            } else {
                c
            },
    )
}

/// The ledger after the flow `id` has ended: the record with that id is
/// ended, the others are as they were.
pub open spec fn with_shutdown(ledger: Seq<ConnectionView>, id: u64, t: u64) -> Seq<
    ConnectionView,
> {
    ledger.map_values(
        |c: ConnectionView|
            if c.id == id {
                c.ended(t)
            } else {
                c
            },
    )
}

/// The ledger after a sweep at time `t`: the records that are not expired,
/// in their order.
pub open spec fn swept(ledger: Seq<ConnectionView>, t: u64, timeout: u64) -> Seq<ConnectionView>
    decreases ledger.len(),
{
    if ledger.len() == 0 {
        Seq::empty()
    } else {
        let rest = swept(ledger.drop_last(), t, timeout);
        if ledger.last().expired(t, timeout) {
            rest
        } else {
            rest.push(ledger.last())
        }
    }
}

/// Some live record of the ledger names `host`.
pub open spec fn in_use(ledger: Seq<ConnectionView>, host: Seq<char>) -> bool {
    exists|i: int|
        0 <= i < ledger.len() && (#[trigger] ledger[i]).is_alive && ledger[i].host == host
}

impl Connection {
    /// A copy of this record.
    pub fn duplicate(&self) -> (r: Connection)
        ensures
            r@ == self@,
    {
        Connection {
            id: self.id,
            host: self.host.clone(),
            network: self.network.clone(),
            conn_type: self.conn_type.clone(),
            recv_bytes: self.recv_bytes,
            send_bytes: self.send_bytes,
            proxy_server: self.proxy_server.clone(),
            connect_time: self.connect_time,
            last_update: self.last_update,
            is_alive: self.is_alive,
        }
    }
}

/// Whether some record has this id.
pub(crate) fn ledger_has(records: &Vec<Connection>, id: u64) -> (r: bool)
    ensures
        r == has_id(ledger_view(records@), id),
{
    let n: usize = records.len();
    let mut i: usize = 0;
    while i < n
        invariant
            i <= n,
            n == records.len(),
            forall|j: int| 0 <= j < i ==> (#[trigger] ledger_view(records@)[j]).id != id,
        decreases n - i,
    {
        if records[i].id == id {
            assert(ledger_view(records@)[i as int].id == id);
            return true;
        }
        i = i + 1;
    }
    false
}

/// Whether some live record names `host`.
pub(crate) fn ledger_uses(records: &Vec<Connection>, host: &String) -> (r: bool)
    ensures
        r == in_use(ledger_view(records@), host@),
{
    let n: usize = records.len();
    let mut i: usize = 0;
    while i < n
        invariant
            i <= n,
            n == records.len(),
            forall|j: int|
                0 <= j < i ==> !((#[trigger] ledger_view(records@)[j]).is_alive && ledger_view(
                    records@,
                )[j].host == host@),
        decreases n - i,
    {
        if records[i].is_alive && records[i].host == *host {
            assert(ledger_view(records@)[i as int].is_alive);
            return true;
        }
        i = i + 1;
    }
    false
}

/// Appends the record of flow `id`, opened at time `t`.
pub(crate) fn ledger_open(
    records: &mut Vec<Connection>,
    id: u64,
    host: &str,
    network: &str,
    conn_type: &str,
    proxy_server: &str,
    t: u64,
)
    requires
        ledger_wf(ledger_view(old(records)@)),
        !has_id(ledger_view(old(records)@), id),
    ensures
        ledger_wf(ledger_view(final(records)@)),
        ledger_view(final(records)@) == ledger_view(old(records)@).push(
            opened(id, host@, network@, conn_type@, proxy_server@, t),
        ),
{
    let record = Connection {
        id,
        host: host.to_owned(),
        network: network.to_owned(),
        conn_type: conn_type.to_owned(),
        recv_bytes: 0,
        send_bytes: 0,
        proxy_server: proxy_server.to_owned(),
        connect_time: t,
        last_update: t,
        is_alive: true,
    };
    let ghost before = ledger_view(records@);
    records.push(record);
    assert(ledger_view(records@) =~= before.push(
        opened(id, host@, network@, conn_type@, proxy_server@, t),
    ));
}

/// Touches the record of flow `id`.
pub(crate) fn ledger_update(
    records: &mut Vec<Connection>,
    id: u64,
    recv_bytes: u64,
    send_bytes: u64,
    t: u64,
)
    requires
        ledger_wf(ledger_view(old(records)@)),
    ensures
        ledger_wf(ledger_view(final(records)@)),
        ledger_view(final(records)@) == with_update(
            ledger_view(old(records)@),
            id,
            recv_bytes,
            send_bytes,
            t,
        ),
{
    let ghost before = ledger_view(records@);
    let n: usize = records.len();
    let mut i: usize = 0;
    while i < n
        invariant
            i <= n,
            n == records.len(),
            before.len() == n,
            forall|j: int|
                0 <= j < i ==> (#[trigger] ledger_view(records@)[j]) == with_update(
                    before,
                    id,
                    recv_bytes,
                    send_bytes,
                    t,
                )[j],
            forall|j: int| i <= j < n ==> (#[trigger] ledger_view(records@)[j]) == before[j],
        decreases n - i,
    {
        assert(ledger_view(records@)[i as int] == records[i as int]@);
        if records[i].id == id {
            let ghost prior = ledger_view(records@);
            let mut record = records[i].duplicate();
            record.recv_bytes = recv_bytes;
            record.send_bytes = send_bytes;
            record.last_update = if t >= record.connect_time {
                t
            } else {
                record.connect_time
            };
            let ghost changed = record@;
            records.set(i, record);
            assert(forall|j: int|
                0 <= j < n && j != i ==> (#[trigger] ledger_view(records@)[j]) == prior[j]);
            assert(ledger_view(records@)[i as int] == changed);
        }
        i = i + 1;
    }
    assert(ledger_view(records@) =~= with_update(before, id, recv_bytes, send_bytes, t));
    proof {
        let after = ledger_view(records@);
        assert forall|a: int, b: int| 0 <= a < n && 0 <= b < n && a != b implies (
        #[trigger] after[a]).id != (#[trigger] after[b]).id by {
            assert(after[a].id == before[a].id);
            assert(after[b].id == before[b].id);
        }
        assert forall|a: int| 0 <= a < n implies (#[trigger] after[a]).well_timed() by {
            assert(before[a].well_timed());
        }
    }
}

/// Ends the record of flow `id`.
pub(crate) fn ledger_shutdown(records: &mut Vec<Connection>, id: u64, t: u64)
    requires
        ledger_wf(ledger_view(old(records)@)),
    ensures
        ledger_wf(ledger_view(final(records)@)),
        ledger_view(final(records)@) == with_shutdown(ledger_view(old(records)@), id, t),
{
    let ghost before = ledger_view(records@);
    let n: usize = records.len();
    let mut i: usize = 0;
    while i < n
        invariant
            i <= n,
            n == records.len(),
            before.len() == n,
            forall|j: int|
                0 <= j < i ==> (#[trigger] ledger_view(records@)[j]) == with_shutdown(
                    before,
                    id,
                    t,
                )[j],
            forall|j: int| i <= j < n ==> (#[trigger] ledger_view(records@)[j]) == before[j],
        decreases n - i,
    {
        assert(ledger_view(records@)[i as int] == records[i as int]@);
        if records[i].id == id {
            let ghost prior = ledger_view(records@);
            let mut record = records[i].duplicate();
            record.is_alive = false;
            record.last_update = if t >= record.connect_time {
                t
            } else {
                record.connect_time
            };
            let ghost changed = record@;
            records.set(i, record);
            assert(forall|j: int|
                0 <= j < n && j != i ==> (#[trigger] ledger_view(records@)[j]) == prior[j]);
            assert(ledger_view(records@)[i as int] == changed);
        }
        i = i + 1;
    }
    assert(ledger_view(records@) =~= with_shutdown(before, id, t));
    proof {
        let after = ledger_view(records@);
        assert forall|a: int, b: int| 0 <= a < n && 0 <= b < n && a != b implies (
        #[trigger] after[a]).id != (#[trigger] after[b]).id by {
            assert(after[a].id == before[a].id);
            assert(after[b].id == before[b].id);
        }
        assert forall|a: int| 0 <= a < n implies (#[trigger] after[a]).well_timed() by {
            assert(before[a].well_timed());
        }
    }
}

/// The records that a sweep at time `t` keeps.
pub(crate) fn ledger_sweep(records: &Vec<Connection>, timeout_secs: u64, t: u64) -> (kept: Vec<
    Connection,
>)
    requires
        ledger_wf(ledger_view(records@)),
    ensures
        ledger_wf(ledger_view(kept@)),
        ledger_view(kept@) == swept(ledger_view(records@), t, timeout_secs),
{
    let ghost before = ledger_view(records@);
    let mut kept: Vec<Connection> = Vec::new();
    let n: usize = records.len();
    let mut i: usize = 0;
    assert(before.take(0) =~= Seq::<ConnectionView>::empty());
    assert(ledger_view(kept@) =~= Seq::<ConnectionView>::empty());
    while i < n
        invariant
            i <= n,
            n == records.len(),
            before == ledger_view(records@),
            ledger_view(kept@) == swept(before.take(i as int), t, timeout_secs),
        decreases n - i,
    {
        assert(before.take(i + 1).drop_last() =~= before.take(i as int));
        assert(before.take(i + 1).last() == records[i as int]@);
        let c = &records[i];
        let expired = !c.is_alive && c.last_update <= t && timeout_secs <= t - c.last_update;
        if !expired {
            let ghost prior = ledger_view(kept@);
            kept.push(c.duplicate());
            assert(ledger_view(kept@) =~= prior.push(c@));
        }
        i = i + 1;
    }
    assert(before.take(n as int) =~= before);
    proof {
        lemma_swept_is_part(before, t, timeout_secs);
    }
    kept
}

/// A copy of the records.
pub(crate) fn ledger_list(records: &Vec<Connection>) -> (out: Vec<Connection>)
    ensures
        ledger_view(out@) == ledger_view(records@),
{
    let mut out: Vec<Connection> = Vec::new();
    let n: usize = records.len();
    let mut i: usize = 0;
    while i < n
        invariant
            i <= n,
            n == records.len(),
            out.len() == i,
            forall|j: int| 0 <= j < i ==> (#[trigger] out@[j])@ == records@[j]@,
        decreases n - i,
    {
        out.push(records[i].duplicate());
        i = i + 1;
    }
    assert(ledger_view(out@) =~= ledger_view(records@));
    out
}

/// Every record that a sweep keeps is a record of the ledger, and a sweep
/// of a well-formed ledger is well formed.
pub proof fn lemma_swept_is_part(ledger: Seq<ConnectionView>, t: u64, timeout: u64)
    ensures
        swept(ledger, t, timeout).len() <= ledger.len(),
        forall|i: int|
            0 <= i < swept(ledger, t, timeout).len() ==> exists|j: int|
                0 <= j < ledger.len() && ledger[j] == #[trigger] swept(ledger, t, timeout)[i],
        distinct_ids(ledger) ==> distinct_ids(swept(ledger, t, timeout)),
        ledger_wf(ledger) ==> ledger_wf(swept(ledger, t, timeout)),
    decreases ledger.len(),
{
    let s = swept(ledger, t, timeout);
    if ledger.len() > 0 {
        let front = ledger.drop_last();
        let rest = swept(front, t, timeout);
        lemma_swept_is_part(front, t, timeout);
        assert forall|i: int| 0 <= i < s.len() implies exists|j: int|
            0 <= j < ledger.len() && ledger[j] == #[trigger] s[i] by {
            if i < rest.len() {
                let j = choose|j: int| 0 <= j < front.len() && front[j] == rest[i];
                assert(ledger[j] == s[i]);
            } else {
                assert(ledger[ledger.len() - 1] == s[i]);
            }
        }
        if ledger_wf(ledger) {
            assert forall|i: int| 0 <= i < s.len() implies (#[trigger] s[i]).well_timed() by {
                let j = choose|j: int| 0 <= j < ledger.len() && ledger[j] == s[i];
                assert(ledger[j].well_timed());
            }
        }
        if distinct_ids(ledger) {
            assert(distinct_ids(front)) by {
                assert forall|i: int, j: int|
                    0 <= i < front.len() && 0 <= j < front.len() && i != j implies (
                #[trigger] front[i]).id != (#[trigger] front[j]).id by {
                    assert(front[i] == ledger[i] && front[j] == ledger[j]);
                }
            }
            assert forall|a: int, b: int| 0 <= a < s.len() && 0 <= b < s.len() && a != b implies (
            #[trigger] s[a]).id != (#[trigger] s[b]).id by {
                if a < rest.len() && b < rest.len() {
                    assert(rest[a].id != rest[b].id);
                } else {
                    let inner = if a < rest.len() {
                        a
                    } else {
                        b
                    };
                    let j = choose|j: int| 0 <= j < front.len() && front[j] == rest[inner];
                    assert(ledger[j] == s[inner]);
                    assert(ledger[ledger.len() - 1] == s[s.len() - 1]);
                    assert(ledger[j].id != ledger[ledger.len() - 1].id);
                }
            }
        }
    }
}

/// The ledger after an attempt to open the record of flow `id`: with the
/// new record at its end, or unchanged where the id was in use.
pub open spec fn with_open(
    ledger: Seq<ConnectionView>,
    id: u64,
    host: Seq<char>,
    network: Seq<char>,
    conn_type: Seq<char>,
    proxy_server: Seq<char>,
    t: u64,
) -> Seq<ConnectionView> {
    if has_id(ledger, id) {
        ledger
    } else {
        ledger.push(opened(id, host, network, conn_type, proxy_server, t))
    }
}

/// After a flow was opened and then ended, the ledger has a record with
/// its id, and no record with its id is alive. Where the id was new, the
/// ledger is what it was with the flow's ended record appended.
pub proof fn lemma_open_then_shutdown(
    ledger: Seq<ConnectionView>,
    id: u64,
    host: Seq<char>,
    network: Seq<char>,
    conn_type: Seq<char>,
    proxy_server: Seq<char>,
    t_open: u64,
    t_end: u64,
)
    ensures
        ({
            let record = opened(id, host, network, conn_type, proxy_server, t_open);
            let after = with_shutdown(
                with_open(ledger, id, host, network, conn_type, proxy_server, t_open),
                id,
                t_end,
            );
            &&& has_id(after, id)
            &&& forall|i: int| 0 <= i < after.len() && after[i].id == id ==> !after[i].is_alive
            &&& !has_id(ledger, id) ==> after == ledger.push(record.ended(t_end))
        }),
{
    let record = opened(id, host, network, conn_type, proxy_server, t_open);
    let open = with_open(ledger, id, host, network, conn_type, proxy_server, t_open);
    let after = with_shutdown(open, id, t_end);
    if has_id(ledger, id) {
        let i = choose|i: int| 0 <= i < ledger.len() && #[trigger] ledger[i].id == id;
        assert(after[i].id == id);
    } else {
        assert(open.last().id == id);
        assert(after[after.len() - 1].id == id);
        assert forall|i: int| 0 <= i < ledger.len() implies after[i] == ledger[i] by {
            assert(ledger[i].id != id);
        }
        assert(after =~= ledger.push(record.ended(t_end)));
    }
}

/// Ending a flow twice is ending it once, at the later of the two calls.
pub proof fn lemma_shutdown_idempotent(ledger: Seq<ConnectionView>, id: u64, t1: u64, t2: u64)
    ensures
        with_shutdown(with_shutdown(ledger, id, t1), id, t2) == with_shutdown(ledger, id, t2),
        with_shutdown(with_shutdown(ledger, id, t1), id, t1) == with_shutdown(ledger, id, t1),
{
    assert(with_shutdown(with_shutdown(ledger, id, t1), id, t2) =~= with_shutdown(ledger, id, t2));
    assert(with_shutdown(with_shutdown(ledger, id, t1), id, t1) =~= with_shutdown(ledger, id, t1));
}

/// A record is opened well timed, and is well timed after every report
/// and after its end, whatever time is given.
pub proof fn lemma_times_stay_ordered(c: ConnectionView, recv_bytes: u64, send_bytes: u64, t: u64)
    ensures
        opened(c.id, c.host, c.network, c.conn_type, c.proxy_server, t).well_timed(),
        c.touched(recv_bytes, send_bytes, t).well_timed(),
        c.ended(t).well_timed(),
{
}

/// Neither a progress report nor the end of a flow, its own or another's,
/// brings a dead record back to life or changes which flow it records.
pub proof fn lemma_dead_stay_dead(
    ledger: Seq<ConnectionView>,
    id: u64,
    recv_bytes: u64,
    send_bytes: u64,
    t: u64,
)
    ensures
        with_update(ledger, id, recv_bytes, send_bytes, t).len() == ledger.len(),
        with_shutdown(ledger, id, t).len() == ledger.len(),
        forall|i: int|
            0 <= i < ledger.len() ==> {
                let c = #[trigger] ledger[i];
                let u = with_update(ledger, id, recv_bytes, send_bytes, t)[i];
                let s = with_shutdown(ledger, id, t)[i];
                &&& u.id == c.id && s.id == c.id
                &&& u.connect_time == c.connect_time && s.connect_time == c.connect_time
                &&& u.is_alive == c.is_alive
                &&& s.is_alive ==> c.is_alive
            },
{
}

/// The ledger after the flows `ids` have ended, one after the other, the
/// `k`-th at time `times[k]`.
pub open spec fn shutdown_each(ledger: Seq<ConnectionView>, ids: Seq<u64>, times: Seq<u64>) -> Seq<
    ConnectionView,
>
    decreases ids.len(),
{
    if ids.len() == 0 {
        ledger
    } else {
        with_shutdown(
            shutdown_each(ledger, ids.drop_last(), times.drop_last()),
            ids.last(),
            times.last(),
        )
    }
}

/// The number of records that a sweep at time `t` removes.
pub open spec fn expired_count(ledger: Seq<ConnectionView>, t: u64, timeout: u64) -> nat
    decreases ledger.len(),
{
    if ledger.len() == 0 {
        0
    } else {
        expired_count(ledger.drop_last(), t, timeout) + if ledger.last().expired(t, timeout) {
            1nat
        } else {
            0nat
        }
    }
}

/// A sweep keeps the records that it does not remove.
pub proof fn lemma_swept_len(ledger: Seq<ConnectionView>, t: u64, timeout: u64)
    ensures
        swept(ledger, t, timeout).len() + expired_count(ledger, t, timeout) == ledger.len(),
    decreases ledger.len(),
{
    if ledger.len() > 0 {
        lemma_swept_len(ledger.drop_last(), t, timeout);
    }
}

/// Where the expired records of a ledger with distinct ids are those whose
/// id is in `dead`, and every id in `dead` is in the ledger, there are as
/// many expired records as ids in `dead`.
proof fn lemma_expired_count(ledger: Seq<ConnectionView>, dead: Set<u64>, t: u64, timeout: u64)
    requires
        distinct_ids(ledger),
        dead.finite(),
        forall|i: int|
            0 <= i < ledger.len() ==> ((#[trigger] ledger[i]).expired(t, timeout) <==> dead.contains(
                ledger[i].id,
            )),
        forall|x: u64| dead.contains(x) ==> has_id(ledger, x),
    ensures
        expired_count(ledger, t, timeout) == dead.len(),
    decreases ledger.len(),
{
    if ledger.len() == 0 {
        assert forall|x: u64| !dead.contains(x) by {
            if dead.contains(x) {
                assert(has_id(ledger, x));
            }
        }
        assert(dead =~= Set::<u64>::empty());
    } else {
        let front = ledger.drop_last();
        let last = ledger.last();
        let n = ledger.len() - 1;
        let rest = if last.expired(t, timeout) {
            dead.remove(last.id)
        } else {
            dead
        };
        assert(ledger[n] == last);
        assert forall|i: int, j: int|
            0 <= i < front.len() && 0 <= j < front.len() && i != j implies (#[trigger] front[i]).id != (
        #[trigger] front[j]).id by {
            assert(front[i] == ledger[i] && front[j] == ledger[j]);
        }
        assert forall|i: int| 0 <= i < front.len() implies ((#[trigger] front[i]).expired(t, timeout)
            <==> rest.contains(front[i].id)) by {
            assert(front[i] == ledger[i]);
            assert(ledger[i].id != ledger[n].id);
        }
        assert forall|x: u64| rest.contains(x) implies has_id(front, x) by {
            assert(has_id(ledger, x));
            let j = choose|j: int| 0 <= j < ledger.len() && #[trigger] ledger[j].id == x;
            assert(x != last.id);
            assert(j < n);
            assert(front[j].id == x);
        }
        lemma_expired_count(front, rest, t, timeout);
    }
}

/// What ending the flows `ids` one after the other leaves of a ledger:
/// every record in its place under its id; alive if it was and its id is
/// not among `ids`; if its id is among them, last updated at one of the
/// given times or at its opening.
proof fn lemma_shutdown_each(ledger: Seq<ConnectionView>, ids: Seq<u64>, times: Seq<u64>)
    requires
        ids.len() == times.len(),
    ensures
        shutdown_each(ledger, ids, times).len() == ledger.len(),
        forall|i: int|
            0 <= i < ledger.len() ==> {
                let c = #[trigger] shutdown_each(ledger, ids, times)[i];
                &&& c.id == ledger[i].id
                &&& c.is_alive == (ledger[i].is_alive && !ids.contains(c.id))
                &&& c.connect_time == ledger[i].connect_time
                &&& ids.contains(c.id) ==> exists|k: int|
                    0 <= k < times.len() && c.last_update == later(
                        #[trigger] times[k],
                        c.connect_time,
                    )
            },
    decreases ids.len(),
{
    if ids.len() > 0 {
        let front_ids = ids.drop_last();
        let front_times = times.drop_last();
        let before = shutdown_each(ledger, front_ids, front_times);
        let after = shutdown_each(ledger, ids, times);
        lemma_shutdown_each(ledger, front_ids, front_times);
        assert forall|i: int| 0 <= i < ledger.len() implies {
            let c = #[trigger] after[i];
            &&& c.id == ledger[i].id
            &&& c.is_alive == (ledger[i].is_alive && !ids.contains(c.id))
            &&& c.connect_time == ledger[i].connect_time
            &&& ids.contains(c.id) ==> exists|k: int|
                0 <= k < times.len() && c.last_update == later(#[trigger] times[k], c.connect_time)
        } by {
            let c = after[i];
            let b = before[i];
            assert(b.id == ledger[i].id);
            assert(ids =~= front_ids.push(ids.last()));
            if b.id == ids.last() {
                assert(ids[ids.len() - 1] == b.id);
                assert(c.last_update == later(times[times.len() - 1], c.connect_time));
            } else {
                assert(c == b);
                if ids.contains(c.id) {
                    let m = choose|m: int| 0 <= m < ids.len() && ids[m] == c.id;
                    assert(front_ids[m] == c.id);
                    let k = choose|k: int|
                        0 <= k < front_times.len() && b.last_update == later(
                            #[trigger] front_times[k],
                            b.connect_time,
                        );
                    assert(times[k] == front_times[k]);
                } else {
                    assert forall|m: int| 0 <= m < front_ids.len() implies front_ids[m] != c.id by {
                        assert(ids[m] == front_ids[m]);
                    }
                }
                if front_ids.contains(c.id) {
                    let m = choose|m: int| 0 <= m < front_ids.len() && front_ids[m] == c.id;
                    assert(ids[m] == c.id);
                }
            }
        }
    }
}

/// Of a ledger of live flows with distinct ids, none opened later than
/// time `t`, after some of the flows have ended, none later than `t`, a
/// sweep at time `t` with no grace period leaves as many records as flows
/// have not ended.
pub proof fn lemma_sweep_leaves_the_living(
    ledger: Seq<ConnectionView>,
    ids: Seq<u64>,
    times: Seq<u64>,
    t: u64,
)
    requires
        distinct_ids(ledger),
        forall|i: int|
            0 <= i < ledger.len() ==> (#[trigger] ledger[i]).is_alive && ledger[i].connect_time <= t,
        ids.no_duplicates(),
        forall|k: int| 0 <= k < ids.len() ==> has_id(ledger, #[trigger] ids[k]),
        times.len() == ids.len(),
        forall|k: int| 0 <= k < times.len() ==> #[trigger] times[k] <= t,
    ensures
        swept(shutdown_each(ledger, ids, times), t, 0).len() == ledger.len() - ids.len(),
{
    let after = shutdown_each(ledger, ids, times);
    let dead = ids.to_set();
    lemma_shutdown_each(ledger, ids, times);
    ids.unique_seq_to_set();
    assert forall|i: int, j: int|
        0 <= i < after.len() && 0 <= j < after.len() && i != j implies (#[trigger] after[i]).id != (
    #[trigger] after[j]).id by {
        assert(after[i].id == ledger[i].id && after[j].id == ledger[j].id);
    }
    assert forall|i: int| 0 <= i < after.len() implies ((#[trigger] after[i]).expired(t, 0)
        <==> dead.contains(after[i].id)) by {
        let c = after[i];
        assert(ledger[i].is_alive);
        if ids.contains(c.id) {
            let k = choose|k: int|
                0 <= k < times.len() && c.last_update == later(#[trigger] times[k], c.connect_time);
            assert(times[k] <= t);
            assert(c.connect_time == ledger[i].connect_time);
        }
    }
    assert forall|x: u64| dead.contains(x) implies has_id(after, x) by {
        let k = choose|k: int| 0 <= k < ids.len() && ids[k] == x;
        assert(has_id(ledger, ids[k]));
        let j = choose|j: int| 0 <= j < ledger.len() && #[trigger] ledger[j].id == x;
        assert(after[j].id == x);
    }
    lemma_expired_count(after, dead, t, 0);
    lemma_swept_len(after, t, 0);
}

} // verus!
