use vstd::prelude::*;
use vstd::multiset::Multiset;

use chashmap::CHashMap;

use crate::types::SafeModuleCtx;
use crate::utils::{DEFAULT_IDLE_TIMEOUT, HARDKILL_TIMEOUT};

verus! {

broadcast use vstd::seq_lib::group_to_multiset_ensures;

#[verifier::external_type_specification]
#[verifier::external_body]
#[verifier::reject_recursive_types(K)]
#[verifier::reject_recursive_types(V)]
pub struct ExCHashMap<K, V>(CHashMap<K, V>);

/// The entries that a table of running applications holds: each is the key of
/// the application and what is kept of it.
pub uninterp spec fn table_contents(m: CHashMap<String, SafeModuleCtx>) -> Multiset<
    (Seq<char>, SafeModuleCtx),
>;

/// An entry of the table as a plain value.
pub open spec fn entry_view(e: (String, SafeModuleCtx)) -> (Seq<char>, SafeModuleCtx) {
    (e.0@, e.1)
}

/// Calls `CHashMap::into_iter` and collects what it hands out: each entry of the
/// table once, in an order that depends on the table's hashing, so only the
/// entries as a multiset are claimed.
#[verifier::external_body]
fn table_entries(m: CHashMap<String, SafeModuleCtx>) -> (v: Vec<(String, SafeModuleCtx)>)
    ensures
        v@.map_values(|e: (String, SafeModuleCtx)| entry_view(e)).to_multiset()
            == table_contents(m),
{
    m.into_iter().collect()
}

/// `r` is the interval between two sweeps for a table with these entries:
/// the smallest non-zero idle timeout, and never more than the default timeout.
pub open spec fn is_lowest_interval(entries: Multiset<(Seq<char>, SafeModuleCtx)>, r: u64) -> bool {
    &&& 0 < r <= DEFAULT_IDLE_TIMEOUT
    &&& forall|e: (Seq<char>, SafeModuleCtx)|
        #[trigger] entries.contains(e) && e.1.timeout > 0 ==> r <= e.1.timeout
    &&& r == DEFAULT_IDLE_TIMEOUT || exists|e: (Seq<char>, SafeModuleCtx)|
        #[trigger] entries.contains(e) && e.1.timeout == r
}

/// The seconds to wait between two sweeps of the table: the shortest idle
/// timeout of its applications, at most the default timeout.
pub fn determine_lowest_interval(cloned_tb: CHashMap<String, SafeModuleCtx>) -> (r: u64)
    ensures
        is_lowest_interval(table_contents(cloned_tb), r),
{
    let ghost contents = table_contents(cloned_tb);
    let v = table_entries(cloned_tb);
    let ghost es = v@.map_values(|e: (String, SafeModuleCtx)| entry_view(e));
    let mut lowest: u64 = DEFAULT_IDLE_TIMEOUT;
    let mut i: usize = 0;
    while i < v.len()
        invariant
            i <= v.len(),
            es == v@.map_values(|e: (String, SafeModuleCtx)| entry_view(e)),
            0 < lowest <= DEFAULT_IDLE_TIMEOUT,
            forall|j: int| 0 <= j < i && (#[trigger] es[j]).1.timeout > 0 ==> lowest <= es[j].1.timeout,
            lowest == DEFAULT_IDLE_TIMEOUT || exists|j: int| 0 <= j < i && (#[trigger] es[j]).1.timeout == lowest,
        decreases v.len() - i,
    {
        let t: u64 = v[i].1.timeout;
        assert(es[i as int].1.timeout == t);
        if t > 0 && t < lowest {
            lowest = t;
        }
        i = i + 1;
    }
    proof {
        assert forall|e: (Seq<char>, SafeModuleCtx)|
            #[trigger] contents.contains(e) && e.1.timeout > 0 implies lowest <= e.1.timeout by {
            assert(es.contains(e));
            let j: int = choose|j: int| 0 <= j < es.len() && es[j] == e;
            assert(es[j] == e);
        }
        if lowest != DEFAULT_IDLE_TIMEOUT {
            let j: int = choose|j: int| 0 <= j < i && (#[trigger] es[j]).1.timeout == lowest;
            assert(es.contains(es[j]));
            assert(contents.contains(es[j]));
        }
    }
    lowest
}

/// The timestamps of `ctx` can be summed as a sweep at time `now` sums them,
/// without leaving `u64`.
pub open spec fn stamps_fit(ctx: SafeModuleCtx, now: u64) -> bool {
    &&& ctx.timeout > 0 ==> ctx.lastreq + ctx.timeout <= u64::MAX
    &&& is_idle(ctx, now) ==> ctx.lastreq + ctx.timeout + HARDKILL_TIMEOUT <= u64::MAX
}

/// At time `now` the application has outlived its idle timeout. A timeout of 0
/// never expires.
pub open spec fn is_idle(ctx: SafeModuleCtx, now: u64) -> bool {
    ctx.timeout > 0 && ctx.lastreq + ctx.timeout < now
}

/// At time `now` the application has outlived its idle timeout by more than
/// the grace period, so it is killed without asking.
pub open spec fn is_long_idle(ctx: SafeModuleCtx, now: u64) -> bool {
    ctx.lastreq + ctx.timeout + HARDKILL_TIMEOUT < now
}

/// What a sweep does with one application.
#[derive(Clone, Copy, Debug, PartialEq, Eq, Structural)]
pub enum IdleAction {
    /// Leave it running.
    Keep,
    /// Ask it to stop (`kill`).
    Stop,
    /// Kill it (`kill -9`).
    ForceStop,
}

/// Decides what a sweep at time `now` does with the application `ctx`.
pub fn idle_action(ctx: &SafeModuleCtx, now: u64) -> (a: IdleAction)
    requires
        stamps_fit(*ctx, now),
    ensures
        !is_idle(*ctx, now) ==> a is Keep,
        is_idle(*ctx, now) && is_long_idle(*ctx, now) ==> a is ForceStop,
        is_idle(*ctx, now) && !is_long_idle(*ctx, now) ==> a is Stop,
        ctx.timeout == 0 || ctx.lastreq + ctx.timeout >= now ==> a is Keep,
        ctx.timeout > 0 && ctx.lastreq + ctx.timeout < now && ctx.lastreq + ctx.timeout
            + HARDKILL_TIMEOUT < now ==> a is ForceStop,
        ctx.timeout > 0 && ctx.lastreq + ctx.timeout < now && ctx.lastreq + ctx.timeout
            + HARDKILL_TIMEOUT >= now ==> a is Stop,
{
    if ctx.timeout > 0 && ctx.lastreq + ctx.timeout < now {
        if ctx.lastreq + ctx.timeout + HARDKILL_TIMEOUT < now {
            IdleAction::ForceStop
        } else {
            IdleAction::Stop
        }
    } else {
        IdleAction::Keep
    }
}

/// An application that a sweep stops: its key in the table, what the table
/// kept of it, and whether it is killed without asking.
pub struct KillOrder {
    pub key: String,
    pub ctx: SafeModuleCtx,
    pub force: bool,
}

/// The key and entry that an order stops, as plain values.
pub open spec fn order_entry(o: KillOrder) -> (Seq<char>, SafeModuleCtx) {
    (o.key@, o.ctx)
}

/// The applications of `snapshot` that a sweep at time `now` stops: exactly the
/// idle ones, each once, with `force` set for those idle past the grace period.
/// Gives nothing when the timestamps of some entry do not fit in `u64`.
pub fn plan_idle_kills(snapshot: CHashMap<String, SafeModuleCtx>, now: u64) -> (r: Option<Vec<KillOrder>>)
    ensures
        r is None <==> exists|e: (Seq<char>, SafeModuleCtx)|
            #[trigger] table_contents(snapshot).contains(e) && !stamps_fit(e.1, now),
        r matches Some(orders) ==> {
            &&& orders@.map_values(|o: KillOrder| order_entry(o)).to_multiset()
                =~= table_contents(snapshot).filter(|e: (Seq<char>, SafeModuleCtx)| is_idle(e.1, now))
            &&& forall|i: int| 0 <= i < orders.len() ==>
                (#[trigger] orders[i]).force == is_long_idle(orders[i].ctx, now)
        },
        r matches Some(orders) ==> forall|i: int| 0 <= i < orders.len() ==> {
            &&& table_contents(snapshot).contains(order_entry(#[trigger] orders[i]))
            &&& orders[i].ctx.timeout > 0
            &&& orders[i].ctx.lastreq + orders[i].ctx.timeout < now
            &&& orders[i].force == (orders[i].ctx.lastreq + orders[i].ctx.timeout + HARDKILL_TIMEOUT
                < now)
        },
        r matches Some(orders) ==> forall|e: (Seq<char>, SafeModuleCtx)|
            #[trigger] table_contents(snapshot).contains(e) && e.1.timeout > 0 && e.1.lastreq
                + e.1.timeout < now ==> exists|i: int|
                0 <= i < orders.len() && order_entry(#[trigger] orders[i]) == e,
{
    let ghost contents = table_contents(snapshot);
    let ghost idle = |e: (Seq<char>, SafeModuleCtx)| is_idle(e.1, now);
    let v = table_entries(snapshot);
    let ghost es = v@.map_values(|e: (String, SafeModuleCtx)| entry_view(e));
    let mut orders: Vec<KillOrder> = Vec::new();
    let mut i: usize = 0;
    while i < v.len()
        invariant
            i <= v.len(),
            es == v@.map_values(|e: (String, SafeModuleCtx)| entry_view(e)),
            idle == (|e: (Seq<char>, SafeModuleCtx)| is_idle(e.1, now)),
            contents == table_contents(snapshot),
            es.to_multiset() == contents,
            forall|j: int| 0 <= j < i ==> stamps_fit((#[trigger] es[j]).1, now),
            orders@.map_values(|o: KillOrder| order_entry(o)).to_multiset()
                =~= es.take(i as int).to_multiset().filter(idle),
            forall|j: int| 0 <= j < orders.len() ==>
                (#[trigger] orders[j]).force == is_long_idle(orders[j].ctx, now),
        decreases v.len() - i,
    {
        let ctx = v[i].1;
        let ghost e = es[i as int];
        assert(e == entry_view(v@[i as int]));
        assert(es.take(i + 1) =~= es.take(i as int).push(e));
        let ghost before = orders@.map_values(|o: KillOrder| order_entry(o));
        if ctx.timeout > 0 && ctx.lastreq > u64::MAX - ctx.timeout {
            proof {
                assert(es.contains(e));
                assert(contents.contains(e));
            }
            return None;
        }
        if ctx.timeout > 0 && ctx.lastreq + ctx.timeout < now {
            if ctx.lastreq + ctx.timeout > u64::MAX - HARDKILL_TIMEOUT {
                proof {
                    assert(es.contains(e));
                    assert(contents.contains(e));
                }
                return None;
            }
            let force = ctx.lastreq + ctx.timeout + HARDKILL_TIMEOUT < now;
            let key = v[i].0.clone();
            orders.push(KillOrder { key, ctx, force });
            proof {
                let after = orders@.map_values(|o: KillOrder| order_entry(o));
                assert(after =~= before.push(e));
                assert(idle(e));
            }
        } else {
            proof {
                let after = orders@.map_values(|o: KillOrder| order_entry(o));
                assert(after =~= before);
                assert(!idle(e));
            }
        }
        i = i + 1;
    }
    proof {
        assert(es.take(i as int) =~= es);
        assert forall|e: (Seq<char>, SafeModuleCtx)|
            #[trigger] contents.contains(e) implies stamps_fit(e.1, now) by {
            assert(es.contains(e));
            let j: int = choose|j: int| 0 <= j < es.len() && es[j] == e;
            assert(es[j] == e);
        }
        let ov = orders@.map_values(|o: KillOrder| order_entry(o));
        let idle_part = contents.filter(idle);
        assert(ov.to_multiset() =~= idle_part);
        assert forall|i: int| 0 <= i < orders.len() implies {
            &&& contents.contains(order_entry(#[trigger] orders[i]))
            &&& orders[i].ctx.timeout > 0
            &&& orders[i].ctx.lastreq + orders[i].ctx.timeout < now
        } by {
            let oe = order_entry(orders[i]);
            assert(ov[i] == oe);
            assert(ov.contains(oe));
            assert(ov.to_multiset().count(oe) > 0);
            assert(idle_part.count(oe) > 0);
            assert(idle(oe));
        }
        assert forall|e: (Seq<char>, SafeModuleCtx)|
            #[trigger] contents.contains(e) && e.1.timeout > 0 && e.1.lastreq + e.1.timeout
                < now implies exists|i: int|
            0 <= i < orders.len() && order_entry(#[trigger] orders[i]) == e by {
            assert(idle(e));
            assert(idle_part.count(e) > 0);
            assert(ov.to_multiset().count(e) > 0);
            assert(ov.contains(e));
            let i: int = choose|i: int| 0 <= i < ov.len() && ov[i] == e;
            assert(order_entry(orders[i]) == e);
        }
    }
    Some(orders)
}

/// Kills counted since the sweep interval was last computed, past which the
/// interval is computed again and the table shrunk.
pub const KILL_REFRESH_THRESHOLD: u64 = 100;

/// What the sweeping loop remembers between two sweeps.
pub struct KillerState {
    kill_count: u64,
    interval: u64,
}

impl KillerState {
    #[verifier::type_invariant]
    spec fn counted_below_threshold(self) -> bool {
        self.kill_count <= KILL_REFRESH_THRESHOLD
    }

    /// Kills counted since the interval was last computed.
    pub closed spec fn kills(self) -> nat {
        self.kill_count as nat
    }

    /// Seconds to wait between two sweeps.
    pub closed spec fn interval_secs(self) -> u64 {
        self.interval
    }

    /// The state before the first sweep, waiting `interval` seconds between sweeps.
    pub fn new(interval: u64) -> (s: KillerState)
        ensures
            s.kills() == 0,
            s.interval_secs() == interval,
    {
        KillerState { kill_count: 0, interval }
    }

    /// Seconds to wait before the next sweep.
    pub fn interval(&self) -> (r: u64)
        ensures
            r == self.interval_secs(),
    {
        self.interval
    }

    /// Kills counted since the interval was last computed; never above the threshold.
    pub fn kill_count(&self) -> (r: u64)
        ensures
            r == self.kills(),
            r <= KILL_REFRESH_THRESHOLD,
    {
        proof {
            use_type_invariant(self);
        }
        self.kill_count
    }

    /// Counts the `kills` of a sweep. When the count passes the threshold it
    /// starts again from 0, and the result says that the interval is due to be
    /// computed again.
    pub fn end_pass(&mut self, kills: usize) -> (refresh_due: bool)
        ensures
            refresh_due == (old(self).kills() + kills > KILL_REFRESH_THRESHOLD),
            refresh_due ==> final(self).kills() == 0,
            !refresh_due ==> final(self).kills() == old(self).kills() + kills,
            final(self).interval_secs() == old(self).interval_secs(),
    {
        proof {
            use_type_invariant(&*self);
        }
        if kills as u64 > KILL_REFRESH_THRESHOLD - self.kill_count {
            self.kill_count = 0;
            true
        } else {
            self.kill_count = self.kill_count + kills as u64;
            false
        }
    }

    /// Sets the interval to wait between sweeps.
    pub fn set_interval(&mut self, interval: u64)
        ensures
            final(self).interval_secs() == interval,
            final(self).kills() == old(self).kills(),
    {
        proof {
            use_type_invariant(&*self);
        }
        self.interval = interval;
    }
}

/// Law: an application whose idle timeout is 0 is never stopped by a sweep.
pub proof fn law_zero_timeout_never_stops(ctx: SafeModuleCtx, now: u64)
    requires
        ctx.timeout == 0,
    ensures
        !is_idle(ctx, now),
{
}

/// Law: an application whose entry records a request at time `now`, as a
/// reused or a newly started one does, is not stopped by a sweep at `now`.
pub proof fn law_fresh_entry_not_idle(ctx: SafeModuleCtx, now: u64)
    requires
        ctx.lastreq == now,
    ensures
        !is_idle(ctx, now),
{
}

/// Law: an application is idle exactly when it has a non-zero timeout and its
/// last request is more than that timeout before `now`; it is past the grace
/// period when that is so by more than `HARDKILL_TIMEOUT` seconds.
pub proof fn law_idle_is_own_timeout_passed(ctx: SafeModuleCtx, now: u64)
    ensures
        is_idle(ctx, now) <==> ctx.timeout > 0 && ctx.lastreq + ctx.timeout < now,
        is_long_idle(ctx, now) <==> ctx.lastreq + ctx.timeout + 60 < now,
{
}

} // verus!
