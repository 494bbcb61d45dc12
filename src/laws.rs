//! What holds of the manager's model across operations.
use vstd::prelude::*;

use crate::server_manager::{
    active_at, has_serial, idle_at, is_idle, lemma_pooled_count_push, lemma_serial_unique,
    lemma_session_id_has_serial, pooled_count, PoolView, SessionView,
};

verus! {

broadcast use vstd::seq_lib::group_filter_ensures;

/// A new session, with the next serial number and a port no tracked worker
/// holds, keeps ids and ports apart.
proof fn lemma_push_session<W>(v: PoolView<W>, warm: Seq<(W, u16)>, x: SessionView<W>)
    requires
        v.distinct(),
        warm.len() <= v.warm.len(),
        forall|i: int| 0 <= i < warm.len() ==> warm[i] == v.warm[i],
        x.serial == v.issued,
        has_serial(x.id, x.serial),
        forall|i: int| 0 <= i < warm.len() ==> warm[i].1 != x.port,
        forall|j: int| 0 <= j < v.sessions.len() ==> v.sessions[j].port != x.port,
    ensures
        (PoolView { sessions: v.sessions.push(x), warm, issued: v.issued + 1, ..v }).distinct(),
        pooled_count(v.sessions.push(x)) == pooled_count(v.sessions) + if x.from_pool {
            1nat
        } else {
            0nat
        },
{
    lemma_pooled_count_push(v.sessions, x);
    assert forall|j: int| 0 <= j < v.sessions.len() implies v.sessions[j].id != x.id by {
        if v.sessions[j].id == x.id {
            lemma_serial_unique(x.id, v.sessions[j].serial, v.issued);
        }
    }
}

/// No two live sessions share an id or a port, and creating a session, from
/// the warm pool or from a worker started on demand on a free port, keeps it
/// so.
pub proof fn lemma_sessions_unique<W>(
    v: PoolView<W>,
    token: Seq<char>,
    process: W,
    port: u16,
    now: u64,
)
    requires
        v.wf(),
    ensures
        forall|i: int, j: int|
            0 <= i < v.sessions.len() && 0 <= j < v.sessions.len() && i != j ==> v.sessions[i].id
                != v.sessions[j].id && v.sessions[i].port != v.sessions[j].port,
        v.warm.len() > 0 ==> v.adopt_warm(token, now).wf(),
        !v.tracks_port(port) ==> v.adopt_cold(token, process, port, now).wf(),
{
    assert forall|i: int, j: int|
        0 <= i < v.sessions.len() && 0 <= j < v.sessions.len() && i != j implies v.sessions[i].id
        != v.sessions[j].id && v.sessions[i].port != v.sessions[j].port by {
        if i > j {
        }
    }
    lemma_session_id_has_serial(token, v.issued);
    if v.warm.len() > 0 {
        let x = v.adopt_warm(token, now).sessions.last();
        assert(v.adopt_warm(token, now).sessions == v.sessions.push(x));
        lemma_push_session(v, v.warm.drop_last(), x);
    }
    if !v.tracks_port(port) {
        let x = v.adopt_cold(token, process, port, now).sessions.last();
        assert(v.adopt_cold(token, process, port, now).sessions == v.sessions.push(x));
        lemma_push_session(v, v.warm, x);
    }
}

/// Session ids are never reused, not even after their session ended: the
/// next id was never handed out, creating a session spends it, the count of
/// ids handed out never goes down, and ids with different serial numbers
/// differ whatever their random parts.
pub proof fn lemma_ids_never_reused<W>(
    v: PoolView<W>,
    token: Seq<char>,
    process: W,
    port: u16,
    now: u64,
    id: Seq<char>,
    timeout: u64,
)
    requires
        v.wf(),
    ensures
        !v.was_issued(v.next_id(token)),
        v.adopt_warm(token, now).was_issued(v.next_id(token)),
        v.adopt_cold(token, process, port, now).was_issued(v.next_id(token)),
        v.was_issued(id) ==> v.adopt_warm(token, now).was_issued(id) && v.adopt_cold(
            token,
            process,
            port,
            now,
        ).was_issued(id),
        v.remove_session(id).issued == v.issued,
        v.touch(id, now).issued == v.issued,
        v.reap(now, timeout).issued == v.issued,
        v.reserve().issued == v.issued,
        v.fill(process, port).issued == v.issued,
        v.release().issued == v.issued,
        forall|a: Seq<char>, b: Seq<char>, m: nat, n: nat|
            has_serial(a, m) && has_serial(b, n) && m != n ==> a != b,
{
    let fresh = v.next_id(token);
    lemma_session_id_has_serial(token, v.issued);
    if v.was_issued(fresh) {
        let k = choose|k: nat| k < v.issued && has_serial(fresh, k);
        lemma_serial_unique(fresh, k, v.issued);
    }
    assert(v.adopt_warm(token, now).was_issued(fresh));
    assert(v.adopt_cold(token, process, port, now).was_issued(fresh));
    if v.was_issued(id) {
        let k = choose|k: nat| k < v.issued && has_serial(id, k);
        assert(v.adopt_warm(token, now).was_issued(id));
        assert(v.adopt_cold(token, process, port, now).was_issued(id));
    }
    assert forall|a: Seq<char>, b: Seq<char>, m: nat, n: nat|
        has_serial(a, m) && has_serial(b, n) && m != n implies a != b by {
        if a == b {
            lemma_serial_unique(a, m, n);
        }
    }
}

/// Every tracked worker, named by its port, has exactly one owner: it is
/// either in the warm pool or in the registry, never both, and only once
/// there. Creating a session from the pool moves the worker across.
pub proof fn lemma_single_owner<W>(v: PoolView<W>, port: u16, token: Seq<char>, now: u64)
    requires
        v.wf(),
    ensures
        !((exists|i: int| 0 <= i < v.warm.len() && v.warm[i].1 == port) && (exists|j: int|
            0 <= j < v.sessions.len() && v.sessions[j].port == port)),
        forall|i: int, k: int|
            0 <= i < v.warm.len() && 0 <= k < v.warm.len() && v.warm[i].1 == port && v.warm[k].1
                == port ==> i == k,
        forall|j: int, k: int|
            0 <= j < v.sessions.len() && 0 <= k < v.sessions.len() && v.sessions[j].port == port
                && v.sessions[k].port == port ==> j == k,
        v.warm.len() > 0 ==> {
            let w = v.adopt_warm(token, now);
            &&& w.sessions.last().process == v.warm.last().0
            &&& w.sessions.last().port == v.warm.last().1
            &&& forall|i: int| 0 <= i < w.warm.len() ==> w.warm[i].1 != v.warm.last().1
        },
{
    assert forall|i: int, k: int|
        0 <= i < v.warm.len() && 0 <= k < v.warm.len() && v.warm[i].1 == port && v.warm[k].1
            == port implies i == k by {
        if i < k {
        } else if k < i {
        }
    }
    assert forall|j: int, k: int|
        0 <= j < v.sessions.len() && 0 <= k < v.sessions.len() && v.sessions[j].port == port
            && v.sessions[k].port == port implies j == k by {
        if j < k {
        } else if k < j {
        }
    }
}

/// Starting from `v`, one successful replenishment per worker of `workers`,
/// in order.
pub open spec fn refill<W>(v: PoolView<W>, workers: Seq<(W, u16)>) -> PoolView<W>
    decreases workers.len(),
{
    if workers.len() == 0 {
        v
    } else {
        refill(v, workers.drop_last()).reserve().fill(workers.last().0, workers.last().1)
    }
}

/// Workers on distinct ports that no tracked worker holds.
pub open spec fn fresh_workers<W>(v: PoolView<W>, workers: Seq<(W, u16)>) -> bool {
    &&& forall|i: int, j: int| 0 <= i < j < workers.len() ==> workers[i].1 != workers[j].1
    &&& forall|i: int| 0 <= i < workers.len() ==> !v.tracks_port(#[trigger] workers[i].1)
}

proof fn lemma_refill<W>(v: PoolView<W>, workers: Seq<(W, u16)>)
    requires
        v.wf(),
        v.reserved == 0,
        workers.len() <= v.permits,
        fresh_workers(v, workers),
    ensures
        refill(v, workers).wf(),
        refill(v, workers).sessions == v.sessions,
        refill(v, workers).warm == v.warm + workers,
        refill(v, workers).reserved == 0,
        refill(v, workers).permits == v.permits - workers.len(),
    decreases workers.len(),
{
    if workers.len() > 0 {
        let rest = workers.drop_last();
        assert(fresh_workers(v, rest));
        lemma_refill(v, rest);
        let u = refill(v, rest);
        let w = workers.last();
        assert(v.warm + workers =~= (v.warm + rest).push(w));
        assert forall|i: int| 0 <= i < u.warm.len() implies u.warm[i].1 != w.1 by {
            if i < v.warm.len() {
                assert(v.tracks_port(v.warm[i].1));
            } else {
                assert(u.warm[i] == workers[i - v.warm.len()]);
            }
        }
        assert forall|j: int| 0 <= j < u.sessions.len() implies u.sessions[j].port != w.1 by {
            assert(v.tracks_port(v.sessions[j].port));
        }
    }
}

/// Capacity is conserved: a worker taken from the pool by a session and
/// later terminated gives its unit of capacity back, so the maintenance loop
/// can replace it; and from any state with no replenishment in flight, as
/// many successful replenishments as there are free units bring the warm
/// pool back to its capacity less the workers still lent to live sessions
/// (to full capacity once none is).
pub proof fn lemma_capacity_conserved<W>(
    v: PoolView<W>,
    token: Seq<char>,
    now: u64,
    workers: Seq<(W, u16)>,
)
    requires
        v.wf(),
        v.reserved == 0,
        workers.len() == v.permits,
        fresh_workers(v, workers),
    ensures
        v.warm.len() > 0 ==> {
            let taken = v.adopt_warm(token, now);
            let ended = taken.remove_session(v.next_id(token));
            &&& ended.wf()
            &&& ended.permits == v.permits + 1
            &&& ended.warm.len() + 1 == v.warm.len()
            &&& ended.sessions == v.sessions
        },
        refill(v, workers).wf(),
        refill(v, workers).warm.len() + pooled_count(v.sessions) == v.capacity,
        refill(v, workers).permits == 0,
        pooled_count(v.sessions) == 0 ==> refill(v, workers).warm.len() == v.capacity,
{
    lemma_refill(v, workers);
    if v.warm.len() > 0 {
        let id = v.next_id(token);
        let taken = v.adopt_warm(token, now);
        let x = taken.sessions.last();
        assert(taken.sessions.drop_last() =~= v.sessions);
        assert(taken.wf()) by {
            lemma_sessions_unique(v, token, x.process, x.port, now);
        }
        let n = v.sessions.len() as int;
        assert(taken.sessions[n].id == id);
        assert(taken.session_index(id) == n) by {
            let j = taken.session_index(id);
            if j != n {
                assert(taken.sessions[j].id == taken.sessions[n].id);
            }
        }
        assert(taken.sessions.remove(n) =~= v.sessions);
    }
}

/// The reaper removes exactly the idle sessions: every session that is not
/// idle stays, entry and process unchanged, and every one that stays was
/// there before and is not idle.
pub proof fn lemma_reap_exact<W>(v: PoolView<W>, now: u64, timeout: u64)
    requires
        v.wf(),
    ensures
        forall|i: int|
            0 <= i < v.sessions.len() && !is_idle(v.sessions[i], now, timeout) ==> v.reap(
                now,
                timeout,
            ).sessions.contains(v.sessions[i]),
        forall|k: int|
            0 <= k < v.reap(now, timeout).sessions.len() ==> !is_idle(
                #[trigger] v.reap(now, timeout).sessions[k],
                now,
                timeout,
            ) && v.sessions.contains(v.reap(now, timeout).sessions[k]),
        forall|k: int|
            0 <= k < v.sessions.filter(idle_at(now, timeout)).len() ==> is_idle(
                #[trigger] v.sessions.filter(idle_at(now, timeout))[k],
                now,
                timeout,
            ),
        v.reap(now, timeout).warm == v.warm,
{
    let kept = v.sessions.filter(active_at(now, timeout));
    assert forall|i: int|
        0 <= i < v.sessions.len() && !is_idle(v.sessions[i], now, timeout) implies kept.contains(
        v.sessions[i],
    ) by {
        v.sessions.lemma_filter_contains(active_at(now, timeout), i);
    }
    assert forall|k: int| 0 <= k < kept.len() implies !is_idle(#[trigger] kept[k], now, timeout)
        && v.sessions.contains(kept[k]) by {
        v.sessions.lemma_filter_pred(active_at(now, timeout), k);
        assert(kept.contains(kept[k]));
        v.sessions.lemma_filter_contains_rev(active_at(now, timeout), kept[k]);
    }
    let gone = v.sessions.filter(idle_at(now, timeout));
    assert forall|k: int| 0 <= k < gone.len() implies is_idle(#[trigger] gone[k], now, timeout) by {
        v.sessions.lemma_filter_pred(idle_at(now, timeout), k);
    }
}

/// Deleting a session twice: the first call finds it, the second does not,
/// and the manager stays well formed in between.
pub proof fn lemma_delete_twice<W>(v: PoolView<W>, id: Seq<char>)
    requires
        v.wf(),
        v.has_session(id),
    ensures
        v.remove_session(id).wf(),
        !v.remove_session(id).has_session(id),
{
    let i = v.session_index(id);
    let after = v.remove_session(id);
    v.sessions.remove_ensures(i);
    assert(v.sessions.remove(i).len() + 1 == v.sessions.len());
    assert(after.wf()) by {
        crate::server_manager::lemma_remove_keeps_wf(v, i);
    }
    if after.has_session(id) {
        let k = choose|k: int| 0 <= k < after.sessions.len() && after.sessions[k].id == id;
        if k < i {
            assert(v.sessions[k].id == v.sessions[i].id);
        } else {
            assert(v.sessions[k + 1].id == v.sessions[i].id);
        }
    }
}

/// A session heartbeated at `t` survives a reap at `t + timeout - eps` and
/// is removed by a reap at `t + timeout + eps`, for any `eps > 0`, provided
/// nothing else touches it in between.
pub proof fn lemma_heartbeat_extends_life<W>(
    v: PoolView<W>,
    id: Seq<char>,
    t: u64,
    timeout: u64,
    eps: u64,
)
    requires
        v.wf(),
        v.has_session(id),
        v.session(id).last_active <= t,
        0 < eps <= t + timeout,
        t + timeout + eps <= u64::MAX,
    ensures
        v.touch(id, t).has_session(id),
        v.touch(id, t).session(id).last_active == t,
        !is_idle(v.touch(id, t).session(id), (t + timeout - eps) as u64, timeout),
        is_idle(v.touch(id, t).session(id), (t + timeout + eps) as u64, timeout),
        v.touch(id, t).reap((t + timeout - eps) as u64, timeout).has_session(id),
        !v.touch(id, t).reap((t + timeout + eps) as u64, timeout).has_session(id),
{
    let w = v.touch(id, t);
    let i = v.session_index(id);
    assert(w.sessions[i].id == id);
    assert(w.session_index(id) == i) by {
        let j = w.session_index(id);
        if j != i {
            assert(w.sessions[j].id == v.sessions[j].id);
            if j < i {
            } else {
            }
        }
    }
    let early = (t + timeout - eps) as u64;
    let late = (t + timeout + eps) as u64;
    let s = w.sessions[i];
    w.sessions.lemma_filter_contains(active_at(early, timeout), i);
    let kept = w.sessions.filter(active_at(early, timeout));
    let k = choose|k: int| 0 <= k < kept.len() && kept[k] == s;
    assert(w.reap(early, timeout).sessions[k].id == id);
    let gone = w.reap(late, timeout).sessions;
    if w.reap(late, timeout).has_session(id) {
        let k2 = choose|k2: int| 0 <= k2 < gone.len() && gone[k2].id == id;
        w.sessions.lemma_filter_pred(active_at(late, timeout), k2);
        assert(gone.contains(gone[k2]));
        w.sessions.lemma_filter_contains_rev(active_at(late, timeout), gone[k2]);
        let m = choose|m: int| 0 <= m < w.sessions.len() && w.sessions[m] == gone[k2];
        if m != i {
            assert(w.sessions[m].id == v.sessions[m].id);
            if m < i {
            } else {
            }
        }
    }
}

} // verus!
