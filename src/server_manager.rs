use vstd::prelude::*;

use crate::decimal::{decimal_digits, decimal_text, is_ascii_digit, lemma_decimal_digits};
use crate::error::ServerError;
use crate::models::{ProverInstance, SessionResponse};

verus! {

/// A live session in the registry.
pub struct Session<W> {
    pub session_id: String,
    /// The serial number the manager gave the session; it ends the id.
    pub serial: u64,
    pub instance: ProverInstance<W>,
}

/// The model of one registry entry.
pub struct SessionView<W> {
    pub id: Seq<char>,
    pub process: W,
    pub port: u16,
    pub last_active: u64,
    pub from_pool: bool,
    pub serial: nat,
}

impl<W> View for Session<W> {
    type V = SessionView<W>;

    open spec fn view(&self) -> SessionView<W> {
        SessionView {
            id: self.session_id@,
            process: self.instance.process,
            port: self.instance.port,
            last_active: self.instance.last_active,
            from_pool: self.instance.from_pool,
            serial: self.serial as nat,
        }
    }
}

/// The model of the whole manager.
///
/// `permits` is the capacity limiter: the units of warm-pool capacity that no
/// warm worker, no pool-born session and no replenishment in flight holds.
/// `issued` counts the session ids handed out so far: the serial numbers
/// below it are spent, and each new id ends with the next one.
pub struct PoolView<W> {
    pub sessions: Seq<SessionView<W>>,
    pub warm: Seq<(W, u16)>,
    pub capacity: nat,
    pub permits: nat,
    pub reserved: nat,
    pub issued: nat,
}

/// The end of the id of the session with serial number `k`: a hyphen and
/// the decimal digits of `k`.
pub open spec fn serial_suffix(k: nat) -> Seq<char> {
    seq!['-'] + decimal_digits(k)
}

/// `id` ends with the serial suffix of `k`.
pub open spec fn has_serial(id: Seq<char>, k: nat) -> bool {
    &&& id.len() >= serial_suffix(k).len()
    &&& id.subrange(id.len() - serial_suffix(k).len(), id.len() as int) == serial_suffix(k)
}

/// The id made of a random token and serial number `k`.
pub open spec fn session_id_of(token: Seq<char>, k: nat) -> Seq<char> {
    token + serial_suffix(k)
}

/// An id ends with the suffix of its own serial number.
pub proof fn lemma_session_id_has_serial(token: Seq<char>, k: nat)
    ensures
        has_serial(session_id_of(token, k), k),
{
    let id = session_id_of(token, k);
    assert(id.subrange(id.len() - serial_suffix(k).len(), id.len() as int) =~= serial_suffix(k));
}

/// An id tells its serial number: ids with different serial numbers differ,
/// whatever their random tokens.
pub proof fn lemma_serial_unique(id: Seq<char>, a: nat, b: nat)
    requires
        has_serial(id, a),
        has_serial(id, b),
    ensures
        a == b,
{
    lemma_decimal_digits(a);
    lemma_decimal_digits(b);
    let ta = serial_suffix(a);
    let tb = serial_suffix(b);
    let len = id.len() as int;
    if ta.len() < tb.len() {
        let p = len - ta.len();
        assert(id.subrange(p, len)[0] == ta[0]);
        let j = tb.len() - ta.len();
        assert(id.subrange(len - tb.len(), len)[j] == tb[j]);
        assert(tb[j] == decimal_digits(b)[j - 1]);
        assert(is_ascii_digit(decimal_digits(b)[j - 1]));
    } else if tb.len() < ta.len() {
        let p = len - tb.len();
        assert(id.subrange(p, len)[0] == tb[0]);
        let j = ta.len() - tb.len();
        assert(id.subrange(len - ta.len(), len)[j] == ta[j]);
        assert(ta[j] == decimal_digits(a)[j - 1]);
        assert(is_ascii_digit(decimal_digits(a)[j - 1]));
    } else {
        assert(decimal_digits(a) =~= ta.subrange(1, ta.len() as int));
        assert(decimal_digits(b) =~= tb.subrange(1, tb.len() as int));
    }
}

/// The number of sessions whose worker came from the warm pool.
pub open spec fn pooled_count<W>(s: Seq<SessionView<W>>) -> nat
    decreases s.len(),
{
    if s.len() == 0 {
        0
    } else {
        pooled_count(s.drop_last()) + if s.last().from_pool {
            1nat
        } else {
            0nat
        }
    }
}

/// A session is idle at `now` when more than `timeout` has passed since its
/// last activity.
pub open spec fn is_idle<W>(s: SessionView<W>, now: u64, timeout: u64) -> bool {
    now - s.last_active > timeout
}

pub open spec fn idle_at<W>(now: u64, timeout: u64) -> spec_fn(SessionView<W>) -> bool {
    |s: SessionView<W>| is_idle(s, now, timeout)
}

pub open spec fn active_at<W>(now: u64, timeout: u64) -> spec_fn(SessionView<W>) -> bool {
    |s: SessionView<W>| !is_idle(s, now, timeout)
}

impl<W> PoolView<W> {
    /// Capacity is conserved, session ids are unique, and no port is held by
    /// two tracked workers (so no worker is both warm and in a session).
    pub open spec fn wf(self) -> bool {
        &&& self.capacity == self.warm.len() + pooled_count(self.sessions) + self.reserved
            + self.permits
        &&& self.distinct()
    }

    /// Every session id ends with its own serial number, which is spent;
    /// session ids are unique; and no port is held by two tracked workers.
    pub open spec fn distinct(self) -> bool {
        &&& forall|i: int|
            0 <= i < self.sessions.len() ==> #[trigger] self.sessions[i].serial < self.issued
                && has_serial(self.sessions[i].id, self.sessions[i].serial)
        &&& forall|i: int, j: int|
            0 <= i < j < self.sessions.len() ==> self.sessions[i].id != self.sessions[j].id
                && self.sessions[i].port != self.sessions[j].port
        &&& forall|i: int, j: int|
            0 <= i < j < self.warm.len() ==> self.warm[i].1 != self.warm[j].1
        &&& forall|i: int, j: int|
            0 <= i < self.warm.len() && 0 <= j < self.sessions.len() ==> self.warm[i].1
                != self.sessions[j].port
    }

    /// `id` is one this manager has handed out, whether or not its session
    /// still lives.
    pub open spec fn was_issued(self, id: Seq<char>) -> bool {
        exists|k: nat| k < self.issued && has_serial(id, k)
    }

    /// The id the next session made from `token` gets.
    pub open spec fn next_id(self, token: Seq<char>) -> Seq<char> {
        session_id_of(token, self.issued)
    }

    pub open spec fn has_session(self, id: Seq<char>) -> bool {
        exists|i: int| 0 <= i < self.sessions.len() && self.sessions[i].id == id
    }

    pub open spec fn session_index(self, id: Seq<char>) -> int {
        choose|i: int| 0 <= i < self.sessions.len() && self.sessions[i].id == id
    }

    pub open spec fn session(self, id: Seq<char>) -> SessionView<W> {
        self.sessions[self.session_index(id)]
    }

    pub open spec fn tracks_port(self, port: u16) -> bool {
        ||| exists|i: int| 0 <= i < self.warm.len() && self.warm[i].1 == port
        ||| exists|i: int| 0 <= i < self.sessions.len() && self.sessions[i].port == port
    }

    /// The most recently pooled warm worker becomes the session with id
    /// `next_id(token)`, and the serial number is spent.
    pub open spec fn adopt_warm(self, token: Seq<char>, now: u64) -> Self {
        PoolView {
            sessions: self.sessions.push(
                SessionView {
                    id: self.next_id(token),
                    process: self.warm.last().0,
                    port: self.warm.last().1,
                    last_active: now,
                    from_pool: true,
                    serial: self.issued,
                },
            ),
            warm: self.warm.drop_last(),
            issued: self.issued + 1,
            ..self
        }
    }

    /// A worker started on demand becomes the session with id
    /// `next_id(token)`, and the serial number is spent.
    pub open spec fn adopt_cold(self, token: Seq<char>, process: W, port: u16, now: u64) -> Self {
        PoolView {
            sessions: self.sessions.push(
                SessionView {
                    id: self.next_id(token),
                    process,
                    port,
                    last_active: now,
                    from_pool: false,
                    serial: self.issued,
                },
            ),
            issued: self.issued + 1,
            ..self
        }
    }

    /// Session `id` leaves the registry; a pool-born worker gives its unit of
    /// capacity back.
    pub open spec fn remove_session(self, id: Seq<char>) -> Self {
        let s = self.session(id);
        PoolView {
            sessions: self.sessions.remove(self.session_index(id)),
            permits: if s.from_pool {
                self.permits + 1
            } else {
                self.permits
            },
            ..self
        }
    }

    /// Session `id` is marked active at `now`; its activity never moves back.
    pub open spec fn touch(self, id: Seq<char>, now: u64) -> Self {
        let s = self.session(id);
        PoolView {
            sessions: self.sessions.update(
                self.session_index(id),
                SessionView {
                    last_active: if now > s.last_active {
                        now
                    } else {
                        s.last_active
                    },
                    ..s
                },
            ),
            ..self
        }
    }

    /// Every idle session leaves the registry, in one sweep.
    pub open spec fn reap(self, now: u64, timeout: u64) -> Self {
        PoolView {
            sessions: self.sessions.filter(active_at(now, timeout)),
            permits: self.permits + pooled_count(self.sessions.filter(idle_at(now, timeout))),
            ..self
        }
    }

    /// One unit of capacity is taken for a replenishment.
    pub open spec fn reserve(self) -> Self {
        PoolView { permits: (self.permits - 1) as nat, reserved: self.reserved + 1, ..self }
    }

    /// A replenishment completes with a new warm worker.
    pub open spec fn fill(self, process: W, port: u16) -> Self {
        PoolView {
            warm: self.warm.push((process, port)),
            reserved: (self.reserved - 1) as nat,
            ..self
        }
    }

    /// A replenishment is abandoned and its unit of capacity given back.
    pub open spec fn release(self) -> Self {
        PoolView { permits: self.permits + 1, reserved: (self.reserved - 1) as nat, ..self }
    }
}

pub(crate) proof fn lemma_pooled_count_push<W>(s: Seq<SessionView<W>>, x: SessionView<W>)
    ensures
        pooled_count(s.push(x)) == pooled_count(s) + if x.from_pool {
            1nat
        } else {
            0nat
        },
{
    assert(s.push(x).drop_last() =~= s);
}

proof fn lemma_pooled_count_remove<W>(s: Seq<SessionView<W>>, i: int)
    requires
        0 <= i < s.len(),
    ensures
        pooled_count(s) == pooled_count(s.remove(i)) + if s[i].from_pool {
            1nat
        } else {
            0nat
        },
    decreases s.len(),
{
    if i == s.len() - 1 {
        assert(s.remove(i) =~= s.drop_last());
    } else {
        assert(s.remove(i).drop_last() =~= s.drop_last().remove(i));
        lemma_pooled_count_remove(s.drop_last(), i);
    }
}

proof fn lemma_pooled_count_update<W>(s: Seq<SessionView<W>>, i: int, x: SessionView<W>)
    requires
        0 <= i < s.len(),
        x.from_pool == s[i].from_pool,
    ensures
        pooled_count(s.update(i, x)) == pooled_count(s),
    decreases s.len(),
{
    if i == s.len() - 1 {
        assert(s.update(i, x).drop_last() =~= s.drop_last());
    } else {
        assert(s.update(i, x).drop_last() =~= s.drop_last().update(i, x));
        lemma_pooled_count_update(s.drop_last(), i, x);
    }
}

/// Taking a session out of a well-formed registry, and giving back its unit
/// of capacity if it holds one, keeps the manager well formed.
pub(crate) proof fn lemma_remove_keeps_wf<W>(v: PoolView<W>, i: int)
    requires
        v.wf(),
        0 <= i < v.sessions.len(),
    ensures
        pooled_count(v.sessions) == pooled_count(v.sessions.remove(i)) + if v.sessions[i].from_pool {
            1nat
        } else {
            0nat
        },
        (PoolView {
            sessions: v.sessions.remove(i),
            permits: if v.sessions[i].from_pool {
                v.permits + 1
            } else {
                v.permits
            },
            ..v
        }).wf(),
{
    lemma_pooled_count_remove(v.sessions, i);
    v.sessions.remove_ensures(i);
}

/// The next id was never handed out.
proof fn lemma_fresh_id_never_issued<W>(v: PoolView<W>, token: Seq<char>)
    ensures
        !v.was_issued(v.next_id(token)),
{
    lemma_session_id_has_serial(token, v.issued);
    if v.was_issued(v.next_id(token)) {
        let k = choose|k: nat| k < v.issued && has_serial(v.next_id(token), k);
        lemma_serial_unique(v.next_id(token), k, v.issued);
    }
}

/// Relies on `uuid::Uuid::new_v4`, written out by the `Display` of `Uuid`: a
/// random version-4 UUID in hyphenated text. Nothing is promised of its value.
#[verifier::external_body]
fn random_session_id() -> String {
    uuid::Uuid::new_v4().to_string()
}

/// The warm pool, the session registry and the capacity limiter, without
/// locks: the owner serialises access, and process start and termination
/// happen outside, on the handles that the methods take and give back.
pub struct ServerManager<W> {
    instances: Vec<Session<W>>,
    warm_pool: Vec<(W, u16)>,
    capacity: usize,
    permits: usize,
    reserved: usize,
    issued: u64,
}

impl<W> View for ServerManager<W> {
    type V = PoolView<W>;

    closed spec fn view(&self) -> PoolView<W> {
        PoolView {
            sessions: self.instances@.map_values(|s: Session<W>| s@),
            warm: self.warm_pool@,
            capacity: self.capacity as nat,
            permits: self.permits as nat,
            reserved: self.reserved as nat,
            issued: self.issued as nat,
        }
    }
}

impl<W> ServerManager<W> {
    pub open spec fn wf(&self) -> bool {
        self@.wf()
    }

    /// An empty manager whose warm pool holds at most `capacity` workers.
    pub fn new(capacity: usize) -> (r: Self)
        ensures
            r.wf(),
            r@.sessions == Seq::<SessionView<W>>::empty(),
            r@.warm == Seq::<(W, u16)>::empty(),
            r@.capacity == capacity,
            r@.permits == capacity,
            r@.reserved == 0,
            r@.issued == 0,
    {
        let r = ServerManager {
            instances: Vec::new(),
            warm_pool: Vec::new(),
            capacity,
            permits: capacity,
            reserved: 0,
            issued: 0,
        };
        assert(r@.sessions =~= Seq::<SessionView<W>>::empty());
        r
    }

    /// The position of session `session_id` in the registry.
    fn find_session(&self, session_id: &String) -> (r: Option<usize>)
        requires
            self.wf(),
        ensures
            match r {
                Some(i) => i < self@.sessions.len() && self@.sessions[i as int].id
                    == session_id@ && self@.session_index(session_id@) == i,
                None => !self@.has_session(session_id@),
            },
    {
        let mut i: usize = 0;
        while i < self.instances.len()
            invariant
                self.wf(),
                i <= self.instances.len(),
                forall|k: int| 0 <= k < i ==> self@.sessions[k].id != session_id@,
            decreases self.instances.len() - i,
        {
            if self.instances[i].session_id == *session_id {
                let ghost j = self@.session_index(session_id@);
                assert(self@.sessions[i as int].id == session_id@);
                assert(j == i) by {
                    if j < i {
                    } else if j > i {
                    }
                }
                return Some(i);
            }
            i += 1;
        }
        None
    }

    /// Whether `port` is held by a warm worker or by a session's worker.
    fn port_in_use(&self, port: u16) -> (r: bool)
        ensures
            r == self@.tracks_port(port),
    {
        let mut i: usize = 0;
        while i < self.warm_pool.len()
            invariant
                i <= self.warm_pool.len(),
                forall|k: int| 0 <= k < i ==> self@.warm[k].1 != port,
            decreases self.warm_pool.len() - i,
        {
            if self.warm_pool[i].1 == port {
                assert(self@.warm[i as int].1 == port);
                return true;
            }
            i += 1;
        }
        let mut j: usize = 0;
        while j < self.instances.len()
            invariant
                j <= self.instances.len(),
                forall|k: int| 0 <= k < self.warm_pool.len() ==> self@.warm[k].1 != port,
                forall|k: int| 0 <= k < j ==> self@.sessions[k].port != port,
            decreases self.instances.len() - j,
        {
            if self.instances[j].instance.port == port {
                assert(self@.sessions[j as int].port == port);
                return true;
            }
            j += 1;
        }
        false
    }

    /// The id for the next session: `token`, a hyphen, and the next serial
    /// number in decimal.
    fn next_session_id(&self, token: String) -> (r: String)
        ensures
            r@ == self@.next_id(token@),
    {
        let hyphen = "-";
        proof {
            reveal_strlit("-");
        }
        let r = token.concat(hyphen).concat(decimal_text(self.issued).as_str());
        assert(r@ =~= self@.next_id(token@));
        r
    }

    /// A new session for `process` on `port`, under the next id; spends the
    /// serial number.
    fn enroll(&mut self, token: String, process: W, port: u16, from_pool: bool, now: u64) -> (r:
        SessionResponse)
        requires
            old(self)@.distinct(),
            old(self)@.issued < u64::MAX,
            !old(self)@.tracks_port(port),
            from_pool ==> old(self)@.permits + old(self)@.warm.len() + pooled_count(
                old(self)@.sessions,
            ) + old(self)@.reserved + 1 == old(self)@.capacity,
            !from_pool ==> old(self)@.permits + old(self)@.warm.len() + pooled_count(
                old(self)@.sessions,
            ) + old(self)@.reserved == old(self)@.capacity,
        ensures
            r.session_id@ == old(self)@.next_id(token@),
            r.prover_port == port,
            final(self)@ == (PoolView {
                sessions: old(self)@.sessions.push(
                    SessionView {
                        id: old(self)@.next_id(token@),
                        process,
                        port,
                        last_active: now,
                        from_pool,
                        serial: old(self)@.issued,
                    },
                ),
                issued: old(self)@.issued + 1,
                ..old(self)@
            }),
            final(self)@.wf(),
    {
        let ghost pre = self@;
        let session_id = self.next_session_id(token);
        let response_id = session_id.clone();
        let session = Session {
            session_id,
            serial: self.issued,
            instance: ProverInstance { process, port, last_active: now, from_pool },
        };
        self.instances.push(session);
        self.issued = self.issued + 1;
        proof {
            lemma_pooled_count_push(pre.sessions, session@);
            lemma_session_id_has_serial(token@, pre.issued);
            assert forall|j: int| 0 <= j < pre.sessions.len() implies pre.sessions[j].id
                != session@.id by {
                if pre.sessions[j].id == session@.id {
                    lemma_serial_unique(session@.id, pre.sessions[j].serial, pre.issued);
                }
            }
            assert(self@.sessions =~= pre.sessions.push(session@));
        }
        SessionResponse { session_id: response_id, prover_port: port }
    }

    /// The session made from random `token` adopts the most recently pooled
    /// warm worker, under the id `next_id(token)`, which was never handed out
    /// before. Refused only when the pool is empty or the serial numbers are
    /// spent. The worker keeps its unit of pool capacity until it is
    /// terminated.
    pub fn adopt_warm_worker(&mut self, token: String, now: u64) -> (r: Option<SessionResponse>)
        requires
            old(self).wf(),
        ensures
            final(self).wf(),
            r is Some <==> old(self)@.warm.len() > 0 && old(self)@.issued < u64::MAX,
            match r {
                Some(resp) => {
                    &&& resp.session_id@ == old(self)@.next_id(token@)
                    &&& !old(self)@.was_issued(resp.session_id@)
                    &&& resp.prover_port == old(self)@.warm.last().1
                    &&& final(self)@ == old(self)@.adopt_warm(token@, now)
                },
                None => final(self)@ == old(self)@,
            },
    {
        if self.issued == u64::MAX {
            return None;
        }
        let ghost pre = self@;
        match self.warm_pool.pop() {
            None => None,
            Some((process, port)) => {
                proof {
                    assert(self@.warm =~= pre.warm.drop_last());
                    assert(!self@.tracks_port(port)) by {
                        assert(pre.warm[pre.warm.len() - 1].1 == port);
                    }
                }
                let resp = self.enroll(token, process, port, true, now);
                proof {
                    lemma_fresh_id_never_issued(pre, token@);
                    assert(self@ == pre.adopt_warm(token@, now));
                }
                Some(resp)
            },
        }
    }

    /// A session for the most recently pooled warm worker, under a new id
    /// made of a random token and the next serial number. `None` when the
    /// pool is empty (the caller then starts a worker itself and hands it to
    /// `register_cold_instance`) or the serial numbers are spent.
    pub fn create_instance(&mut self, now: u64) -> (r: Option<SessionResponse>)
        requires
            old(self).wf(),
        ensures
            final(self).wf(),
            r is Some <==> old(self)@.warm.len() > 0 && old(self)@.issued < u64::MAX,
            match r {
                Some(resp) => {
                    &&& !old(self)@.was_issued(resp.session_id@)
                    &&& resp.prover_port == old(self)@.warm.last().1
                    &&& exists|token: Seq<char>|
                        resp.session_id@ == old(self)@.next_id(token) && final(self)@ == old(
                            self,
                        )@.adopt_warm(token, now)
                },
                None => final(self)@ == old(self)@,
            },
    {
        if self.warm_pool.len() == 0 || self.issued == u64::MAX {
            return None;
        }
        let token = random_session_id();
        self.adopt_warm_worker(token, now)
    }

    /// The session made from random `token` adopts a worker started on
    /// demand on `port`, under the id `next_id(token)`, which was never
    /// handed out before. It is refused, and the worker handed back for
    /// termination, with `ProverCreationError` when a tracked worker already
    /// holds the port, or `Internal` when the serial numbers are spent.
    pub fn adopt_cold_worker(&mut self, token: String, process: W, port: u16, now: u64) -> (r:
        Result<SessionResponse, (W, ServerError)>)
        requires
            old(self).wf(),
        ensures
            final(self).wf(),
            r is Ok <==> !old(self)@.tracks_port(port) && old(self)@.issued < u64::MAX,
            match r {
                Ok(resp) => {
                    &&& resp.session_id@ == old(self)@.next_id(token@)
                    &&& !old(self)@.was_issued(resp.session_id@)
                    &&& resp.prover_port == port
                    &&& final(self)@ == old(self)@.adopt_cold(token@, process, port, now)
                },
                Err((w, e)) => {
                    &&& w == process
                    &&& final(self)@ == old(self)@
                    &&& old(self)@.tracks_port(port) <==> e is ProverCreationError
                    &&& !old(self)@.tracks_port(port) ==> e is Internal
                },
            },
    {
        if self.port_in_use(port) {
            return Err(
                (
                    process,
                    ServerError::ProverCreationError(
                        "port already held by another worker".to_owned(),
                    ),
                ),
            );
        }
        if self.issued == u64::MAX {
            return Err((process, ServerError::Internal("session ids exhausted".to_owned())));
        }
        let ghost pre = self@;
        let resp = self.enroll(token, process, port, false, now);
        proof {
            lemma_fresh_id_never_issued(pre, token@);
            assert(self@ == pre.adopt_cold(token@, process, port, now));
        }
        Ok(resp)
    }

    /// A session for a worker started on demand on `port`, under a new id
    /// made of a random token and the next serial number. On refusal the
    /// worker is handed back for termination: with `ProverCreationError` when
    /// its port is already held, or `Internal` when the serial numbers are
    /// spent.
    pub fn register_cold_instance(&mut self, process: W, port: u16, now: u64) -> (r: Result<
        SessionResponse,
        (W, ServerError),
    >)
        requires
            old(self).wf(),
        ensures
            final(self).wf(),
            r is Ok <==> !old(self)@.tracks_port(port) && old(self)@.issued < u64::MAX,
            match r {
                Ok(resp) => {
                    &&& !old(self)@.was_issued(resp.session_id@)
                    &&& resp.prover_port == port
                    &&& exists|token: Seq<char>|
                        resp.session_id@ == old(self)@.next_id(token) && final(self)@ == old(
                            self,
                        )@.adopt_cold(token, process, port, now)
                },
                Err((w, e)) => {
                    &&& w == process
                    &&& final(self)@ == old(self)@
                    &&& old(self)@.tracks_port(port) <==> e is ProverCreationError
                    &&& !old(self)@.tracks_port(port) ==> e is Internal
                },
            },
    {
        let token = random_session_id();
        self.adopt_cold_worker(token, process, port, now)
    }

    /// Removes session `session_id` and hands its worker back for
    /// termination; a pool-born worker's unit of capacity is given back.
    pub fn cleanup_instance(&mut self, session_id: &str) -> (r: Result<W, ServerError>)
        requires
            old(self).wf(),
        ensures
            final(self).wf(),
            r is Ok <==> old(self)@.has_session(session_id@),
            match r {
                Ok(process) => {
                    &&& process == old(self)@.session(session_id@).process
                    &&& final(self)@ == old(self)@.remove_session(session_id@)
                },
                Err(e) => {
                    &&& e matches ServerError::SessionNotFound(id) && id@ == session_id@
                    &&& final(self)@ == old(self)@
                },
            },
    {
        let key = session_id.to_owned();
        match self.find_session(&key) {
            None => Err(ServerError::SessionNotFound(key)),
            Some(i) => {
                let ghost pre = self@;
                proof {
                    lemma_remove_keeps_wf(pre, i as int);
                }
                let session = self.instances.remove(i);
                if session.instance.from_pool {
                    self.permits = self.permits + 1;
                }
                proof {
                    assert(self@.sessions =~= pre.sessions.remove(i as int));
                    assert(self@ == pre.remove_session(session_id@));
                }
                Ok(session.instance.process)
            },
        }
    }

    /// Marks session `session_id` active at `now` (never moving its last
    /// activity back).
    pub fn update_last_active(&mut self, session_id: &str, now: u64) -> (r: Result<(), ServerError>)
        requires
            old(self).wf(),
        ensures
            final(self).wf(),
            r is Ok <==> old(self)@.has_session(session_id@),
            match r {
                Ok(_) => final(self)@ == old(self)@.touch(session_id@, now),
                Err(e) => {
                    &&& e matches ServerError::SessionNotFound(id) && id@ == session_id@
                    &&& final(self)@ == old(self)@
                },
            },
    {
        let key = session_id.to_owned();
        match self.find_session(&key) {
            None => Err(ServerError::SessionNotFound(key)),
            Some(i) => {
                let ghost pre = self@;
                if now > self.instances[i].instance.last_active {
                    self.instances[i].instance.last_active = now;
                }
                proof {
                    let s = pre.sessions[i as int];
                    let t = SessionView {
                        last_active: if now > s.last_active {
                            now
                        } else {
                            s.last_active
                        },
                        ..s
                    };
                    lemma_pooled_count_update(pre.sessions, i as int, t);
                    assert(self@.sessions =~= pre.sessions.update(i as int, t));
                    assert(self@ == pre.touch(session_id@, now));
                }
                Ok(())
            },
        }
    }
    /// Removes every session idle at `now` (more than `timeout` since its
    /// last activity) and hands their workers back for termination, in
    /// registry order; every other session is left as it was.
    pub fn cleanup_inactive_sessions(&mut self, now: u64, timeout: u64) -> (r: Vec<W>)
        requires
            old(self).wf(),
        ensures
            final(self).wf(),
            final(self)@ == old(self)@.reap(now, timeout),
            r@.len() == old(self)@.sessions.filter(idle_at(now, timeout)).len(),
            forall|k: int|
                0 <= k < r@.len() ==> r@[k] == old(self)@.sessions.filter(
                    idle_at(now, timeout),
                )[k].process,
    {
        let ghost pre = self@;
        let ghost n = pre.sessions.len();
        let mut removed: Vec<W> = Vec::new();
        let mut i: usize = 0;
        let ghost mut k: int = 0;
        while i < self.instances.len()
            invariant
                self.wf(),
                n == pre.sessions.len(),
                0 <= k <= n,
                self@.warm == pre.warm,
                self@.capacity == pre.capacity,
                self@.reserved == pre.reserved,
                self@.issued == pre.issued,
                i == pre.sessions.subrange(0, k).filter(active_at(now, timeout)).len(),
                self@.sessions == pre.sessions.subrange(0, k).filter(active_at(now, timeout))
                    + pre.sessions.subrange(k, n as int),
                self@.permits == pre.permits + pooled_count(
                    pre.sessions.subrange(0, k).filter(idle_at(now, timeout)),
                ),
                removed@.len() == pre.sessions.subrange(0, k).filter(idle_at(now, timeout)).len(),
                forall|m: int|
                    0 <= m < removed@.len() ==> removed@[m] == pre.sessions.subrange(0, k).filter(
                        idle_at(now, timeout),
                    )[m].process,
            decreases n - k,
        {
            let ghost cur = self@;
            let ghost x = pre.sessions[k];
            proof {
                assert(self.instances@.len() == cur.sessions.len());
                assert(k < n);
                assert(cur.sessions[i as int] == x);
                assert(pre.sessions.subrange(0, k + 1) =~= pre.sessions.subrange(0, k).push(x));
                pre.sessions.subrange(0, k).lemma_filter_push(x, active_at(now, timeout));
                pre.sessions.subrange(0, k).lemma_filter_push(x, idle_at(now, timeout));
            }
            let last_active = self.instances[i].instance.last_active;
            if now > last_active && now - last_active > timeout {
                proof {
                    lemma_remove_keeps_wf(cur, i as int);
                    lemma_pooled_count_push(
                        pre.sessions.subrange(0, k).filter(idle_at(now, timeout)),
                        x,
                    );
                }
                let session = self.instances.remove(i);
                if session.instance.from_pool {
                    self.permits = self.permits + 1;
                }
                removed.push(session.instance.process);
                proof {
                    assert(self@.sessions =~= cur.sessions.remove(i as int));
                    assert(self@.sessions =~= pre.sessions.subrange(0, k + 1).filter(
                        active_at(now, timeout),
                    ) + pre.sessions.subrange(k + 1, n as int));
                    k = k + 1;
                }
            } else {
                i += 1;
                proof {
                    assert(self@.sessions =~= pre.sessions.subrange(0, k + 1).filter(
                        active_at(now, timeout),
                    ) + pre.sessions.subrange(k + 1, n as int));
                    k = k + 1;
                }
            }
        }
        proof {
            assert(k == n) by {
                if k < n {
                    assert(self@.sessions.len() > i);
                }
            }
            assert(pre.sessions.subrange(0, n as int) =~= pre.sessions);
            assert(self@.sessions =~= pre.sessions.filter(active_at(now, timeout)));
            assert(self@ == pre.reap(now, timeout));
        }
        removed
    }

    /// Takes one unit of capacity for a replenishment, if one is free.
    pub fn reserve_warm_slot(&mut self) -> (r: bool)
        requires
            old(self).wf(),
        ensures
            final(self).wf(),
            r == (old(self)@.permits > 0),
            final(self)@ == if r {
                old(self)@.reserve()
            } else {
                old(self)@
            },
    {
        if self.permits == 0 {
            return false;
        }
        self.permits = self.permits - 1;
        self.reserved = self.reserved + 1;
        true
    }

    /// Completes a replenishment with a new warm worker on `port`.
    /// The worker is handed back for termination when no replenishment is
    /// in flight, or when a tracked worker already holds the port (the
    /// replenishment then ends and its unit of capacity is given back).
    pub fn fill_warm_slot(&mut self, process: W, port: u16) -> (r: Result<(), W>)
        requires
            old(self).wf(),
        ensures
            final(self).wf(),
            r is Ok <==> old(self)@.reserved > 0 && !old(self)@.tracks_port(port),
            match r {
                Ok(_) => final(self)@ == old(self)@.fill(process, port),
                Err(w) => {
                    &&& w == process
                    &&& final(self)@ == if old(self)@.reserved > 0 {
                        old(self)@.release()
                    } else {
                        old(self)@
                    }
                },
            },
    {
        if self.reserved == 0 {
            return Err(process);
        }
        if self.port_in_use(port) {
            self.reserved = self.reserved - 1;
            self.permits = self.permits + 1;
            return Err(process);
        }
        let ghost pre = self@;
        self.warm_pool.push((process, port));
        self.reserved = self.reserved - 1;
        proof {
            assert(self@.warm =~= pre.warm.push((process, port)));
        }
        Ok(())
    }

    /// Ends a replenishment that produced no worker, giving its unit of
    /// capacity back.
    pub fn release_warm_slot(&mut self)
        requires
            old(self).wf(),
        ensures
            final(self).wf(),
            final(self)@ == if old(self)@.reserved > 0 {
                old(self)@.release()
            } else {
                old(self)@
            },
    {
        if self.reserved > 0 {
            self.reserved = self.reserved - 1;
            self.permits = self.permits + 1;
        }
    }
    /// The most workers the warm pool holds.
    pub fn capacity(&self) -> (r: usize)
        ensures
            r == self@.capacity,
    {
        self.capacity
    }

    /// How many warm workers are waiting.
    pub fn warm_count(&self) -> (r: usize)
        ensures
            r == self@.warm.len(),
    {
        self.warm_pool.len()
    }

    /// How many sessions are live.
    pub fn session_count(&self) -> (r: usize)
        ensures
            r == self@.sessions.len(),
    {
        self.instances.len()
    }

    /// The units of warm-pool capacity that are free for replenishment.
    pub fn available_permits(&self) -> (r: usize)
        ensures
            r == self@.permits,
    {
        self.permits
    }

    /// Whether `session_id` names a live session.
    pub fn has_session(&self, session_id: &str) -> (r: bool)
        requires
            self.wf(),
        ensures
            r == self@.has_session(session_id@),
    {
        let key = session_id.to_owned();
        self.find_session(&key).is_some()
    }

    /// The last activity of session `session_id`, if it is live.
    pub fn last_active(&self, session_id: &str) -> (r: Option<u64>)
        requires
            self.wf(),
        ensures
            r is Some <==> self@.has_session(session_id@),
            r matches Some(t) ==> t == self@.session(session_id@).last_active,
    {
        let key = session_id.to_owned();
        match self.find_session(&key) {
            Some(i) => Some(self.instances[i].instance.last_active),
            None => None,
        }
    }
}

} // verus!
