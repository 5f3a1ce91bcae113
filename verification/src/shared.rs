//! Operations that are under way at one time, on one database.
//!
//! Their calls reach the database in some order, each call as a whole. Of write
//! transactions one is open at a time: to begin another waits until it is committed
//! or dropped. Read transactions may be open besides, and see what was committed
//! when they began. That is what `redb` documents of its `Database::begin_write`
//! and `Database::begin_read`; it is taken as given here.

use vstd::prelude::*;

use crate::database::{
    held, law_absent_key_stays_absent, law_get_token, law_put_code, law_put_token,
    law_revoke_token, law_take_code, law_untouched_record_is_kept, lemma_extend, records, removes,
    step, Codec, Run, Tables, World,
};
use crate::store::{
    due, failure, Action, Answer, AuthCode, Event, Operation, StoreError, Table, TokenRecord,
};

verus! {

/// One operation under way, with the transaction that it has open.
pub struct Part {
    pub op: Operation,
    /// The events so far.
    pub events: Seq<Event>,
    /// What its transaction sees.
    pub work: Tables,
    /// Whether its transaction may write.
    pub writing: bool,
}

impl Part {
    /// The operation is over, with this answer.
    pub open spec fn ends(self, r: Result<Answer, StoreError>) -> bool {
        due(self.op, self.events) == Action::Finish(r)
    }

    /// The operation is over.
    pub open spec fn is_over(self) -> bool {
        due(self.op, self.events) is Finish
    }

    /// The time that was read last.
    pub open spec fn clock(self) -> u64 {
        self.events.last()->Clock_0
    }
}

/// The database with all operations that are under way.
pub struct Shared {
    /// What is committed.
    pub saved: Tables,
    pub parts: Seq<Part>,
    /// Whose write transaction is open.
    pub writer: Option<int>,
}

/// The database as the `i`-th operation sees it.
pub open spec fn seen_by(s: Shared, i: int) -> World {
    World { saved: s.saved, work: s.parts[i].work, writing: s.parts[i].writing }
}

/// The `i`-th operation makes the call that is due, and the database answers `e`.
pub open spec fn shared_step(codec: Codec, s: Shared, i: int, e: Event, t: Shared) -> bool {
    let a = due(s.parts[i].op, s.parts[i].events);
    &&& 0 <= i < s.parts.len()
    &&& t.parts.len() == s.parts.len()
    &&& forall|k: int| 0 <= k < s.parts.len() && k != i ==> #[trigger] t.parts[k] == s.parts[k]
    &&& t.parts[i].op == s.parts[i].op
    &&& t.parts[i].events == s.parts[i].events.push(e)
    &&& step(codec, seen_by(s, i), a, e, seen_by(t, i))
    &&& if a is BeginWrite && failure(e) is None {
        s.writer is None && t.writer == Some(i)
    } else if s.writer == Some(i) && (a is Commit || failure(e) is Some) {
        t.writer is None
    } else {
        t.writer == s.writer
    }
}

/// A course of things: the moments, and between two of them whose call was
/// answered, and how.
pub struct History {
    pub moments: Seq<Shared>,
    pub told: Seq<(int, Event)>,
}

impl History {
    /// Nothing has begun at first, and from each moment to the next one call is
    /// answered.
    #[verifier::opaque]
    pub open spec fn faithful(self, codec: Codec) -> bool {
        &&& self.moments.len() == self.told.len() + 1
        &&& self.moments.first().writer is None
        &&& forall|k: int|
            0 <= k < self.moments.first().parts.len() ==> (
            #[trigger] self.moments.first().parts[k]).events == Seq::<Event>::empty()
        &&& forall|n: int|
            0 <= n < self.told.len() ==> shared_step(
                codec,
                self.moments[n],
                (#[trigger] self.told[n]).0,
                self.told[n].1,
                self.moments[n + 1],
            )
    }
}

/// The operation redeems this code.
pub open spec fn redeems(op: Operation, c: Seq<char>) -> bool {
    op matches Operation::TakeCode { code } && code@ == c
}

/// The `k`-th operation does nothing from the moment `m` on: it is over by then, or
/// it has not begun at the end.
pub open spec fn aside(h: History, m: int, k: int) -> bool {
    h.moments[m].parts[k].is_over() || h.moments.last().parts[k].events.len() == 0
}

/// How many events come before the one that begins the transaction.
spec fn begin_at(p: Part) -> int {
    if p.op is Open || p.op is PutCode || p.op is PutToken {
        1
    } else {
        0
    }
}

/// How many events come before the one that commits.
spec fn commit_at(p: Part) -> int {
    if p.op is RevokeToken || p.op is TakeCode && p.events[2]->Found_0 is None {
        3
    } else {
        4
    }
}

/// How many events come before the end.
spec fn end_at(p: Part) -> int {
    if p.op is GetToken {
        if p.events[2]->Found_0 is None {
            3
        } else {
            5
        }
    } else if p.op is TakeCode && p.events[2]->Found_0 is Some {
        6
    } else {
        commit_at(p) + 1
    }
}

/// No call of the operation has failed.
spec fn smooth(p: Part) -> bool {
    p.events.len() > 0 ==> failure(p.events.last()) is None
}

/// Its transaction has yet to begin.
spec fn waiting(p: Part) -> bool {
    smooth(p) && p.events.len() <= begin_at(p)
}

/// Its write transaction is open.
spec fn in_write(p: Part) -> bool {
    &&& smooth(p)
    &&& p.op !is GetToken
    &&& p.events.len() > begin_at(p)
    &&& p.events.len() >= 3 ==> p.events.len() <= commit_at(p)
}

/// It has committed its write transaction, or tried to.
spec fn acted(p: Part) -> bool {
    p.op !is GetToken && p.events.len() >= 3 && p.events.len() > commit_at(p)
}

/// It keeps to its script, and it is the writer while its write transaction is
/// open.
spec fn orderly(s: Shared, k: int) -> bool {
    let p = s.parts[k];
    &&& smooth(p) && p.events.len() >= 3 ==> p.events.len() <= end_at(p)
    &&& in_write(p) ==> s.writer == Some(k)
}

/// Where the calls of an operation stand.
proof fn lemma_due(s: Shared, k: int)
    requires
        orderly(s, k),
        due(s.parts[k].op, s.parts[k].events) !is Finish,
    ensures
        smooth(s.parts[k]),
        ({
            let p = s.parts[k];
            let a = due(p.op, p.events);
            &&& a is BeginWrite || a is BeginRead <==> p.events.len() == begin_at(p)
            &&& a is BeginRead <==> p.op is GetToken && p.events.len() == 0
            &&& a is Commit <==> in_write(p) && p.events.len() == commit_at(p)
            &&& p.events.len() >= 3 ==> p.events.len() < end_at(p)
            &&& waiting(p) && p.events.len() < begin_at(p) ==> a is Create || a is EncodeCode
                || a is EncodeToken
        }),
{
}

/// A step keeps the operation that takes it orderly. It changes what is committed
/// only where it commits.
proof fn lemma_own_step(codec: Codec, s: Shared, i: int, e: Event, t: Shared)
    requires
        shared_step(codec, s, i, e, t),
        orderly(s, i),
    ensures
        orderly(t, i),
        t.saved != s.saved ==> due(s.parts[i].op, s.parts[i].events) is Commit,
        due(s.parts[i].op, s.parts[i].events) is Commit ==> in_write(s.parts[i]) && !in_write(
            t.parts[i],
        ) && acted(t.parts[i]) && !acted(s.parts[i]),
        due(s.parts[i].op, s.parts[i].events) !is Commit ==> acted(t.parts[i]) == acted(
            s.parts[i],
        ),
        waiting(t.parts[i]) ==> waiting(s.parts[i]),
        in_write(t.parts[i]) ==> waiting(s.parts[i]) || in_write(s.parts[i]),
{
    let p = s.parts[i];
    let q = t.parts[i];
    lemma_due(s, i);
    assert(q.events.last() == e);
    assert(p.events.len() > 2 ==> q.events[2] == p.events[2]);
}

/// At every moment every operation is orderly.
proof fn lemma_orderly(h: History, codec: Codec, n: int, k: int)
    requires
        h.faithful(codec),
        0 <= n < h.moments.len(),
        0 <= k < h.moments[n].parts.len(),
    ensures
        h.moments[n].parts.len() == h.moments.first().parts.len(),
        h.moments[n].parts[k].op == h.moments.first().parts[k].op,
        orderly(h.moments[n], k),
    decreases n,
{
    reveal(History::faithful);
    if n > 0 {
        let (i, e) = h.told[n - 1];
        let s = h.moments[n - 1];
        let t = h.moments[n];
        assert(shared_step(codec, s, i, e, t));
        lemma_orderly(h, codec, n - 1, k);
        lemma_orderly(h, codec, n - 1, i);
        if k == i {
            lemma_own_step(codec, s, i, e, t);
        } else {
            assert(t.parts[k] == s.parts[k]);
        }
    } else {
        assert(h.moments[0] == h.moments.first());
        assert(h.moments.first().parts[k].events.len() == 0);
    }
}

/// One step of a history.
proof fn lemma_told(h: History, codec: Codec, n: int)
    requires
        h.faithful(codec),
        0 <= n < h.moments.len() - 1,
    ensures
        h.moments.len() == h.told.len() + 1,
        shared_step(codec, h.moments[n], h.told[n].0, h.told[n].1, h.moments[n + 1]),
        orderly(h.moments[n], h.told[n].0),
{
    reveal(History::faithful);
    assert(shared_step(codec, h.moments[n], h.told[n].0, h.told[n].1, h.moments[n + 1]));
    lemma_orderly(h, codec, n, h.told[n].0);
}

/// Before its transaction begins, an operation may as well have found another
/// database.
proof fn lemma_moved(p: Part, run: Run, codec: Codec, saved: Tables) -> (moved: Run)
    requires
        waiting(p),
        run.op == p.op,
        run.events == p.events,
        run.faithful(codec),
    ensures
        moved.op == run.op,
        moved.events == run.events,
        moved.faithful(codec),
        moved.before() == saved,
        moved.worlds.last() == (World { saved, ..run.worlds.last() }),
{
    reveal(Run::faithful);
    let moved = Run {
        op: run.op,
        events: run.events,
        worlds: Seq::new(run.worlds.len(), |k: int| World { saved, ..run.worlds[k] }),
    };
    assert forall|k: int| 0 <= k < moved.events.len() implies step(
        codec,
        moved.worlds[k],
        due(moved.op, moved.events.take(k)),
        #[trigger] moved.events[k],
        moved.worlds[k + 1],
    ) by {
        assert(k == 0);
        assert(step(
            codec,
            run.worlds[0],
            due(run.op, run.events.take(0)),
            run.events[0],
            run.worlds[1],
        ));
        assert(failure(run.events[0]) is None);
    }
    moved
}

/// The operation's events so far are those of a run that had the database to
/// itself, as it was at the moment `at`. If it has committed, that was the step
/// from there.
spec fn alone(h: History, codec: Codec, i: int, n: int, run: Run, at: int) -> bool {
    let p = h.moments[n].parts[i];
    &&& run.op == p.op
    &&& run.events == p.events
    &&& run.faithful(codec)
    &&& run.worlds.last().work == p.work
    &&& run.worlds.last().writing == p.writing
    &&& waiting(p) || in_write(p) ==> run.after() == h.moments[n].saved
    &&& 0 <= at <= n
    &&& run.before() == h.moments[at].saved
    &&& if acted(p) {
        &&& at < n
        &&& h.told[at].0 == i
        &&& in_write(h.moments[at].parts[i])
        &&& acted(h.moments[at + 1].parts[i])
        &&& run.after() == h.moments[at + 1].saved
    } else {
        run.after() == run.before()
    }
}

/// A step of an operation carries its run on.
proof fn lemma_alone_own(h: History, codec: Codec, i: int, n: int, run: Run, at: int) -> (acts: (
    Run,
    int,
))
    requires
        h.faithful(codec),
        0 <= n < h.moments.len() - 1,
        h.told[n].0 == i,
        alone(h, codec, i, n, run, at),
    ensures
        alone(h, codec, i, n + 1, acts.0, acts.1),
        acts.1 >= at,
        h.moments[n + 1].saved != h.moments[n].saved ==> acts.0.before() == h.moments[n].saved
            && acts.0.after() == h.moments[n + 1].saved,
{
    lemma_told(h, codec, n);
    let s = h.moments[n];
    let t = h.moments[n + 1];
    let e = h.told[n].1;
    let p = s.parts[i];
    let a = due(p.op, p.events);
    lemma_own_step(codec, s, i, e, t);
    lemma_due(s, i);
    let w = run.worlds.last();
    assert(w.saved == run.after());
    if waiting(p) || in_write(p) {
        assert(w == seen_by(s, i));
        let longer = lemma_extend(run, codec, e, seen_by(t, i));
        (
            longer,
            if a is Commit {
                n
            } else if waiting(p) {
                n + 1
            } else {
                at
            },
        )
    } else {
        let next = World { saved: w.saved, ..seen_by(t, i) };
        assert(step(codec, w, a, e, next));
        let longer = lemma_extend(run, codec, e, next);
        (longer, at)
    }
}

/// A step of another operation leaves the run as it is.
proof fn lemma_alone_other(h: History, codec: Codec, i: int, n: int, run: Run, at: int) -> (acts: (
    Run,
    int,
))
    requires
        h.faithful(codec),
        0 <= n < h.moments.len() - 1,
        0 <= i < h.moments[n].parts.len(),
        h.told[n].0 != i,
        alone(h, codec, i, n, run, at),
    ensures
        alone(h, codec, i, n + 1, acts.0, acts.1),
        acts.1 >= at,
{
    lemma_told(h, codec, n);
    lemma_orderly(h, codec, n, i);
    let s = h.moments[n];
    let t = h.moments[n + 1];
    let p = s.parts[i];
    lemma_own_step(codec, s, h.told[n].0, h.told[n].1, t);
    assert(t.parts[i] == p);
    if waiting(p) {
        (lemma_moved(p, run, codec, t.saved), n + 1)
    } else {
        (run, at)
    }
}

/// An operation that has not begun at the moment `m` acts alone, at that moment or
/// later.
proof fn lemma_alone(h: History, codec: Codec, i: int, m: int, n: int) -> (acts: (Run, int))
    requires
        h.faithful(codec),
        0 <= m <= n < h.moments.len(),
        0 <= i < h.moments[m].parts.len(),
        h.moments[m].parts[i].events.len() == 0,
    ensures
        0 <= i < h.moments[n].parts.len(),
        alone(h, codec, i, n, acts.0, acts.1),
        acts.1 >= m,
    decreases n,
{
    if n == m {
        reveal(Run::faithful);
        let p = h.moments[n].parts[i];
        (Run { op: p.op, events: p.events, worlds: seq![seen_by(h.moments[n], i)] }, n)
    } else {
        let (run, at) = lemma_alone(h, codec, i, m, n - 1);
        lemma_told(h, codec, n - 1);
        if h.told[n - 1].0 == i {
            lemma_alone_own(h, codec, i, n - 1, run, at)
        } else {
            lemma_alone_other(h, codec, i, n - 1, run, at)
        }
    }
}

/// The last moment.
proof fn lemma_nonempty(h: History, codec: Codec) -> (n: int)
    requires
        h.faithful(codec),
    ensures
        n == h.moments.len() - 1,
        n >= 0,
{
    reveal(History::faithful);
    h.moments.len() - 1
}

/// At first no operation has begun.
proof fn lemma_begin(h: History, codec: Codec, k: int)
    requires
        h.faithful(codec),
        0 <= k < h.moments.first().parts.len(),
    ensures
        h.moments.len() > 0,
        h.moments[0].parts[k].events.len() == 0,
{
    reveal(History::faithful);
    assert(h.moments.first().parts[k].events.len() == 0);
}

/// No operation joins or leaves.
proof fn lemma_same_count(h: History, codec: Codec, n: int)
    requires
        h.faithful(codec),
        0 <= n < h.moments.len(),
    ensures
        h.moments[n].parts.len() == h.moments.first().parts.len(),
    decreases n,
{
    if n > 0 {
        lemma_same_count(h, codec, n - 1);
        lemma_told(h, codec, n - 1);
    }
}

/// Operations that are under way at one time do not disturb one another: the events
/// of each are those of a run that had the database to itself, as it was at one
/// moment of its course. What the run leaves is what was committed right after that
/// moment, or it leaves all as it was.
pub proof fn law_operation_acts_at_one_moment(h: History, codec: Codec, i: int, m: int) -> (acts: (
    Run,
    int,
))
    requires
        h.faithful(codec),
        0 <= m < h.moments.len(),
        0 <= i < h.moments[m].parts.len(),
        h.moments[m].parts[i].events.len() == 0,
    ensures
        acts.0.op == h.moments.last().parts[i].op,
        acts.0.events == h.moments.last().parts[i].events,
        acts.0.faithful(codec),
        m <= acts.1 < h.moments.len(),
        acts.0.before() == h.moments[acts.1].saved,
        acts.0.after() == acts.0.before() || {
            &&& acts.1 + 1 < h.moments.len()
            &&& h.told[acts.1].0 == i
            &&& acts.0.after() == h.moments[acts.1 + 1].saved
        },
{
    lemma_alone(h, codec, i, m, h.moments.len() - 1)
}

/// What is committed changes only by what an operation does that has the database
/// to itself.
pub proof fn law_change_is_an_operation(h: History, codec: Codec, n: int) -> (run: Run)
    requires
        h.faithful(codec),
        0 <= n < h.moments.len() - 1,
        h.moments[n + 1].saved != h.moments[n].saved,
    ensures
        run.op == h.moments[n].parts[h.told[n].0].op,
        run.faithful(codec),
        run.before() == h.moments[n].saved,
        run.after() == h.moments[n + 1].saved,
{
    lemma_told(h, codec, n);
    let i = h.told[n].0;
    lemma_orderly(h, codec, n, i);
    lemma_begin(h, codec, i);
    let (run, at) = lemma_alone(h, codec, i, 0, n);
    lemma_alone_own(h, codec, i, n, run, at).0
}

/// What has committed does not do so again.
proof fn lemma_acts_once(h: History, codec: Codec, k: int, m: int, n: int)
    requires
        h.faithful(codec),
        0 <= m <= n < h.moments.len(),
        0 <= k < h.moments[m].parts.len(),
        acted(h.moments[m].parts[k]),
    ensures
        acted(h.moments[n].parts[k]),
    decreases n,
{
    if m < n {
        lemma_acts_once(h, codec, k, m, n - 1);
        lemma_orderly(h, codec, m, k);
        lemma_told(h, codec, n - 1);
        lemma_orderly(h, codec, n - 1, h.told[n - 1].0);
        let (i, e) = h.told[n - 1];
        if i == k {
            lemma_own_step(codec, h.moments[n - 1], i, e, h.moments[n]);
        } else {
            assert(h.moments[n].parts[k] == h.moments[n - 1].parts[k]);
        }
    }
}

/// What is over without an error has committed, if it writes at all.
proof fn lemma_over(s: Shared, k: int, answer: Answer)
    requires
        orderly(s, k),
        s.parts[k].ends(Ok(answer)),
    ensures
        s.parts[k].op !is GetToken ==> acted(s.parts[k]),
{
}

/// The operation at the last moment is the one at every moment.
proof fn lemma_last(h: History, codec: Codec, n: int, k: int)
    requires
        h.faithful(codec),
        0 <= n < h.moments.len(),
        0 <= k < h.moments[n].parts.len(),
    ensures
        h.moments.last().parts.len() == h.moments[n].parts.len(),
        h.moments.last().parts[k].op == h.moments[n].parts[k].op,
{
    lemma_same_count(h, codec, h.moments.len() - 1);
    lemma_same_count(h, codec, n);
    lemma_orderly(h, codec, n, k);
    lemma_orderly(h, codec, h.moments.len() - 1, k);
}

/// What is over stays as it is.
proof fn lemma_stays_over(h: History, codec: Codec, k: int, m: int, n: int)
    requires
        h.faithful(codec),
        0 <= m <= n < h.moments.len(),
        0 <= k < h.moments[m].parts.len(),
        h.moments[m].parts[k].is_over(),
    ensures
        h.moments[n].parts[k] == h.moments[m].parts[k],
    decreases n,
{
    if m < n {
        lemma_stays_over(h, codec, k, m, n - 1);
        lemma_told(h, codec, n - 1);
        lemma_same_count(h, codec, m);
        lemma_same_count(h, codec, n - 1);
    }
}

/// What has begun has begun for good.
proof fn lemma_stays_begun(h: History, codec: Codec, k: int, m: int, n: int)
    requires
        h.faithful(codec),
        0 <= m <= n < h.moments.len(),
        0 <= k < h.moments[m].parts.len(),
        h.moments[m].parts[k].events.len() > 0,
    ensures
        h.moments[n].parts[k].events.len() > 0,
    decreases n,
{
    if m < n {
        lemma_stays_begun(h, codec, k, m, n - 1);
        lemma_told(h, codec, n - 1);
        lemma_same_count(h, codec, m);
        lemma_same_count(h, codec, n - 1);
        if h.told[n - 1].0 != k {
            assert(h.moments[n].parts[k] == h.moments[n - 1].parts[k]);
        }
    }
}

/// No step is taken by an operation that does nothing any more.
proof fn lemma_aside(h: History, codec: Codec, m: int, n: int)
    requires
        h.faithful(codec),
        0 <= m <= n < h.moments.len() - 1,
    ensures
        !aside(h, m, h.told[n].0),
{
    let k = h.told[n].0;
    lemma_told(h, codec, n);
    lemma_same_count(h, codec, m);
    lemma_same_count(h, codec, n);
    if h.moments[m].parts[k].is_over() {
        lemma_stays_over(h, codec, k, m, n);
    }
    lemma_stays_begun(h, codec, k, n + 1, h.moments.len() - 1);
}

/// A key that is not there stays away as long as nothing records it.
proof fn lemma_absent_until(
    h: History,
    codec: Codec,
    l: int,
    m: int,
    n: int,
    t: Table,
    key: Seq<char>,
)
    requires
        h.faithful(codec),
        0 <= l <= m <= n < h.moments.len(),
        forall|k: int|
            0 <= k < h.moments.last().parts.len() && records(
                (#[trigger] h.moments.last().parts[k]).op,
                t,
                key,
            ) ==> aside(h, l, k),
        !held(h.moments[m].saved, t).contains_key(key),
    ensures
        !held(h.moments[n].saved, t).contains_key(key),
    decreases n,
{
    if m < n {
        lemma_absent_until(h, codec, l, m, n - 1, t, key);
        if h.moments[n].saved != h.moments[n - 1].saved {
            let run = law_change_is_an_operation(h, codec, n - 1);
            lemma_told(h, codec, n - 1);
            lemma_last(h, codec, n - 1, h.told[n - 1].0);
            lemma_aside(h, codec, l, n - 1);
            law_absent_key_stays_absent(run, codec, t, key);
        }
    }
}

/// A record stays as long as nothing but `i`, which has committed before, and `j`,
/// which has yet to, records or removes its key.
proof fn lemma_kept_until(
    h: History,
    codec: Codec,
    l: int,
    m: int,
    n: int,
    i: int,
    j: int,
    t: Table,
    key: Seq<char>,
)
    requires
        h.faithful(codec),
        0 <= l <= m <= n < h.moments.len(),
        0 <= i < h.moments[m].parts.len(),
        0 <= j < h.moments[n].parts.len(),
        acted(h.moments[m].parts[i]),
        !acted(h.moments[n].parts[j]),
        forall|k: int|
            0 <= k < h.moments.last().parts.len() && k != i && k != j && (records(
                (#[trigger] h.moments.last().parts[k]).op,
                t,
                key,
            ) || removes(h.moments.last().parts[k].op, t, key)) ==> aside(h, l, k),
        held(h.moments[m].saved, t).contains_key(key),
    ensures
        held(h.moments[n].saved, t).contains_key(key),
        held(h.moments[n].saved, t)[key] == held(h.moments[m].saved, t)[key],
    decreases n,
{
    if m < n {
        lemma_told(h, codec, n - 1);
        let (k, e) = h.told[n - 1];
        lemma_own_step(codec, h.moments[n - 1], k, e, h.moments[n]);
        if acted(h.moments[n - 1].parts[j]) {
            lemma_acts_once(h, codec, j, n - 1, n);
        }
        lemma_acts_once(h, codec, i, m, n - 1);
        lemma_kept_until(h, codec, l, m, n - 1, i, j, t, key);
        if h.moments[n].saved != h.moments[n - 1].saved {
            assert(k != i && k != j);
            let run = law_change_is_an_operation(h, codec, n - 1);
            lemma_last(h, codec, n - 1, k);
            lemma_aside(h, codec, l, n - 1);
            law_untouched_record_is_kept(run, codec, t, key);
        }
    }
}

/// A recorded code is redeemed once, also where redemptions are under way at one
/// time: of any two that succeed, one answers that there is no such code, unless
/// the code is recorded meanwhile. What recorded it was over before they began.
pub proof fn law_recorded_code_is_redeemed_once_at_a_time(
    h: History,
    codec: Codec,
    m: int,
    i: int,
    j: int,
    c: Seq<char>,
    first: Answer,
    other: Answer,
)
    requires
        h.faithful(codec),
        0 <= m < h.moments.len(),
        0 <= i < j < h.moments.last().parts.len(),
        forall|k: int|
            0 <= k < h.moments.last().parts.len() && records(
                (#[trigger] h.moments.last().parts[k]).op,
                Table::Codes,
                c,
            ) ==> aside(h, m, k),
        h.moments[m].parts[i].events.len() == 0,
        h.moments[m].parts[j].events.len() == 0,
        redeems(h.moments.last().parts[i].op, c),
        redeems(h.moments.last().parts[j].op, c),
        h.moments.last().parts[i].ends(Ok(first)),
        h.moments.last().parts[j].ends(Ok(other)),
    ensures
        first == Answer::Code(None) || other == Answer::Code(None),
{
    lemma_same_count(h, codec, m);
    lemma_same_count(h, codec, h.moments.len() - 1);
    let (one, at) = law_operation_acts_at_one_moment(h, codec, i, m);
    let (two, then) = law_operation_acts_at_one_moment(h, codec, j, m);
    law_take_code(one, codec, one.op->TakeCode_code, first);
    law_take_code(two, codec, two.op->TakeCode_code, other);
    if first != Answer::Code(None) && other != Answer::Code(None) {
        if at < then {
            lemma_absent_until(h, codec, m, at + 1, then, Table::Codes, c);
        } else if then < at {
            lemma_absent_until(h, codec, m, then + 1, at, Table::Codes, c);
        }
    }
}

/// A code is redeemed once, also where redemptions are under way at one time: of
/// any two that succeed, one answers that there is no such code, unless the code is
/// recorded meanwhile.
pub proof fn law_code_is_redeemed_once_at_a_time(
    h: History,
    codec: Codec,
    i: int,
    j: int,
    c: Seq<char>,
    first: Answer,
    other: Answer,
)
    requires
        h.faithful(codec),
        0 <= i < j < h.moments.last().parts.len(),
        forall|k: int|
            0 <= k < h.moments.last().parts.len() ==> !records(
                (#[trigger] h.moments.last().parts[k]).op,
                Table::Codes,
                c,
            ),
        redeems(h.moments.last().parts[i].op, c),
        redeems(h.moments.last().parts[j].op, c),
        h.moments.last().parts[i].ends(Ok(first)),
        h.moments.last().parts[j].ends(Ok(other)),
    ensures
        first == Answer::Code(None) || other == Answer::Code(None),
{
    let n = lemma_nonempty(h, codec);
    lemma_same_count(h, codec, n);
    lemma_begin(h, codec, i);
    lemma_begin(h, codec, j);
    law_recorded_code_is_redeemed_once_at_a_time(h, codec, 0, i, j, c, first, other);
}

/// A revoked token is dead, whatever is under way besides: a look-up that begins
/// after the revocation is over does not give its record, unless the token is
/// recorded meanwhile. What recorded it was over before the revocation began.
pub proof fn law_revoked_token_is_dead_at_once(
    h: History,
    codec: Codec,
    l: int,
    m: int,
    i: int,
    j: int,
    token: String,
    asked: String,
    done: Answer,
    later: Answer,
)
    requires
        h.faithful(codec),
        0 <= l <= m < h.moments.len(),
        0 <= i < h.moments[m].parts.len(),
        0 <= j < h.moments[m].parts.len(),
        forall|k: int|
            0 <= k < h.moments.last().parts.len() && records(
                (#[trigger] h.moments.last().parts[k]).op,
                Table::Tokens,
                token@,
            ) ==> aside(h, l, k),
        h.moments[l].parts[i].events.len() == 0,
        h.moments[m].parts[i].op == (Operation::RevokeToken { token }),
        h.moments[m].parts[i].ends(Ok(done)),
        h.moments[m].parts[j].events.len() == 0,
        h.moments.last().parts[j].op == (Operation::GetToken { token: asked }),
        asked@ == token@,
        h.moments.last().parts[j].ends(Ok(later)),
    ensures
        later == Answer::Token(None),
{
    lemma_same_count(h, codec, m);
    lemma_same_count(h, codec, l);
    let (one, at) = lemma_alone(h, codec, i, l, m);
    let (two, then) = law_operation_acts_at_one_moment(h, codec, j, m);
    law_revoke_token(one, codec, token, done);
    lemma_orderly(h, codec, m, i);
    lemma_over(h.moments[m], i, done);
    lemma_absent_until(h, codec, l, at + 1, then, Table::Tokens, token@);
    law_get_token(two, codec, asked, later);
}

/// A recorded token is read back, whatever is under way besides: a look-up that
/// begins after the recording is over gives the record as long as that has not
/// expired, unless the token is revoked or recorded anew meanwhile. What did so
/// earlier was over before the recording began.
pub proof fn law_recorded_token_is_read_back_at_once(
    h: History,
    codec: Codec,
    l: int,
    m: int,
    i: int,
    j: int,
    token: String,
    asked: String,
    rec: TokenRecord,
    done: Answer,
    answer: Answer,
)
    requires
        h.faithful(codec),
        0 <= l <= m < h.moments.len(),
        0 <= i < h.moments[m].parts.len(),
        0 <= j < h.moments[m].parts.len(),
        forall|k: int|
            0 <= k < h.moments.last().parts.len() && k != i && (records(
                (#[trigger] h.moments.last().parts[k]).op,
                Table::Tokens,
                token@,
            ) || removes(h.moments.last().parts[k].op, Table::Tokens, token@)) ==> aside(h, l, k),
        h.moments[l].parts[i].events.len() == 0,
        h.moments[m].parts[i].op == (Operation::PutToken { token, grant: rec }),
        h.moments[m].parts[i].ends(Ok(done)),
        h.moments[m].parts[j].events.len() == 0,
        h.moments.last().parts[j].op == (Operation::GetToken { token: asked }),
        asked@ == token@,
        h.moments.last().parts[j].ends(Ok(answer)),
    ensures
        answer matches Answer::Token(found) && match found {
            Some(r) => r@ == rec@ && rec.expires_at > h.moments.last().parts[j].clock(),
            None => rec.expires_at <= h.moments.last().parts[j].clock(),
        },
{
    lemma_same_count(h, codec, m);
    lemma_same_count(h, codec, l);
    let (one, at) = lemma_alone(h, codec, i, l, m);
    let (two, then) = law_operation_acts_at_one_moment(h, codec, j, m);
    law_put_token(one, codec, token, rec, done);
    lemma_orderly(h, codec, m, i);
    lemma_over(h.moments[m], i, done);
    lemma_same_count(h, codec, at + 1);
    lemma_same_count(h, codec, then);
    lemma_last(h, codec, then, j);
    lemma_kept_until(h, codec, l, at + 1, then, i, j, Table::Tokens, token@);
    law_get_token(two, codec, asked, answer);
}

/// A recorded code is redeemed, whatever is under way besides: a redemption that
/// begins after the recording is over gives the record as long as that has not
/// expired, unless the code is recorded anew or redeemed by another meanwhile. What
/// did so earlier was over before the recording began.
pub proof fn law_recorded_code_is_redeemed_at_once(
    h: History,
    codec: Codec,
    l: int,
    m: int,
    i: int,
    j: int,
    code: String,
    asked: String,
    rec: AuthCode,
    done: Answer,
    answer: Answer,
)
    requires
        h.faithful(codec),
        0 <= l <= m < h.moments.len(),
        0 <= i < h.moments[m].parts.len(),
        0 <= j < h.moments[m].parts.len(),
        forall|k: int|
            0 <= k < h.moments.last().parts.len() && k != i && k != j && (records(
                (#[trigger] h.moments.last().parts[k]).op,
                Table::Codes,
                code@,
            ) || removes(h.moments.last().parts[k].op, Table::Codes, code@)) ==> aside(h, l, k),
        h.moments[l].parts[i].events.len() == 0,
        h.moments[m].parts[i].op == (Operation::PutCode { code, rec }),
        h.moments[m].parts[i].ends(Ok(done)),
        h.moments[m].parts[j].events.len() == 0,
        h.moments.last().parts[j].op == (Operation::TakeCode { code: asked }),
        asked@ == code@,
        h.moments.last().parts[j].ends(Ok(answer)),
    ensures
        answer matches Answer::Code(found) && match found {
            Some(r) => r@ == rec@ && rec.expires_at > h.moments.last().parts[j].clock(),
            None => rec.expires_at <= h.moments.last().parts[j].clock(),
        },
{
    let n = h.moments.len() - 1;
    lemma_same_count(h, codec, m);
    lemma_same_count(h, codec, l);
    let (one, at) = lemma_alone(h, codec, i, l, m);
    let (two, then) = lemma_alone(h, codec, j, m, n);
    law_put_code(one, codec, code, rec, done);
    lemma_orderly(h, codec, m, i);
    lemma_over(h.moments[m], i, done);
    lemma_orderly(h, codec, n, j);
    lemma_over(h.moments[n], j, answer);
    lemma_same_count(h, codec, at + 1);
    lemma_same_count(h, codec, then);
    lemma_kept_until(h, codec, l, at + 1, then, i, j, Table::Codes, code@);
    law_take_code(two, codec, asked, answer);
}

} // verus!
