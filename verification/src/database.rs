//! What the storage operations do to a transactional database.
//!
//! The database is described by what its calls may answer ([`step`]): a write
//! transaction works on a copy of the tables, which replaces them when it is
//! committed. Any call may fail. The laws here are about a run that has the
//! database to itself, and about such runs in turn; [`crate::shared`] is about
//! operations that are under way at one time.

use vstd::prelude::*;

use crate::store::{
    answers, due, failure, script, Action, Answer, AuthCode, CodeRecord, Event, Operation,
    StoreError, Table, TokenGrant, TokenRecord,
};

verus! {

/// The tables that exist, each with its keys and their values.
pub type Tables = Map<Table, Map<Seq<char>, Seq<u8>>>;

/// The database at one moment of a run.
pub struct World {
    /// What is committed.
    pub saved: Tables,
    /// What the open transaction sees.
    pub work: Tables,
    /// Whether the open transaction may write.
    pub writing: bool,
}

/// Which record encoded bytes stand for.
pub struct Codec {
    pub code: spec_fn(Seq<u8>) -> CodeRecord,
    pub token: spec_fn(Seq<u8>) -> TokenGrant,
}

/// The keys and values of a table; none where the table does not exist.
pub open spec fn held(tables: Tables, t: Table) -> Map<Seq<char>, Seq<u8>> {
    if tables.contains_key(t) {
        tables[t]
    } else {
        Map::empty()
    }
}

/// The value that was found is the one that the table holds under the key.
pub open spec fn finds(tables: Tables, t: Table, key: Seq<char>, found: Option<Vec<u8>>) -> bool {
    match found {
        Some(bytes) => held(tables, t).contains_key(key) && held(tables, t)[key] == bytes@,
        None => !held(tables, t).contains_key(key),
    }
}

/// The database may answer `e` to the call `a` and go over from `w` to `next`.
pub open spec fn step(codec: Codec, w: World, a: Action, e: Event, next: World) -> bool {
    &&& answers(a, e)
    &&& a !is Commit ==> next.saved == w.saved
    &&& failure(e) is None ==> match a {
        Action::EncodeCode(rec) => next == w && (codec.code)(e->Encoded_0@) == rec@,
        Action::EncodeToken(rec) => next == w && (codec.token)(e->Encoded_0@) == rec@,
        Action::DecodeCode(bytes) => next == w && e->DecodedCode_0@ == (codec.code)(bytes@),
        Action::DecodeToken(bytes) => next == w && e->DecodedToken_0@ == (codec.token)(bytes@),
        Action::BeginWrite => next.work == w.saved && next.writing,
        Action::BeginRead => next.work == w.saved && !next.writing,
        Action::OpenTable(t) => {
            &&& next.writing == w.writing
            &&& w.writing || w.work.contains_key(t)
            &&& next.work == w.work.insert(t, held(w.work, t))
        },
        Action::Insert { table, key, value } => {
            &&& w.writing
            &&& next.writing == w.writing
            &&& next.work == w.work.insert(table, held(w.work, table).insert(key@, value@))
        },
        Action::Remove { table, key } => {
            &&& w.writing
            &&& next.writing == w.writing
            &&& finds(w.work, table, key@, e->Found_0)
            &&& next.work == w.work.insert(table, held(w.work, table).remove(key@))
        },
        Action::Get { table, key } => {
            &&& !w.writing
            &&& next == w
            &&& finds(w.work, table, key@, e->Found_0)
        },
        Action::Commit => w.writing && next.saved == w.work,
        Action::Create | Action::ReadClock => next == w,
        Action::Finish(_) => false,
    }
    // A commit that failed may have been carried out.
    &&& a is Commit && failure(e) is Some ==> next.saved == w.saved || next.saved == w.work
}

/// A run of an operation on a database: the events, and the database before each
/// of them and after the last.
pub struct Run {
    pub op: Operation,
    pub events: Seq<Event>,
    pub worlds: Seq<World>,
}

impl Run {
    /// The database answers each action that is due.
    #[verifier::opaque]
    pub open spec fn faithful(self, codec: Codec) -> bool {
        &&& self.worlds.len() == self.events.len() + 1
        &&& forall|k: int|
            0 <= k < self.events.len() ==> step(
                codec,
                self.worlds[k],
                due(self.op, self.events.take(k)),
                #[trigger] self.events[k],
                self.worlds[k + 1],
            )
    }

    /// What was committed before the run.
    pub open spec fn before(self) -> Tables {
        self.worlds.first().saved
    }

    /// What is committed after the run.
    pub open spec fn after(self) -> Tables {
        self.worlds.last().saved
    }

    /// The run is over, with this answer.
    pub open spec fn ends(self, r: Result<Answer, StoreError>) -> bool {
        due(self.op, self.events) == Action::Finish(r)
    }

    /// The time that was read last.
    pub open spec fn clock(self) -> u64 {
        self.events.last()->Clock_0
    }
}

/// A run goes on by one more event.
pub(crate) proof fn lemma_extend(run: Run, codec: Codec, e: Event, next: World) -> (longer: Run)
    requires
        run.faithful(codec),
        step(codec, run.worlds.last(), due(run.op, run.events), e, next),
    ensures
        longer == (Run { op: run.op, events: run.events.push(e), worlds: run.worlds.push(next) }),
        longer.faithful(codec),
        longer.before() == run.before(),
        longer.after() == next.saved,
{
    reveal(Run::faithful);
    let longer = Run {
        op: run.op,
        events: run.events.push(e),
        worlds: run.worlds.push(next),
    };
    assert forall|k: int| 0 <= k < longer.events.len() implies step(
        codec,
        longer.worlds[k],
        due(longer.op, longer.events.take(k)),
        #[trigger] longer.events[k],
        longer.worlds[k + 1],
    ) by {
        assert(longer.events.take(k) =~= run.events.take(k));
        if k == run.events.len() {
            assert(run.events.take(k) =~= run.events);
        } else {
            assert(longer.events[k] == run.events[k]);
        }
    }
    longer
}

/// The `k`-th action of a script depends on the events before it only.
proof fn lemma_script_looks_back(op: Operation, events: Seq<Event>, k: int)
    requires
        0 <= k <= events.len(),
        k > 0 ==> failure(events[k - 1]) is None,
    ensures
        due(op, events.take(k)) == script(op, events)[k],
{
    let h = events.take(k);
    assert(forall|j: int| 0 <= j < k ==> h[j] == events[j]);
    if k > 2 {
        assert(h[0] == events[0]);
        assert(h[2] == events[2]);
    }
    if k > 5 {
        assert(h[3] == events[3]);
        assert(h[4] == events[4]);
        assert(h[5] == events[5]);
    }
}

/// The `k`-th event of a run, if there is one, answers the script's action.
spec fn answered(run: Run, codec: Codec, k: int) -> bool {
    k < run.events.len() ==> step(
        codec,
        run.worlds[k],
        script(run.op, run.events)[k],
        run.events[k],
        run.worlds[k + 1],
    )
}

/// Each event of a run answers the script's action, and it is no failure unless it
/// is the last one.
proof fn lemma_event(run: Run, codec: Codec, k: int)
    requires
        run.faithful(codec),
        0 <= k,
    ensures
        run.worlds.len() == run.events.len() + 1,
        answered(run, codec, k),
        k < run.events.len() - 1 ==> failure(run.events[k]) is None,
{
    reveal(Run::faithful);
    if k < run.events.len() - 1 {
        let h = run.events.take(k + 1);
        assert(answers(due(run.op, h), run.events[k + 1]));
        assert(h.last() == run.events[k]);
    }
    if 0 < k < run.events.len() {
        let h = run.events.take(k);
        assert(answers(due(run.op, h), run.events[k]));
        assert(h.last() == run.events[k - 1]);
    }
    if k < run.events.len() {
        lemma_script_looks_back(run.op, run.events, k);
        assert(step(
            codec,
            run.worlds[k],
            due(run.op, run.events.take(k)),
            run.events[k],
            run.worlds[k + 1],
        ));
    }
}

/// A run has at most six events; what [`lemma_event`] says holds of each.
proof fn lemma_events(run: Run, codec: Codec)
    requires
        run.faithful(codec),
    ensures
        run.worlds.len() == run.events.len() + 1,
        run.events.len() <= 6,
        answered(run, codec, 0),
        answered(run, codec, 1),
        answered(run, codec, 2),
        answered(run, codec, 3),
        answered(run, codec, 4),
        answered(run, codec, 5),
        forall|k: int| 0 <= k < run.events.len() - 1 ==> failure(#[trigger] run.events[k]) is None,
{
    lemma_event(run, codec, 0);
    lemma_event(run, codec, 1);
    lemma_event(run, codec, 2);
    lemma_event(run, codec, 3);
    lemma_event(run, codec, 4);
    lemma_event(run, codec, 5);
    lemma_event(run, codec, 6);
    assert forall|k: int| 0 <= k < run.events.len() - 1 implies failure(
        #[trigger] run.events[k],
    ) is None by {
        lemma_event(run, codec, k);
    }
}

/// Where a code is redeemed without an error, its record is gone afterwards, and
/// nothing else has changed. The answer is the record that was there, unless there
/// was none or it has expired: an expired code is spent as well.
pub proof fn law_take_code(run: Run, codec: Codec, code: String, answer: Answer)
    requires
        run.faithful(codec),
        run.op == (Operation::TakeCode { code }),
        run.ends(Ok(answer)),
    ensures
        held(run.after(), Table::Codes) == held(run.before(), Table::Codes).remove(code@),
        held(run.after(), Table::Tokens) == held(run.before(), Table::Tokens),
        answer matches Answer::Code(found) && match found {
            Some(rec) => {
                &&& held(run.before(), Table::Codes).contains_key(code@)
                &&& rec@ == (codec.code)(held(run.before(), Table::Codes)[code@])
                &&& rec.expires_at > run.clock()
            },
            None => held(run.before(), Table::Codes).contains_key(code@) ==> (codec.code)(
                held(run.before(), Table::Codes)[code@],
            ).expires_at <= run.clock(),
        },
{
    lemma_events(run, codec);
    assert(run.events.len() == if run.events[2]->Found_0 is Some { 6nat } else { 4nat });
}

/// Where a code is recorded without an error, the table maps it to bytes that stand
/// for the record, and nothing else has changed.
pub proof fn law_put_code(run: Run, codec: Codec, code: String, rec: AuthCode, answer: Answer)
    requires
        run.faithful(codec),
        run.op == (Operation::PutCode { code, rec }),
        run.ends(Ok(answer)),
    ensures
        answer == Answer::Done,
        held(run.after(), Table::Codes).contains_key(code@),
        (codec.code)(held(run.after(), Table::Codes)[code@]) == rec@,
        held(run.after(), Table::Codes).remove(code@) == held(run.before(), Table::Codes).remove(
            code@,
        ),
        held(run.after(), Table::Tokens) == held(run.before(), Table::Tokens),
{
    lemma_events(run, codec);
    assert(run.events.len() == 5);
    assert(held(run.after(), Table::Codes).remove(code@) =~= held(
        run.before(),
        Table::Codes,
    ).remove(code@));
}

/// Where a token is recorded without an error, the table maps it to bytes that
/// stand for the record, and nothing else has changed.
pub proof fn law_put_token(run: Run, codec: Codec, token: String, rec: TokenRecord, answer: Answer)
    requires
        run.faithful(codec),
        run.op == (Operation::PutToken { token, grant: rec }),
        run.ends(Ok(answer)),
    ensures
        answer == Answer::Done,
        held(run.after(), Table::Tokens).contains_key(token@),
        (codec.token)(held(run.after(), Table::Tokens)[token@]) == rec@,
        held(run.after(), Table::Tokens).remove(token@) == held(
            run.before(),
            Table::Tokens,
        ).remove(token@),
        held(run.after(), Table::Codes) == held(run.before(), Table::Codes),
{
    lemma_events(run, codec);
    assert(run.events.len() == 5);
    assert(held(run.after(), Table::Tokens).remove(token@) =~= held(
        run.before(),
        Table::Tokens,
    ).remove(token@));
}

/// Where a token is looked up without an error, the answer is its record, unless
/// there is none or it has expired.
pub proof fn law_get_token(run: Run, codec: Codec, token: String, answer: Answer)
    requires
        run.faithful(codec),
        run.op == (Operation::GetToken { token }),
        run.ends(Ok(answer)),
    ensures
        answer matches Answer::Token(found) && match found {
            Some(rec) => {
                &&& held(run.before(), Table::Tokens).contains_key(token@)
                &&& rec@ == (codec.token)(held(run.before(), Table::Tokens)[token@])
                &&& rec.expires_at > run.clock()
            },
            None => held(run.before(), Table::Tokens).contains_key(token@) ==> (codec.token)(
                held(run.before(), Table::Tokens)[token@],
            ).expires_at <= run.clock(),
        },
{
    lemma_events(run, codec);
    assert(run.events.len() == if run.events[2]->Found_0 is Some { 5nat } else { 3nat });
}

/// Looking a token up changes nothing, whether it succeeds or fails.
pub proof fn law_get_token_changes_nothing(run: Run, codec: Codec)
    requires
        run.faithful(codec),
        run.op is GetToken,
    ensures
        run.after() == run.before(),
{
    lemma_events(run, codec);
    assert(run.events.len() <= 5);
}

/// Where a token is revoked without an error, its record is gone, and nothing else
/// has changed.
pub proof fn law_revoke_token(run: Run, codec: Codec, token: String, answer: Answer)
    requires
        run.faithful(codec),
        run.op == (Operation::RevokeToken { token }),
        run.ends(Ok(answer)),
    ensures
        answer == Answer::Done,
        held(run.after(), Table::Tokens) == held(run.before(), Table::Tokens).remove(token@),
        held(run.after(), Table::Codes) == held(run.before(), Table::Codes),
{
    lemma_events(run, codec);
    assert(run.events.len() == 4);
}

/// After the database was opened without an error both tables exist, and they hold
/// what they held before.
pub proof fn law_open(run: Run, codec: Codec, answer: Answer)
    requires
        run.faithful(codec),
        run.op == Operation::Open,
        run.ends(Ok(answer)),
    ensures
        answer == Answer::Done,
        run.after().contains_key(Table::Codes),
        run.after().contains_key(Table::Tokens),
        held(run.after(), Table::Codes) == held(run.before(), Table::Codes),
        held(run.after(), Table::Tokens) == held(run.before(), Table::Tokens),
{
    lemma_events(run, codec);
    assert(run.events.len() == 5);
}

/// An operation fails only where a call failed, and with that call's error.
pub proof fn law_only_failed_calls_fail(run: Run, codec: Codec, error: StoreError)
    requires
        run.faithful(codec),
        run.ends(Err(error)),
    ensures
        run.events.len() > 0,
        failure(run.events.last()) == Some(error),
{
    lemma_events(run, codec);
    if run.events.len() == 0 || failure(run.events.last()) is None {
        assert(run.events.len() <= 6);
        assert(script(run.op, run.events)[run.events.len() as int] == Action::Finish(Err(error)));
    }
}

/// An operation that fails before its commit leaves the database as it was.
pub proof fn law_failed_operation_changes_nothing(run: Run, codec: Codec, error: StoreError)
    requires
        run.faithful(codec),
        run.ends(Err(error)),
        due(run.op, run.events.drop_last()) !is Commit,
    ensures
        run.after() == run.before(),
{
    lemma_events(run, codec);
    law_only_failed_calls_fail(run, codec, error);
}

/// The operation maps this key of the table to a record.
pub open spec fn records(op: Operation, t: Table, key: Seq<char>) -> bool {
    match op {
        Operation::PutCode { code, .. } => t == Table::Codes && code@ == key,
        Operation::PutToken { token, .. } => t == Table::Tokens && token@ == key,
        _ => false,
    }
}

/// The operation removes this key from the table.
pub open spec fn removes(op: Operation, t: Table, key: Seq<char>) -> bool {
    match op {
        Operation::TakeCode { code } => t == Table::Codes && code@ == key,
        Operation::RevokeToken { token } => t == Table::Tokens && token@ == key,
        _ => false,
    }
}

/// A key that is not there is not there after any operation but one that records
/// it, whether that succeeds, fails or is broken off.
pub proof fn law_absent_key_stays_absent(run: Run, codec: Codec, t: Table, key: Seq<char>)
    requires
        run.faithful(codec),
        !records(run.op, t, key),
        !held(run.before(), t).contains_key(key),
    ensures
        !held(run.after(), t).contains_key(key),
{
    lemma_events(run, codec);
}

/// A record that is there is the same after any operation but one that records or
/// removes its key, whether that succeeds, fails or is broken off.
pub proof fn law_untouched_record_is_kept(run: Run, codec: Codec, t: Table, key: Seq<char>)
    requires
        run.faithful(codec),
        !records(run.op, t, key),
        !removes(run.op, t, key),
        held(run.before(), t).contains_key(key),
    ensures
        held(run.after(), t).contains_key(key),
        held(run.after(), t)[key] == held(run.before(), t)[key],
{
    lemma_events(run, codec);
}

/// Runs one after the other, on one database.
pub open spec fn in_turn(runs: Seq<Run>, codec: Codec) -> bool {
    &&& forall|k: int| 0 <= k < runs.len() ==> (#[trigger] runs[k]).faithful(codec)
    &&& forall|k: int|
        0 <= k < runs.len() - 1 ==> (#[trigger] runs[k]).after() == runs[k + 1].before()
}

proof fn lemma_absent_between(
    runs: Seq<Run>,
    codec: Codec,
    i: int,
    j: int,
    t: Table,
    key: Seq<char>,
)
    requires
        in_turn(runs, codec),
        0 <= i < j < runs.len(),
        !held(runs[i].after(), t).contains_key(key),
        forall|k: int| i < k < j ==> !records((#[trigger] runs[k]).op, t, key),
    ensures
        !held(runs[j].before(), t).contains_key(key),
    decreases j - i,
{
    assert(runs[i].after() == runs[i + 1].before());
    if i + 1 < j {
        assert(runs[i + 1].faithful(codec));
        law_absent_key_stays_absent(runs[i + 1], codec, t, key);
        lemma_absent_between(runs, codec, i + 1, j, t, key);
    }
}

proof fn lemma_kept_between(
    runs: Seq<Run>,
    codec: Codec,
    i: int,
    j: int,
    t: Table,
    key: Seq<char>,
)
    requires
        in_turn(runs, codec),
        0 <= i < j < runs.len(),
        held(runs[i].after(), t).contains_key(key),
        forall|k: int|
            i < k < j ==> !records((#[trigger] runs[k]).op, t, key) && !removes(
                runs[k].op,
                t,
                key,
            ),
    ensures
        held(runs[j].before(), t).contains_key(key),
        held(runs[j].before(), t)[key] == held(runs[i].after(), t)[key],
    decreases j - i,
{
    assert(runs[i].after() == runs[i + 1].before());
    if i + 1 < j {
        assert(runs[i + 1].faithful(codec));
        law_untouched_record_is_kept(runs[i + 1], codec, t, key);
        lemma_kept_between(runs, codec, i + 1, j, t, key);
    }
}

/// Redeeming a code gives back the record that was put under it, as long as that
/// has not expired, whatever else went on in between, failures among it. Only a
/// redemption of the code or another record under it may not have come between.
pub proof fn law_recorded_code_is_redeemed(
    runs: Seq<Run>,
    codec: Codec,
    i: int,
    j: int,
    code: String,
    asked: String,
    rec: AuthCode,
    done: Answer,
    answer: Answer,
)
    requires
        in_turn(runs, codec),
        0 <= i < j < runs.len(),
        runs[i].op == (Operation::PutCode { code, rec }),
        runs[i].ends(Ok(done)),
        forall|k: int|
            i < k < j ==> !records((#[trigger] runs[k]).op, Table::Codes, code@) && !removes(
                runs[k].op,
                Table::Codes,
                code@,
            ),
        runs[j].op == (Operation::TakeCode { code: asked }),
        asked@ == code@,
        runs[j].ends(Ok(answer)),
    ensures
        answer matches Answer::Code(found) && match found {
            Some(r) => r@ == rec@ && rec.expires_at > runs[j].clock(),
            None => rec.expires_at <= runs[j].clock(),
        },
{
    law_put_code(runs[i], codec, code, rec, done);
    lemma_kept_between(runs, codec, i, j, Table::Codes, code@);
    law_take_code(runs[j], codec, asked, answer);
}

/// Looking a token up gives back the record that was put under it, as long as that
/// has not expired, whatever else went on in between, failures among it. Only a
/// revocation of the token or another record under it may not have come between.
pub proof fn law_recorded_token_is_read_back(
    runs: Seq<Run>,
    codec: Codec,
    i: int,
    j: int,
    token: String,
    asked: String,
    rec: TokenRecord,
    done: Answer,
    answer: Answer,
)
    requires
        in_turn(runs, codec),
        0 <= i < j < runs.len(),
        runs[i].op == (Operation::PutToken { token, grant: rec }),
        runs[i].ends(Ok(done)),
        forall|k: int|
            i < k < j ==> !records((#[trigger] runs[k]).op, Table::Tokens, token@) && !removes(
                runs[k].op,
                Table::Tokens,
                token@,
            ),
        runs[j].op == (Operation::GetToken { token: asked }),
        asked@ == token@,
        runs[j].ends(Ok(answer)),
    ensures
        answer matches Answer::Token(found) && match found {
            Some(r) => r@ == rec@ && rec.expires_at > runs[j].clock(),
            None => rec.expires_at <= runs[j].clock(),
        },
{
    law_put_token(runs[i], codec, token, rec, done);
    lemma_kept_between(runs, codec, i, j, Table::Tokens, token@);
    law_get_token(runs[j], codec, asked, answer);
}

/// A code is redeemed once: after one redemption went through, whatever it
/// answered, no later one gives the record, unless the code was recorded anew in
/// between.
pub proof fn law_code_is_redeemed_once(
    runs: Seq<Run>,
    codec: Codec,
    i: int,
    j: int,
    first: String,
    again: String,
    answer: Answer,
    later: Answer,
)
    requires
        in_turn(runs, codec),
        0 <= i < j < runs.len(),
        runs[i].op == (Operation::TakeCode { code: first }),
        runs[i].ends(Ok(answer)),
        forall|k: int| i < k < j ==> !records((#[trigger] runs[k]).op, Table::Codes, first@),
        runs[j].op == (Operation::TakeCode { code: again }),
        again@ == first@,
        runs[j].ends(Ok(later)),
    ensures
        later == Answer::Code(None),
{
    law_take_code(runs[i], codec, first, answer);
    lemma_absent_between(runs, codec, i, j, Table::Codes, first@);
    law_take_code(runs[j], codec, again, later);
}

/// A revoked token is dead: no later look-up gives its record, unless the token was
/// recorded anew in between.
pub proof fn law_revoked_token_is_dead(
    runs: Seq<Run>,
    codec: Codec,
    i: int,
    j: int,
    token: String,
    asked: String,
    done: Answer,
    later: Answer,
)
    requires
        in_turn(runs, codec),
        0 <= i < j < runs.len(),
        runs[i].op == (Operation::RevokeToken { token }),
        runs[i].ends(Ok(done)),
        forall|k: int| i < k < j ==> !records((#[trigger] runs[k]).op, Table::Tokens, token@),
        runs[j].op == (Operation::GetToken { token: asked }),
        asked@ == token@,
        runs[j].ends(Ok(later)),
    ensures
        later == Answer::Token(None),
{
    law_revoke_token(runs[i], codec, token, done);
    lemma_absent_between(runs, codec, i, j, Table::Tokens, token@);
    law_get_token(runs[j], codec, asked, later);
}

/// Without its table a look-up can only fail.
pub proof fn law_read_without_a_table_fails(run: Run, codec: Codec, r: Result<Answer, StoreError>)
    requires
        run.faithful(codec),
        run.op is GetToken,
        !run.before().contains_key(Table::Tokens),
        run.ends(r),
    ensures
        r is Err,
{
    lemma_events(run, codec);
}

/// A look-up in an empty table may succeed.
proof fn lemma_miss(tables: Tables, codec: Codec, token: String) -> (get: Run)
    requires
        tables.contains_key(Table::Tokens),
        held(tables, Table::Tokens) == Map::<Seq<char>, Seq<u8>>::empty(),
    ensures
        get.faithful(codec),
        get.op == (Operation::GetToken { token }),
        get.before() == tables,
        get.ends(Ok(Answer::Token(None))),
{
    let op = Operation::GetToken { token };
    let start = World { saved: tables, work: tables, writing: false };
    let none = Run { op, events: Seq::empty(), worlds: seq![start] };
    assert(none.faithful(codec)) by {
        reveal(Run::faithful);
    }
    let begun = lemma_extend(none, codec, Event::Done, start);
    assert(tables.insert(Table::Tokens, tables[Table::Tokens]) =~= tables);
    let open = lemma_extend(begun, codec, Event::Done, start);
    lemma_extend(open, codec, Event::Found(None), start)
}

/// After a fresh database was opened, a look-up is a miss and no error: there is
/// a run of it that succeeds, and each that does finds nothing.
pub proof fn law_read_of_a_fresh_database_is_a_miss(
    open: Run,
    codec: Codec,
    token: String,
    done: Answer,
)
    requires
        open.faithful(codec),
        open.op == Operation::Open,
        open.before() == Map::<Table, Map<Seq<char>, Seq<u8>>>::empty(),
        open.ends(Ok(done)),
    ensures
        exists|get: Run|
            {
                &&& #[trigger] get.faithful(codec)
                &&& get.op == (Operation::GetToken { token })
                &&& get.before() == open.after()
                &&& get.ends(Ok(Answer::Token(None)))
            },
        forall|get: Run, answer: Answer|
            {
                &&& get.faithful(codec)
                &&& get.op == (Operation::GetToken { token })
                &&& get.before() == open.after()
                &&& #[trigger] get.ends(Ok(answer))
            } ==> answer == Answer::Token(None),
{
    law_open(open, codec, done);
    assert(held(open.after(), Table::Tokens) == Map::<Seq<char>, Seq<u8>>::empty());
    assert forall|get: Run, answer: Answer|
        {
            &&& get.faithful(codec)
            &&& get.op == (Operation::GetToken { token })
            &&& get.before() == open.after()
            &&& #[trigger] get.ends(Ok(answer))
        } implies answer == Answer::Token(None) by {
        law_get_token(get, codec, token, answer);
    }
    let get = lemma_miss(open.after(), codec, token);
    assert(get.ends(Ok(Answer::Token(None))));
}

/// The `k`-th call of a run, or its end, is the script's.
proof fn lemma_call(run: Run, codec: Codec, k: int)
    requires
        run.faithful(codec),
        0 <= k <= run.events.len(),
    ensures
        run.events.len() <= 6,
        due(run.op, run.events.take(k)) == script(run.op, run.events)[k] || {
            &&& k == run.events.len()
            &&& due(run.op, run.events.take(k)) is Finish
        },
        run.op is GetToken && run.events.len() > 3 ==> run.events[2]->Found_0 is Some,
        run.op is TakeCode && run.events.len() > 4 ==> run.events[2]->Found_0 is Some,
        k > 4 ==> run.op is TakeCode || run.op is GetToken || k == 5,
        run.op is RevokeToken ==> k <= 4,
        run.op is GetToken ==> k <= 5,
{
    lemma_events(run, codec);
    if k > 0 && failure(run.events[k - 1]) is Some {
        assert(run.events.take(k).last() == run.events[k - 1]);
    } else {
        lemma_script_looks_back(run.op, run.events, k);
    }
}

/// Every call fits the transaction: tables are opened and used only once one has
/// begun, recording, removing and committing take a write transaction, and looking
/// up takes a read transaction. The calls at `j.0` and `j.1` began it and opened the
/// table.
pub proof fn law_calls_fit_the_transaction(run: Run, codec: Codec, k: int) -> (j: (int, int))
    requires
        run.faithful(codec),
        0 <= k <= run.events.len(),
    ensures
        ({
            let a = due(run.op, run.events.take(k));
            let begun = due(run.op, run.events.take(j.0));
            let opened = due(run.op, run.events.take(j.1));
            &&& a is Insert || a is Remove || a is Commit ==> 0 <= j.0 < k && begun is BeginWrite
            &&& a is Get ==> 0 <= j.0 < k && begun is BeginRead
            &&& a is OpenTable ==> 0 <= j.0 < k && (begun is BeginWrite || begun is BeginRead)
            &&& a matches Action::Insert { table, .. } ==> 0 <= j.1 < k && opened
                == Action::OpenTable(table)
            &&& a matches Action::Remove { table, .. } ==> 0 <= j.1 < k && opened
                == Action::OpenTable(table)
            &&& a matches Action::Get { table, .. } ==> 0 <= j.1 < k && opened
                == Action::OpenTable(table)
        }),
{
    let first: int = if run.op is Open || run.op is PutCode || run.op is PutToken {
        1
    } else {
        0
    };
    lemma_call(run, codec, k);
    if first < k {
        lemma_call(run, codec, first);
    }
    if first + 1 < k {
        lemma_call(run, codec, first + 1);
    }
    (first, first + 1)
}

/// An operation begins one transaction at most.
pub proof fn law_one_transaction(run: Run, codec: Codec, i: int, j: int)
    requires
        run.faithful(codec),
        0 <= i < j <= run.events.len(),
        due(run.op, run.events.take(i)) is BeginWrite || due(run.op, run.events.take(i))
            is BeginRead,
    ensures
        due(run.op, run.events.take(j)) !is BeginWrite,
        due(run.op, run.events.take(j)) !is BeginRead,
{
    lemma_call(run, codec, i);
    lemma_call(run, codec, j);
}

/// The commit is the last call of the database: behind it comes the clock at most.
pub proof fn law_commit_comes_last(run: Run, codec: Codec, i: int, j: int)
    requires
        run.faithful(codec),
        0 <= i < j <= run.events.len(),
        due(run.op, run.events.take(i)) is Commit,
    ensures
        due(run.op, run.events.take(j)) is ReadClock || due(run.op, run.events.take(j)) is Finish,
{
    lemma_call(run, codec, i);
    lemma_call(run, codec, j);
}

/// An operation that has yet to make its first call.
proof fn lemma_start(op: Operation, codec: Codec, tables: Tables) -> (run: Run)
    ensures
        run.faithful(codec),
        run.op == op,
        run.events == Seq::<Event>::empty(),
        run.worlds == seq![World { saved: tables, work: tables, writing: false }],
        run.before() == tables,
{
    reveal(Run::faithful);
    Run {
        op,
        events: Seq::empty(),
        worlds: seq![World { saved: tables, work: tables, writing: false }],
    }
}

/// The database while a write transaction works on `work`.
spec fn writes(saved: Tables, work: Tables) -> World {
    World { saved, work, writing: true }
}

/// A database can be opened, whatever it holds: where no call fails, the operation
/// succeeds.
pub proof fn law_opening_can_succeed(codec: Codec, tables: Tables) -> (run: Run)
    ensures
        run.faithful(codec),
        run.op == Operation::Open,
        run.before() == tables,
        run.ends(Ok(Answer::Done)),
{
    let start = lemma_start(Operation::Open, codec, tables);
    let one = tables.insert(Table::Codes, held(tables, Table::Codes));
    let two = one.insert(Table::Tokens, held(one, Table::Tokens));
    let r = lemma_extend(start, codec, Event::Done, start.worlds.last());
    let r = lemma_extend(r, codec, Event::Done, writes(tables, tables));
    let r = lemma_extend(r, codec, Event::Done, writes(tables, one));
    let r = lemma_extend(r, codec, Event::Done, writes(tables, two));
    lemma_extend(r, codec, Event::Done, writes(two, two))
}

/// A code can be recorded, whatever the database holds, the code is and the record
/// says.
pub proof fn law_recording_a_code_can_succeed(
    codec: Codec,
    tables: Tables,
    code: String,
    rec: AuthCode,
    bytes: Vec<u8>,
) -> (run: Run)
    requires
        (codec.code)(bytes@) == rec@,
    ensures
        run.faithful(codec),
        run.op == (Operation::PutCode { code, rec }),
        run.before() == tables,
        run.ends(Ok(Answer::Done)),
        held(run.after(), Table::Codes)[code@] == bytes@,
{
    let start = lemma_start(Operation::PutCode { code, rec }, codec, tables);
    let open = tables.insert(Table::Codes, held(tables, Table::Codes));
    let put = open.insert(Table::Codes, held(open, Table::Codes).insert(code@, bytes@));
    let r = lemma_extend(start, codec, Event::Encoded(bytes), start.worlds.last());
    let r = lemma_extend(r, codec, Event::Done, writes(tables, tables));
    let r = lemma_extend(r, codec, Event::Done, writes(tables, open));
    let r = lemma_extend(r, codec, Event::Done, writes(tables, put));
    lemma_extend(r, codec, Event::Done, writes(put, put))
}

/// A token can be recorded, whatever the database holds, the token is and the record
/// says.
pub proof fn law_recording_a_token_can_succeed(
    codec: Codec,
    tables: Tables,
    token: String,
    rec: TokenRecord,
    bytes: Vec<u8>,
) -> (run: Run)
    requires
        (codec.token)(bytes@) == rec@,
    ensures
        run.faithful(codec),
        run.op == (Operation::PutToken { token, grant: rec }),
        run.before() == tables,
        run.ends(Ok(Answer::Done)),
        held(run.after(), Table::Tokens)[token@] == bytes@,
{
    let start = lemma_start(Operation::PutToken { token, grant: rec }, codec, tables);
    let open = tables.insert(Table::Tokens, held(tables, Table::Tokens));
    let put = open.insert(Table::Tokens, held(open, Table::Tokens).insert(token@, bytes@));
    let r = lemma_extend(start, codec, Event::Encoded(bytes), start.worlds.last());
    let r = lemma_extend(r, codec, Event::Done, writes(tables, tables));
    let r = lemma_extend(r, codec, Event::Done, writes(tables, open));
    let r = lemma_extend(r, codec, Event::Done, writes(tables, put));
    lemma_extend(r, codec, Event::Done, writes(put, put))
}

/// Every code that is recorded can be redeemed: there is a run that gives its record,
/// or nothing from the time on at which it expires.
pub proof fn law_redeeming_can_succeed(
    codec: Codec,
    tables: Tables,
    code: String,
    bytes: Vec<u8>,
    rec: AuthCode,
    now: u64,
) -> (run: Run)
    requires
        held(tables, Table::Codes).contains_key(code@),
        held(tables, Table::Codes)[code@] == bytes@,
        rec@ == (codec.code)(bytes@),
    ensures
        run.faithful(codec),
        run.op == (Operation::TakeCode { code }),
        run.before() == tables,
        run.clock() == now,
        rec.expires_at > now ==> run.ends(Ok(Answer::Code(Some(rec)))),
        rec.expires_at <= now ==> run.ends(Ok(Answer::Code(None))),
{
    let start = lemma_start(Operation::TakeCode { code }, codec, tables);
    let open = tables.insert(Table::Codes, held(tables, Table::Codes));
    let gone = open.insert(Table::Codes, held(open, Table::Codes).remove(code@));
    let r = lemma_extend(start, codec, Event::Done, writes(tables, tables));
    let r = lemma_extend(r, codec, Event::Done, writes(tables, open));
    let r = lemma_extend(r, codec, Event::Found(Some(bytes)), writes(tables, gone));
    let r = lemma_extend(r, codec, Event::DecodedCode(rec), writes(tables, gone));
    let r = lemma_extend(r, codec, Event::Done, writes(gone, gone));
    lemma_extend(r, codec, Event::Clock(now), writes(gone, gone))
}

/// Redeeming a code that is not there can succeed too, and then gives nothing.
pub proof fn law_redeeming_nothing_can_succeed(
    codec: Codec,
    tables: Tables,
    code: String,
) -> (run: Run)
    requires
        !held(tables, Table::Codes).contains_key(code@),
    ensures
        run.faithful(codec),
        run.op == (Operation::TakeCode { code }),
        run.before() == tables,
        run.ends(Ok(Answer::Code(None))),
{
    let start = lemma_start(Operation::TakeCode { code }, codec, tables);
    let open = tables.insert(Table::Codes, held(tables, Table::Codes));
    let gone = open.insert(Table::Codes, held(open, Table::Codes).remove(code@));
    let r = lemma_extend(start, codec, Event::Done, writes(tables, tables));
    let r = lemma_extend(r, codec, Event::Done, writes(tables, open));
    let r = lemma_extend(r, codec, Event::Found(None), writes(tables, gone));
    lemma_extend(r, codec, Event::Done, writes(gone, gone))
}

/// Every token that is recorded can be looked up: there is a run that gives its
/// record, or nothing from the time on at which it expires.
pub proof fn law_looking_up_can_succeed(
    codec: Codec,
    tables: Tables,
    token: String,
    bytes: Vec<u8>,
    rec: TokenRecord,
    now: u64,
) -> (run: Run)
    requires
        tables.contains_key(Table::Tokens),
        tables[Table::Tokens].contains_key(token@),
        tables[Table::Tokens][token@] == bytes@,
        rec@ == (codec.token)(bytes@),
    ensures
        run.faithful(codec),
        run.op == (Operation::GetToken { token }),
        run.before() == tables,
        run.clock() == now,
        rec.expires_at > now ==> run.ends(Ok(Answer::Token(Some(rec)))),
        rec.expires_at <= now ==> run.ends(Ok(Answer::Token(None))),
{
    let start = lemma_start(Operation::GetToken { token }, codec, tables);
    let w = start.worlds.last();
    assert(tables.insert(Table::Tokens, tables[Table::Tokens]) =~= tables);
    let r = lemma_extend(start, codec, Event::Done, w);
    let r = lemma_extend(r, codec, Event::Done, w);
    let r = lemma_extend(r, codec, Event::Found(Some(bytes)), w);
    let r = lemma_extend(r, codec, Event::DecodedToken(rec), w);
    lemma_extend(r, codec, Event::Clock(now), w)
}

/// Looking up a token that is not there can succeed too, and then gives nothing.
pub proof fn law_looking_up_nothing_can_succeed(
    codec: Codec,
    tables: Tables,
    token: String,
) -> (run: Run)
    requires
        tables.contains_key(Table::Tokens),
        !tables[Table::Tokens].contains_key(token@),
    ensures
        run.faithful(codec),
        run.op == (Operation::GetToken { token }),
        run.before() == tables,
        run.ends(Ok(Answer::Token(None))),
{
    let start = lemma_start(Operation::GetToken { token }, codec, tables);
    let w = start.worlds.last();
    assert(tables.insert(Table::Tokens, tables[Table::Tokens]) =~= tables);
    let r = lemma_extend(start, codec, Event::Done, w);
    let r = lemma_extend(r, codec, Event::Done, w);
    lemma_extend(r, codec, Event::Found(None), w)
}

/// Every token can be revoked, whether it is there or not.
pub proof fn law_revoking_can_succeed(
    codec: Codec,
    tables: Tables,
    token: String,
    found: Option<Vec<u8>>,
) -> (run: Run)
    requires
        finds(tables, Table::Tokens, token@, found),
    ensures
        run.faithful(codec),
        run.op == (Operation::RevokeToken { token }),
        run.before() == tables,
        run.ends(Ok(Answer::Done)),
{
    let start = lemma_start(Operation::RevokeToken { token }, codec, tables);
    let open = tables.insert(Table::Tokens, held(tables, Table::Tokens));
    let gone = open.insert(Table::Tokens, held(open, Table::Tokens).remove(token@));
    let r = lemma_extend(start, codec, Event::Done, writes(tables, tables));
    let r = lemma_extend(r, codec, Event::Done, writes(tables, open));
    let r = lemma_extend(r, codec, Event::Found(found), writes(tables, gone));
    lemma_extend(r, codec, Event::Done, writes(gone, gone))
}

} // verus!
