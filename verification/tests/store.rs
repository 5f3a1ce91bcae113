use std::time::{Duration, UNIX_EPOCH};

use ghidra_mcp::clock::unix_secs;
use ghidra_mcp::store::{
    now_secs, unexpired_code, unexpired_token, Action, Answer, AuthCode, Event, Store, StoreError,
    Table, TokenRecord, CODE_TTL_SECS,
};
use redb::{Database, ReadTransaction, TableDefinition, WriteTransaction};
use serde_json::Value;

fn text(s: &str) -> Value {
    Value::String(s.to_owned())
}

fn encode_code(rec: &AuthCode) -> Vec<u8> {
    let mut m = serde_json::Map::new();
    m.insert("client_id".into(), text(&rec.client_id));
    m.insert("redirect_uri".into(), text(&rec.redirect_uri));
    let challenge = match &rec.code_challenge {
        Some(c) => text(c),
        None => Value::Null,
    };
    m.insert("code_challenge".into(), challenge);
    m.insert("code_challenge_method".into(), text(&rec.code_challenge_method));
    m.insert("scope".into(), text(&rec.scope));
    m.insert("expires_at".into(), Value::from(rec.expires_at));
    serde_json::to_vec(&Value::Object(m)).unwrap()
}

fn decode_code(bytes: &[u8]) -> Result<AuthCode, serde_json::Error> {
    let v: Value = serde_json::from_slice(bytes)?;
    Ok(AuthCode {
        client_id: v["client_id"].as_str().unwrap().to_owned(),
        redirect_uri: v["redirect_uri"].as_str().unwrap().to_owned(),
        code_challenge: v["code_challenge"].as_str().map(|s| s.to_owned()),
        code_challenge_method: v["code_challenge_method"].as_str().unwrap().to_owned(),
        scope: v["scope"].as_str().unwrap().to_owned(),
        expires_at: v["expires_at"].as_u64().unwrap(),
    })
}

fn encode_token(rec: &TokenRecord) -> Vec<u8> {
    let mut m = serde_json::Map::new();
    m.insert("client_id".into(), text(&rec.client_id));
    m.insert("scope".into(), text(&rec.scope));
    m.insert("expires_at".into(), Value::from(rec.expires_at));
    m.insert("is_refresh".into(), Value::Bool(rec.is_refresh));
    serde_json::to_vec(&Value::Object(m)).unwrap()
}

fn decode_token(bytes: &[u8]) -> Result<TokenRecord, serde_json::Error> {
    let v: Value = serde_json::from_slice(bytes)?;
    Ok(TokenRecord {
        client_id: v["client_id"].as_str().unwrap().to_owned(),
        scope: v["scope"].as_str().unwrap().to_owned(),
        expires_at: v["expires_at"].as_u64().unwrap(),
        is_refresh: v["is_refresh"].as_bool().unwrap(),
    })
}

fn table(t: Table) -> TableDefinition<'static, &'static str, &'static [u8]> {
    TableDefinition::new(t.name())
}

fn done<T, E: ToString>(r: Result<T, E>) -> Event {
    match r {
        Ok(_) => Event::Done,
        Err(e) => Event::Failed(e.to_string()),
    }
}

fn garbled<T>(r: Result<T, serde_json::Error>, good: fn(T) -> Event) -> Event {
    match r {
        Ok(v) => good(v),
        Err(e) => Event::Garbled(e),
    }
}

/// An operation under way, with its open transaction.
struct Session {
    at: Option<(Store, Action)>,
    write: Option<WriteTransaction>,
    read: Option<ReadTransaction>,
}

impl Session {
    fn new(begun: (Store, Action)) -> Session {
        Session { at: Some(begun), write: None, read: None }
    }

    fn is_over(&self) -> bool {
        self.at.is_none()
    }

    fn begins_to_write(&self) -> bool {
        matches!(self.at, Some((_, Action::BeginWrite)))
    }

    /// Make the call that is due, at the time `now`.
    fn step(&mut self, db: &Database, now: u64) -> Option<Result<Answer, StoreError>> {
        let (store, action) = self.at.take().expect("the operation is under way");
        let event = match action {
            Action::Finish(r) => return Some(r),
            Action::Create => Event::Done,
            Action::EncodeCode(rec) => Event::Encoded(encode_code(&rec)),
            Action::EncodeToken(rec) => Event::Encoded(encode_token(&rec)),
            Action::DecodeCode(bytes) => garbled(decode_code(&bytes), Event::DecodedCode),
            Action::DecodeToken(bytes) => garbled(decode_token(&bytes), Event::DecodedToken),
            Action::BeginWrite => {
                self.write = Some(db.begin_write().unwrap());
                Event::Done
            }
            Action::BeginRead => {
                self.read = Some(db.begin_read().unwrap());
                Event::Done
            }
            Action::OpenTable(t) => match (&self.write, &self.read) {
                (Some(w), _) => done(w.open_table(table(t))),
                (_, Some(r)) => done(r.open_table(table(t))),
                _ => panic!("no transaction"),
            },
            Action::Insert { table: t, key, value } => {
                let w = self.write.as_ref().unwrap();
                let mut t = w.open_table(table(t)).unwrap();
                let r = t.insert(key.as_str(), value.as_slice());
                done(r)
            }
            Action::Remove { table: t, key } => {
                let w = self.write.as_ref().unwrap();
                let mut t = w.open_table(table(t)).unwrap();
                let found = t.remove(key.as_str()).unwrap().map(|v| v.value().to_vec());
                Event::Found(found)
            }
            Action::Get { table: t, key } => {
                let t = self.read.as_ref().unwrap().open_table(table(t)).unwrap();
                Event::Found(t.get(key.as_str()).unwrap().map(|v| v.value().to_vec()))
            }
            Action::Commit => done(self.write.take().unwrap().commit()),
            Action::ReadClock => Event::Clock(now),
        };
        self.at = Some(store.advance(event).expect("the event answers the action"));
        None
    }
}

/// Run an operation on a database, at the time `now`.
fn run(db: &Database, begun: (Store, Action), now: u64) -> Result<Answer, StoreError> {
    let mut session = Session::new(begun);
    loop {
        if let Some(r) = session.step(db, now) {
            return r;
        }
    }
}

/// Run two operations at one time. Each bit of `order` says whose call is made next;
/// who would begin to write while the other does waits.
fn run_both(
    db: &Database,
    one: (Store, Action),
    two: (Store, Action),
    now: u64,
    order: u32,
) -> (Answer, Answer) {
    let mut sessions = [Session::new(one), Session::new(two)];
    let mut answers = [None, None];
    let mut turn = 0;
    while answers[0].is_none() || answers[1].is_none() {
        let mut who = if turn < 32 { ((order >> turn) & 1) as usize } else { 0 };
        let other = 1 - who;
        let waits = sessions[who].begins_to_write() && sessions[other].write.is_some();
        if sessions[who].is_over() || waits {
            who = other;
        }
        if let Some(r) = sessions[who].step(db, now) {
            answers[who] = Some(r.unwrap());
        }
        turn += 1;
    }
    let [a, b] = answers;
    (a.unwrap(), b.unwrap())
}

fn fresh() -> Database {
    Database::builder()
        .create_with_backend(redb::backends::InMemoryBackend::new())
        .unwrap()
}

fn opened() -> Database {
    let db = fresh();
    assert!(matches!(run(&db, Store::open(), 0), Ok(Answer::Done)));
    db
}

fn code(expires_at: u64) -> AuthCode {
    AuthCode {
        client_id: "client".into(),
        redirect_uri: "http://localhost/cb".into(),
        code_challenge: Some("challenge".into()),
        code_challenge_method: "S256".into(),
        scope: "read".into(),
        expires_at,
    }
}

fn token(expires_at: u64) -> TokenRecord {
    TokenRecord {
        client_id: "client".into(),
        scope: "read".into(),
        expires_at,
        is_refresh: true,
    }
}

fn taken(db: &Database, key: &str, now: u64) -> Option<AuthCode> {
    match run(db, Store::take_code(key), now) {
        Ok(Answer::Code(found)) => found,
        other => panic!("{other:?}"),
    }
}

fn got(db: &Database, key: &str, now: u64) -> Option<TokenRecord> {
    match run(db, Store::get_token(key), now) {
        Ok(Answer::Token(found)) => found,
        other => panic!("{other:?}"),
    }
}

#[test]
fn a_code_is_redeemed_once() {
    let db = opened();
    run(&db, Store::put_code("c", &code(100)), 0).unwrap();
    let rec = taken(&db, "c", 99).expect("the code is there");
    assert_eq!(rec.client_id, "client");
    assert_eq!(rec.redirect_uri, "http://localhost/cb");
    assert_eq!(rec.code_challenge.as_deref(), Some("challenge"));
    assert_eq!(rec.code_challenge_method, "S256");
    assert_eq!(rec.scope, "read");
    assert_eq!(rec.expires_at, 100);
    assert!(taken(&db, "c", 99).is_none());
}

#[test]
fn an_expired_code_is_spent_as_well() {
    let db = opened();
    run(&db, Store::put_code("c", &code(100)), 0).unwrap();
    assert!(taken(&db, "c", 100).is_none(), "it expires at 100, not after");
    assert!(taken(&db, "c", 0).is_none(), "and it is gone");
}

#[test]
fn a_code_can_be_recorded_anew() {
    let db = opened();
    run(&db, Store::put_code("c", &code(100)), 0).unwrap();
    assert!(taken(&db, "c", 0).is_some());
    run(&db, Store::put_code("c", &code(200)), 0).unwrap();
    assert_eq!(taken(&db, "c", 150).unwrap().expires_at, 200);
}

#[test]
fn a_token_is_read_back_until_it_expires() {
    let db = opened();
    run(&db, Store::put_token("t", &token(100)), 0).unwrap();
    for _ in 0..2 {
        let rec = got(&db, "t", 99).expect("the token is there");
        assert_eq!(rec.client_id, "client");
        assert_eq!(rec.scope, "read");
        assert_eq!(rec.expires_at, 100);
        assert!(rec.is_refresh);
    }
    assert!(got(&db, "t", 100).is_none());
    assert!(got(&db, "other", 0).is_none());
}

#[test]
fn a_revoked_token_is_dead_and_no_other_is() {
    let db = opened();
    run(&db, Store::put_token("t", &token(100)), 0).unwrap();
    run(&db, Store::put_token("u", &token(100)), 0).unwrap();
    run(&db, Store::put_code("t", &code(100)), 0).unwrap();
    assert!(matches!(run(&db, Store::revoke_token("t"), 0), Ok(Answer::Done)));
    assert!(matches!(run(&db, Store::revoke_token("t"), 0), Ok(Answer::Done)));
    assert!(got(&db, "t", 0).is_none());
    assert!(got(&db, "u", 0).is_some());
    assert!(taken(&db, "t", 0).is_some());
}

#[test]
fn a_read_of_a_fresh_database_is_a_miss_once_it_is_opened() {
    let db = fresh();
    assert!(matches!(
        run(&db, Store::get_token("t"), 0),
        Err(StoreError::Db(_))
    ));
    run(&db, Store::open(), 0).unwrap();
    assert!(got(&db, "t", 0).is_none());
    assert!(taken(&db, "c", 0).is_none());
}

#[test]
fn opening_again_keeps_what_is_there() {
    let db = opened();
    run(&db, Store::put_token("t", &token(100)), 0).unwrap();
    run(&db, Store::open(), 0).unwrap();
    assert!(got(&db, "t", 0).is_some());
}

#[test]
fn a_code_that_cannot_be_decoded_is_an_error_and_stays() {
    let db = opened();
    let w = db.begin_write().unwrap();
    {
        let mut t = w.open_table(table(Table::Codes)).unwrap();
        t.insert("c", b"{".as_slice()).unwrap();
    }
    w.commit().unwrap();
    for _ in 0..2 {
        assert!(matches!(
            run(&db, Store::take_code("c"), 0),
            Err(StoreError::Codec(_))
        ));
    }
}

#[test]
fn every_failure_ends_the_operation_with_its_message() {
    for failing in 0..5 {
        let (mut store, mut action) = Store::open();
        for _ in 0..failing {
            (store, action) = store.advance(Event::Done).unwrap();
        }
        assert!(!matches!(action, Action::Finish(_)));
        let (store, action) = store.advance(Event::Failed("disk".into())).unwrap();
        match action {
            Action::Finish(Err(StoreError::Db(message))) => assert_eq!(message, "disk"),
            other => panic!("{other:?}"),
        }
        assert!(store.advance(Event::Done).is_none());
    }
}

#[test]
fn a_redemption_is_one_write_transaction() {
    let (store, action) = Store::take_code("c");
    assert!(matches!(action, Action::BeginWrite));
    let (store, action) = store.advance(Event::Done).unwrap();
    assert!(matches!(action, Action::OpenTable(Table::Codes)));
    let (store, action) = store.advance(Event::Done).unwrap();
    match action {
        Action::Remove { table, key } => {
            assert_eq!(table, Table::Codes);
            assert_eq!(key, "c");
        }
        other => panic!("{other:?}"),
    }
    let (store, action) = store.advance(Event::Found(Some(vec![1, 2]))).unwrap();
    match action {
        Action::DecodeCode(bytes) => assert_eq!(bytes, [1, 2]),
        other => panic!("{other:?}"),
    }
    let (store, action) = store.advance(Event::DecodedCode(code(5))).unwrap();
    assert!(matches!(action, Action::Commit));
    let (store, action) = store.advance(Event::Done).unwrap();
    assert!(matches!(action, Action::ReadClock));
    let (_, action) = store.advance(Event::Clock(4)).unwrap();
    match action {
        Action::Finish(Ok(Answer::Code(Some(rec)))) => assert_eq!(rec.expires_at, 5),
        other => panic!("{other:?}"),
    }
}

#[test]
fn an_event_that_answers_something_else_is_not_taken_in() {
    let (store, _) = Store::get_token("t");
    assert!(store.advance(Event::Clock(1)).is_none());
    let (store, _) = Store::put_token("t", &token(1));
    assert!(store.advance(Event::Failed("x".into())).is_none());
    let (store, _) = Store::revoke_token("t");
    assert!(store.advance(Event::Found(None)).is_none());
}

#[test]
fn a_codec_error_is_a_store_error() {
    let error = serde_json::from_str::<Value>("{").unwrap_err();
    let message = error.to_string();
    match StoreError::from(error) {
        StoreError::Codec(e) => assert_eq!(e.to_string(), message),
        other => panic!("{other:?}"),
    }
}

#[test]
fn a_record_expires_at_its_time() {
    assert!(unexpired_code(code(10), 9).is_some());
    assert!(unexpired_code(code(10), 10).is_none());
    assert!(unexpired_token(token(10), 9).is_some());
    assert!(unexpired_token(token(10), 10).is_none());
}

#[test]
fn cloned_records_are_the_same_records() {
    let c = code(7).clone();
    assert_eq!(c.code_challenge.as_deref(), Some("challenge"));
    assert_eq!(c.expires_at, 7);
    let t = token(8).clone();
    assert_eq!(t.client_id, "client");
    assert!(t.is_refresh);
}

#[test]
fn table_names_and_lifetime_are_fixed() {
    assert_eq!(Table::Codes.name(), "auth_codes");
    assert_eq!(Table::Tokens.name(), "tokens");
    assert_eq!(CODE_TTL_SECS, 600);
}

#[test]
fn time_is_told_in_whole_seconds() {
    assert_eq!(unix_secs(&UNIX_EPOCH), 0);
    assert_eq!(unix_secs(&(UNIX_EPOCH + Duration::from_millis(61_999))), 61);
    assert_eq!(unix_secs(&(UNIX_EPOCH - Duration::from_secs(5))), 0);
    assert!(now_secs() > 1_700_000_000);
}

#[test]
fn of_two_redemptions_at_one_time_one_gives_the_record() {
    let db = opened();
    for order in 0..64 {
        run(&db, Store::put_code("c", &code(100)), 0).unwrap();
        let answers = run_both(&db, Store::take_code("c"), Store::take_code("c"), 50, order);
        let rec = match answers {
            (Answer::Code(Some(rec)), Answer::Code(None)) => rec,
            (Answer::Code(None), Answer::Code(Some(rec))) => rec,
            _ => panic!("the code was not redeemed once"),
        };
        assert_eq!(rec.client_id, code(100).client_id);
        assert_eq!(rec.expires_at, 100);
        assert!(taken(&db, "c", 50).is_none());
    }
}

#[test]
fn who_begins_first_redeems_the_code() {
    let db = opened();
    run(&db, Store::put_code("c", &code(100)), 0).unwrap();
    let answers = run_both(&db, Store::take_code("c"), Store::take_code("c"), 50, 2);
    assert!(matches!(answers, (Answer::Code(Some(_)), Answer::Code(None))));
    run(&db, Store::put_code("c", &code(100)), 0).unwrap();
    let answers = run_both(&db, Store::take_code("c"), Store::take_code("c"), 50, 1);
    assert!(matches!(answers, (Answer::Code(None), Answer::Code(Some(_)))));
}

#[test]
fn a_look_up_sees_a_revocation_whole_or_not_at_all() {
    let db = opened();
    for order in 0..64 {
        run(&db, Store::put_token("t", &token(100)), 0).unwrap();
        let (gone, found) =
            run_both(&db, Store::revoke_token("t"), Store::get_token("t"), 50, order);
        assert!(matches!(gone, Answer::Done));
        match found {
            Answer::Token(Some(rec)) => assert_eq!(rec.expires_at, 100),
            Answer::Token(None) => {}
            _ => panic!("a look-up answers with a token"),
        }
        assert!(got(&db, "t", 50).is_none());
    }
}

#[test]
fn a_look_up_that_begins_after_a_revocation_misses() {
    let db = opened();
    run(&db, Store::put_token("t", &token(100)), 0).unwrap();
    let mut early = Session::new(Store::get_token("t"));
    assert!(early.step(&db, 50).is_none());
    let put = run_both(
        &db,
        Store::revoke_token("t"),
        Store::put_token("u", &token(100)),
        50,
        0x5555,
    );
    assert!(matches!(put, (Answer::Done, Answer::Done)));
    assert!(got(&db, "t", 50).is_none());
    assert!(got(&db, "u", 50).is_some());
    // What began before still sees the record.
    loop {
        if let Some(r) = early.step(&db, 50) {
            assert!(matches!(r, Ok(Answer::Token(Some(_)))));
            break;
        }
    }
}

#[test]
fn a_record_outlasts_operations_on_other_keys() {
    let db = opened();
    run(&db, Store::put_token("t", &token(100)), 0).unwrap();
    run(&db, Store::put_code("c", &code(100)), 0).unwrap();
    run(&db, Store::put_token("u", &token(70)), 0).unwrap();
    run(&db, Store::put_code("d", &code(70)), 0).unwrap();
    run(&db, Store::revoke_token("u"), 0).unwrap();
    run(&db, Store::revoke_token("c"), 0).unwrap();
    assert!(taken(&db, "d", 50).is_some());
    assert!(taken(&db, "t", 50).is_none());
    run(&db, Store::open(), 0).unwrap();
    // A recording that is broken off before it commits.
    let mut broken = Session::new(Store::put_token("t", &token(1)));
    for _ in 0..4 {
        assert!(broken.step(&db, 50).is_none());
    }
    drop(broken);
    assert_eq!(got(&db, "t", 99).unwrap().expires_at, 100);
    assert!(got(&db, "t", 100).is_none());
    assert_eq!(taken(&db, "c", 99).unwrap().expires_at, 100);
}
