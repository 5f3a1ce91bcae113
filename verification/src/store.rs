//! Durable storage of authorization codes and tokens.
//!
//! A [`Store`] is one run of a storage operation. It names the database call to
//! make next, is told how the call went, and in the end gives the answer. It
//! touches no file: whoever drives it makes the calls.

use vstd::prelude::*;

pub use crate::clock::now_secs;

verus! {

/// RFC 6749 section 4.1.2 recommends an authorization code to live for at most ten
/// minutes.
pub const CODE_TTL_SECS: u64 = 600;

/// `serde_json::Error`, which is carried through and never looked into.
#[verifier::external_type_specification]
#[verifier::external_body]
pub struct ExJsonError(serde_json::Error);

/// Why an operation failed.
#[derive(Debug)]
pub enum StoreError {
    /// A database call failed, with its message.
    Db(String),
    /// A record could not be encoded or decoded.
    Codec(serde_json::Error),
}

impl From<serde_json::Error> for StoreError {
    fn from(e: serde_json::Error) -> (r: Self) {
        StoreError::Codec(e)
    }
}

impl vstd::std_specs::convert::FromSpecImpl<serde_json::Error> for StoreError {
    open spec fn obeys_from_spec() -> bool {
        true
    }

    open spec fn from_spec(e: serde_json::Error) -> Self {
        StoreError::Codec(e)
    }
}

/// What is recorded when an authorization code is issued.
#[derive(Debug)]
pub struct AuthCode {
    pub client_id: String,
    pub redirect_uri: String,
    /// The challenge of the authorization request. `None` means that it carried
    /// none, which fails the proof: it never means that no proof is needed.
    pub code_challenge: Option<String>,
    pub code_challenge_method: String,
    pub scope: String,
    pub expires_at: u64,
}

/// What is recorded when an access or refresh token is issued.
#[derive(Debug)]
pub struct TokenRecord {
    pub client_id: String,
    pub scope: String,
    pub expires_at: u64,
    pub is_refresh: bool,
}

/// What an [`AuthCode`] says, as a mathematical value.
pub struct CodeRecord {
    pub client_id: Seq<char>,
    pub redirect_uri: Seq<char>,
    pub code_challenge: Option<Seq<char>>,
    pub code_challenge_method: Seq<char>,
    pub scope: Seq<char>,
    pub expires_at: u64,
}

/// What a [`TokenRecord`] says, as a mathematical value.
pub struct TokenGrant {
    pub client_id: Seq<char>,
    pub scope: Seq<char>,
    pub expires_at: u64,
    pub is_refresh: bool,
}

impl View for AuthCode {
    type V = CodeRecord;

    open spec fn view(&self) -> CodeRecord {
        CodeRecord {
            client_id: self.client_id@,
            redirect_uri: self.redirect_uri@,
            code_challenge: match self.code_challenge {
                Some(challenge) => Some(challenge@),
                None => None,
            },
            code_challenge_method: self.code_challenge_method@,
            scope: self.scope@,
            expires_at: self.expires_at,
        }
    }
}

impl View for TokenRecord {
    type V = TokenGrant;

    open spec fn view(&self) -> TokenGrant {
        TokenGrant {
            client_id: self.client_id@,
            scope: self.scope@,
            expires_at: self.expires_at,
            is_refresh: self.is_refresh,
        }
    }
}

impl Clone for AuthCode {
    fn clone(&self) -> (copy: Self)
        ensures
            copy == *self,
    {
        AuthCode {
            client_id: self.client_id.clone(),
            redirect_uri: self.redirect_uri.clone(),
            code_challenge: match &self.code_challenge {
                Some(challenge) => Some(challenge.clone()),
                None => None,
            },
            code_challenge_method: self.code_challenge_method.clone(),
            scope: self.scope.clone(),
            expires_at: self.expires_at,
        }
    }
}

impl Clone for TokenRecord {
    fn clone(&self) -> (copy: Self)
        ensures
            copy == *self,
    {
        TokenRecord {
            client_id: self.client_id.clone(),
            scope: self.scope.clone(),
            expires_at: self.expires_at,
            is_refresh: self.is_refresh,
        }
    }
}

/// A table of the database.
#[derive(Debug, Clone, Copy, PartialEq, Eq, Structural)]
pub enum Table {
    /// Authorization codes: short-lived, redeemed once.
    Codes,
    /// Access and refresh tokens.
    Tokens,
}

impl Table {
    /// The table's name in the database.
    pub open spec fn spec_name(self) -> Seq<char> {
        match self {
            Table::Codes => "auth_codes"@,
            Table::Tokens => "tokens"@,
        }
    }

    /// The table's name in the database.
    pub fn name(&self) -> (name: &'static str)
        ensures
            name@ == self.spec_name(),
            *self == Table::Codes ==> name@ == "auth_codes"@,
            *self == Table::Tokens ==> name@ == "tokens"@,
    {
        match self {
            Table::Codes => "auth_codes",
            Table::Tokens => "tokens",
        }
    }
}

/// A storage operation.
pub enum Operation {
    /// Create the database and its tables where they are missing.
    Open,
    /// Record an authorization code.
    PutCode { code: String, rec: AuthCode },
    /// Redeem an authorization code: read and remove it.
    TakeCode { code: String },
    /// Record a token.
    PutToken { token: String, grant: TokenRecord },
    /// Look a token up.
    GetToken { token: String },
    /// Remove a token.
    RevokeToken { token: String },
}

/// What an operation that succeeded gives back.
#[derive(Debug)]
pub enum Answer {
    /// It was done.
    Done,
    /// The redeemed code, unless there was none or it had expired.
    Code(Option<AuthCode>),
    /// The token, unless there was none or it had expired.
    Token(Option<TokenRecord>),
}

/// What is to be done next.
#[derive(Debug)]
pub enum Action {
    /// Create or open the database.
    Create,
    /// Encode a record of a code.
    EncodeCode(AuthCode),
    /// Encode a record of a token.
    EncodeToken(TokenRecord),
    /// Begin a write transaction.
    BeginWrite,
    /// Begin a read transaction.
    BeginRead,
    /// Open a table in the transaction.
    OpenTable(Table),
    /// Map a key to a value.
    Insert { table: Table, key: String, value: Vec<u8> },
    /// Remove a key, and hand back the value that it was mapped to.
    Remove { table: Table, key: String },
    /// Hand back the value that a key is mapped to.
    Get { table: Table, key: String },
    /// Decode a record of a code.
    DecodeCode(Vec<u8>),
    /// Decode a record of a token.
    DecodeToken(Vec<u8>),
    /// Commit the write transaction.
    Commit,
    /// Read the clock.
    ReadClock,
    /// Give the answer. A transaction that was not committed is dropped, and what
    /// it changed with it.
    Finish(Result<Answer, StoreError>),
}

/// How an action went.
#[derive(Debug)]
pub enum Event {
    /// The database did it.
    Done,
    /// The database failed, with this message.
    Failed(String),
    /// The encoded record.
    Encoded(Vec<u8>),
    /// The value that the key was mapped to, if any.
    Found(Option<Vec<u8>>),
    /// The decoded record of a code.
    DecodedCode(AuthCode),
    /// The decoded record of a token.
    DecodedToken(TokenRecord),
    /// The record could not be encoded or decoded.
    Garbled(serde_json::Error),
    /// The seconds since the Unix epoch.
    Clock(u64),
}

/// Whether an event tells how an action went.
pub open spec fn answers(a: Action, e: Event) -> bool {
    match a {
        Action::EncodeCode(_) | Action::EncodeToken(_) => e is Encoded || e is Garbled,
        Action::DecodeCode(_) => e is DecodedCode || e is Garbled,
        Action::DecodeToken(_) => e is DecodedToken || e is Garbled,
        Action::Remove { .. } | Action::Get { .. } => e is Found || e is Failed,
        Action::ReadClock => e is Clock,
        Action::Finish(_) => false,
        _ => e is Done || e is Failed,
    }
}

/// The error that an event amounts to, if it is a failure.
pub open spec fn failure(e: Event) -> Option<StoreError> {
    match e {
        Event::Failed(message) => Some(StoreError::Db(message)),
        Event::Garbled(error) => Some(StoreError::Codec(error)),
        _ => None,
    }
}

/// A code's record, unless it has expired.
pub open spec fn live_code(rec: AuthCode, now: u64) -> Option<AuthCode> {
    if rec.expires_at > now {
        Some(rec)
    } else {
        None
    }
}

/// A token's record, unless it has expired.
pub open spec fn live_token(rec: TokenRecord, now: u64) -> Option<TokenRecord> {
    if rec.expires_at > now {
        Some(rec)
    } else {
        None
    }
}

/// The actions of an operation in their order, as long as none fails; `h` are the
/// events so far.
///
/// A code is removed and the removal committed before its expiry is looked at: an
/// expired code is spent as well. A code whose record cannot be decoded is not,
/// since that fails before the commit.
pub open spec fn script(op: Operation, h: Seq<Event>) -> Seq<Action> {
    match op {
        Operation::Open => seq![
            Action::Create,
            Action::BeginWrite,
            Action::OpenTable(Table::Codes),
            Action::OpenTable(Table::Tokens),
            Action::Commit,
            Action::Finish(Ok(Answer::Done)),
        ],
        Operation::PutCode { code, rec } => seq![
            Action::EncodeCode(rec),
            Action::BeginWrite,
            Action::OpenTable(Table::Codes),
            Action::Insert { table: Table::Codes, key: code, value: h[0]->Encoded_0 },
            Action::Commit,
            Action::Finish(Ok(Answer::Done)),
        ],
        Operation::TakeCode { code } => seq![
            Action::BeginWrite,
            Action::OpenTable(Table::Codes),
            Action::Remove { table: Table::Codes, key: code },
        ] + match h[2]->Found_0 {
            Some(bytes) => seq![
                Action::DecodeCode(bytes),
                Action::Commit,
                Action::ReadClock,
                Action::Finish(
                    Ok(Answer::Code(live_code(h[3]->DecodedCode_0, h[5]->Clock_0))),
                ),
            ],
            None => seq![Action::Commit, Action::Finish(Ok(Answer::Code(None)))],
        },
        Operation::PutToken { token, grant } => seq![
            Action::EncodeToken(grant),
            Action::BeginWrite,
            Action::OpenTable(Table::Tokens),
            Action::Insert { table: Table::Tokens, key: token, value: h[0]->Encoded_0 },
            Action::Commit,
            Action::Finish(Ok(Answer::Done)),
        ],
        Operation::GetToken { token } => seq![
            Action::BeginRead,
            Action::OpenTable(Table::Tokens),
            Action::Get { table: Table::Tokens, key: token },
        ] + match h[2]->Found_0 {
            Some(bytes) => seq![
                Action::DecodeToken(bytes),
                Action::ReadClock,
                Action::Finish(
                    Ok(Answer::Token(live_token(h[3]->DecodedToken_0, h[4]->Clock_0))),
                ),
            ],
            None => seq![Action::Finish(Ok(Answer::Token(None)))],
        },
        Operation::RevokeToken { token } => seq![
            Action::BeginWrite,
            Action::OpenTable(Table::Tokens),
            Action::Remove { table: Table::Tokens, key: token },
            Action::Commit,
            Action::Finish(Ok(Answer::Done)),
        ],
    }
}

/// The action that is due after the events `h`: the next one of the script, or
/// the end with an error where the last one failed.
pub open spec fn due(op: Operation, h: Seq<Event>) -> Action {
    if h.len() > 0 && failure(h.last()) is Some {
        Action::Finish(Err(failure(h.last())->0))
    } else {
        script(op, h)[h.len() as int]
    }
}

/// What a run waits for, with what it still needs.
enum Stage {
    Creating,
    BeginningTables,
    OpeningCodes,
    OpeningTokens,
    Encoding { table: Table, key: String },
    BeginningPut { table: Table, key: String, value: Vec<u8> },
    OpeningPut { table: Table, key: String, value: Vec<u8> },
    Inserting,
    BeginningTake { code: String },
    OpeningTake { code: String },
    Taking,
    DecodingCode,
    CommittingTake { found: Option<AuthCode> },
    CheckingCode { rec: AuthCode },
    BeginningGet { token: String },
    OpeningGet { token: String },
    Getting,
    DecodingToken,
    CheckingToken { grant: TokenRecord },
    BeginningRevoke { token: String },
    OpeningRevoke { token: String },
    Revoking,
    Committing,
    Over,
}

/// `h` is a run of `n` events in which nothing failed.
spec fn smooth(h: Seq<Event>, n: int) -> bool {
    h.len() == n && (n > 0 ==> failure(h.last()) is None)
}

/// The operation is to put a value into `table` under `key`.
spec fn puts(op: Operation, table: Table, key: String) -> bool {
    match op {
        Operation::PutCode { code, .. } => table == Table::Codes && key == code,
        Operation::PutToken { token, .. } => table == Table::Tokens && key == token,
        _ => false,
    }
}

/// The stage is the one of `op` after the events `h`.
spec fn reached(stage: Stage, op: Operation, h: Seq<Event>) -> bool {
    match stage {
        Stage::Creating => op is Open && smooth(h, 0),
        Stage::BeginningTables => op is Open && smooth(h, 1),
        Stage::OpeningCodes => op is Open && smooth(h, 2),
        Stage::OpeningTokens => op is Open && smooth(h, 3),
        Stage::Encoding { table, key } => puts(op, table, key) && smooth(h, 0),
        Stage::BeginningPut { table, key, value } => puts(op, table, key) && smooth(h, 1) && h[0]
            == Event::Encoded(value),
        Stage::OpeningPut { table, key, value } => puts(op, table, key) && smooth(h, 2) && h[0]
            == Event::Encoded(value),
        Stage::Inserting => (op is PutCode || op is PutToken) && smooth(h, 3),
        Stage::BeginningTake { code } => op == Operation::TakeCode { code } && smooth(h, 0),
        Stage::OpeningTake { code } => op == Operation::TakeCode { code } && smooth(h, 1),
        Stage::Taking => op is TakeCode && smooth(h, 2),
        Stage::DecodingCode => op is TakeCode && smooth(h, 3) && h[2]->Found_0 is Some,
        Stage::CommittingTake { found: None } => op is TakeCode && smooth(h, 3) && h[2]->Found_0
            is None,
        Stage::CommittingTake { found: Some(rec) } => op is TakeCode && smooth(h, 4)
            && h[2]->Found_0 is Some && h[3] == Event::DecodedCode(rec),
        Stage::CheckingCode { rec } => op is TakeCode && smooth(h, 5) && h[2]->Found_0 is Some
            && h[3] == Event::DecodedCode(rec),
        Stage::BeginningGet { token } => op == Operation::GetToken { token } && smooth(h, 0),
        Stage::OpeningGet { token } => op == Operation::GetToken { token } && smooth(h, 1),
        Stage::Getting => op is GetToken && smooth(h, 2),
        Stage::DecodingToken => op is GetToken && smooth(h, 3) && h[2]->Found_0 is Some,
        Stage::CheckingToken { grant } => op is GetToken && smooth(h, 4) && h[2]->Found_0 is Some
            && h[3] == Event::DecodedToken(grant),
        Stage::BeginningRevoke { token } => op == Operation::RevokeToken { token } && smooth(h, 0),
        Stage::OpeningRevoke { token } => op == Operation::RevokeToken { token } && smooth(h, 1),
        Stage::Revoking => op is RevokeToken && smooth(h, 2),
        Stage::Committing => {
            ||| (op is Open || op is PutCode || op is PutToken) && smooth(h, 4)
            ||| op is RevokeToken && smooth(h, 3)
        },
        Stage::Over => due(op, h) is Finish,
    }
}

/// One run of a storage operation.
pub struct Store {
    stage: Stage,
    op: Ghost<Operation>,
    history: Ghost<Seq<Event>>,
}

impl Store {
    #[verifier::type_invariant]
    spec fn inv(self) -> bool {
        reached(self.stage, self.op@, self.history@)
    }

    /// The operation.
    pub closed spec fn op(self) -> Operation {
        self.op@
    }

    /// The events so far.
    pub closed spec fn history(self) -> Seq<Event> {
        self.history@
    }

    /// A run at its beginning.
    pub open spec fn begins(self, op: Operation, first: Action) -> bool {
        &&& self.op() == op
        &&& self.history() == Seq::<Event>::empty()
        &&& first == due(op, Seq::empty())
    }

    /// Create the database and both tables, so that a read of a fresh database is
    /// a miss and no error.
    pub fn open() -> (r: (Store, Action))
        ensures
            r.0.begins(Operation::Open, r.1),
            r.0.op() == Operation::Open,
            r.0.history() == Seq::<Event>::empty(),
            r.1 == due(r.0.op(), Seq::empty()),
    {
        Store::begin(Operation::Open)
    }

    /// Record an authorization code.
    pub fn put_code(code: &str, rec: &AuthCode) -> (r: (Store, Action))
        ensures
            r.0.begins(r.0.op(), r.1),
            r.0.history() == Seq::<Event>::empty(),
            r.1 == due(r.0.op(), Seq::empty()),
            r.0.op() matches Operation::PutCode { code: key, rec: copy } && key@ == code@ && copy
                == *rec,
    {
        Store::begin(Operation::PutCode { code: code.to_owned(), rec: rec.clone() })
    }

    /// Redeem an authorization code: read it and remove it in one write
    /// transaction.
    ///
    /// RFC 6749 section 4.1.2 requires that a code is usable once. Reading it first
    /// and removing it afterwards would let two redemptions at one time both see
    /// the code and both succeed.
    pub fn take_code(code: &str) -> (r: (Store, Action))
        ensures
            r.0.begins(r.0.op(), r.1),
            r.0.history() == Seq::<Event>::empty(),
            r.1 == due(r.0.op(), Seq::empty()),
            r.0.op() matches Operation::TakeCode { code: key } && key@ == code@,
    {
        Store::begin(Operation::TakeCode { code: code.to_owned() })
    }

    /// Record a token.
    pub fn put_token(token: &str, rec: &TokenRecord) -> (r: (Store, Action))
        ensures
            r.0.begins(r.0.op(), r.1),
            r.0.history() == Seq::<Event>::empty(),
            r.1 == due(r.0.op(), Seq::empty()),
            r.0.op() matches Operation::PutToken { token: key, grant: copy } && key@ == token@
                && copy == *rec,
    {
        Store::begin(Operation::PutToken { token: token.to_owned(), grant: rec.clone() })
    }

    /// Look a token up.
    pub fn get_token(token: &str) -> (r: (Store, Action))
        ensures
            r.0.begins(r.0.op(), r.1),
            r.0.history() == Seq::<Event>::empty(),
            r.1 == due(r.0.op(), Seq::empty()),
            r.0.op() matches Operation::GetToken { token: key } && key@ == token@,
    {
        Store::begin(Operation::GetToken { token: token.to_owned() })
    }

    /// Remove a token.
    pub fn revoke_token(token: &str) -> (r: (Store, Action))
        ensures
            r.0.begins(r.0.op(), r.1),
            r.0.history() == Seq::<Event>::empty(),
            r.1 == due(r.0.op(), Seq::empty()),
            r.0.op() matches Operation::RevokeToken { token: key } && key@ == token@,
    {
        Store::begin(Operation::RevokeToken { token: token.to_owned() })
    }

    /// Begin an operation.
    fn begin(op: Operation) -> (r: (Store, Action))
        ensures
            r.0.begins(op, r.1),
    {
        let ghost whole = op;
        let (stage, action) = match op {
            Operation::Open => (Stage::Creating, Action::Create),
            Operation::PutCode { code, rec } => (
                Stage::Encoding { table: Table::Codes, key: code },
                Action::EncodeCode(rec),
            ),
            Operation::TakeCode { code } => (Stage::BeginningTake { code }, Action::BeginWrite),
            Operation::PutToken { token, grant } => (
                Stage::Encoding { table: Table::Tokens, key: token },
                Action::EncodeToken(grant),
            ),
            Operation::GetToken { token } => (Stage::BeginningGet { token }, Action::BeginRead),
            Operation::RevokeToken { token } => (
                Stage::BeginningRevoke { token },
                Action::BeginWrite,
            ),
        };
        (Store { stage, op: Ghost(whole), history: Ghost(Seq::empty()) }, action)
    }

    /// Take in how the action that was due went, and say what is due now. An event
    /// that does not tell of that action is not taken in.
    pub fn advance(self, event: Event) -> (r: Option<(Store, Action)>)
        ensures
            match r {
                Some((next, action)) => {
                    &&& answers(due(self.op(), self.history()), event)
                    &&& next.op() == self.op()
                    &&& next.history() == self.history().push(event)
                    &&& action == due(next.op(), next.history())
                },
                None => !answers(due(self.op(), self.history()), event),
            },
    {
        proof {
            use_type_invariant(&self);
        }
        let Store { stage, op, history } = self;
        let ghost seen = history@.push(event);
        let (stage, action) = match (stage, event) {
            (Stage::Creating, Event::Done) => (Stage::BeginningTables, Action::BeginWrite),
            (Stage::BeginningTables, Event::Done) => (
                Stage::OpeningCodes,
                Action::OpenTable(Table::Codes),
            ),
            (Stage::OpeningCodes, Event::Done) => (
                Stage::OpeningTokens,
                Action::OpenTable(Table::Tokens),
            ),
            (Stage::OpeningTokens, Event::Done) => (Stage::Committing, Action::Commit),
            (Stage::Encoding { table, key }, Event::Encoded(value)) => (
                Stage::BeginningPut { table, key, value },
                Action::BeginWrite,
            ),
            (Stage::BeginningPut { table, key, value }, Event::Done) => (
                Stage::OpeningPut { table, key, value },
                Action::OpenTable(table),
            ),
            (Stage::OpeningPut { table, key, value }, Event::Done) => (
                Stage::Inserting,
                Action::Insert { table, key, value },
            ),
            (Stage::Inserting, Event::Done) => (Stage::Committing, Action::Commit),
            (Stage::BeginningTake { code }, Event::Done) => (
                Stage::OpeningTake { code },
                Action::OpenTable(Table::Codes),
            ),
            (Stage::OpeningTake { code }, Event::Done) => (
                Stage::Taking,
                Action::Remove { table: Table::Codes, key: code },
            ),
            (Stage::Taking, Event::Found(Some(bytes))) => (
                Stage::DecodingCode,
                Action::DecodeCode(bytes),
            ),
            (Stage::Taking, Event::Found(None)) => (
                Stage::CommittingTake { found: None },
                Action::Commit,
            ),
            (Stage::DecodingCode, Event::DecodedCode(rec)) => (
                Stage::CommittingTake { found: Some(rec) },
                Action::Commit,
            ),
            (Stage::CommittingTake { found: Some(rec) }, Event::Done) => (
                Stage::CheckingCode { rec },
                Action::ReadClock,
            ),
            (Stage::CommittingTake { found: None }, Event::Done) => (
                Stage::Over,
                Action::Finish(Ok(Answer::Code(None))),
            ),
            (Stage::CheckingCode { rec }, Event::Clock(now)) => (
                Stage::Over,
                Action::Finish(Ok(Answer::Code(unexpired_code(rec, now)))),
            ),
            (Stage::BeginningGet { token }, Event::Done) => (
                Stage::OpeningGet { token },
                Action::OpenTable(Table::Tokens),
            ),
            (Stage::OpeningGet { token }, Event::Done) => (
                Stage::Getting,
                Action::Get { table: Table::Tokens, key: token },
            ),
            (Stage::Getting, Event::Found(Some(bytes))) => (
                Stage::DecodingToken,
                Action::DecodeToken(bytes),
            ),
            (Stage::Getting, Event::Found(None)) => (
                Stage::Over,
                Action::Finish(Ok(Answer::Token(None))),
            ),
            (Stage::DecodingToken, Event::DecodedToken(grant)) => (
                Stage::CheckingToken { grant },
                Action::ReadClock,
            ),
            (Stage::CheckingToken { grant }, Event::Clock(now)) => (
                Stage::Over,
                Action::Finish(Ok(Answer::Token(unexpired_token(grant, now)))),
            ),
            (Stage::BeginningRevoke { token }, Event::Done) => (
                Stage::OpeningRevoke { token },
                Action::OpenTable(Table::Tokens),
            ),
            (Stage::OpeningRevoke { token }, Event::Done) => (
                Stage::Revoking,
                Action::Remove { table: Table::Tokens, key: token },
            ),
            (Stage::Revoking, Event::Found(_)) => (Stage::Committing, Action::Commit),
            (Stage::Committing, Event::Done) => (Stage::Over, Action::Finish(Ok(Answer::Done))),
            (
                Stage::Encoding { .. } | Stage::DecodingCode | Stage::DecodingToken,
                Event::Garbled(error),
            ) => (Stage::Over, Action::Finish(Err(StoreError::from(error)))),
            (
                Stage::Encoding { .. } | Stage::DecodingCode | Stage::DecodingToken
                | Stage::CheckingCode { .. } | Stage::CheckingToken { .. } | Stage::Over,
                Event::Failed(_),
            ) => {
                return None;
            },
            (_, Event::Failed(message)) => (
                Stage::Over,
                Action::Finish(Err(StoreError::Db(message))),
            ),
            _ => {
                return None;
            },
        };
        Some((Store { stage, op, history: Ghost(seen) }, action))
    }
}

/// Drop a code's record that has expired.
pub fn unexpired_code(rec: AuthCode, now: u64) -> (r: Option<AuthCode>)
    ensures
        r == live_code(rec, now),
        rec.expires_at > now ==> r == Some(rec),
        rec.expires_at <= now ==> r is None,
{
    if rec.expires_at > now {
        Some(rec)
    } else {
        None
    }
}

/// Drop a token's record that has expired.
pub fn unexpired_token(rec: TokenRecord, now: u64) -> (r: Option<TokenRecord>)
    ensures
        r == live_token(rec, now),
        rec.expires_at > now ==> r == Some(rec),
        rec.expires_at <= now ==> r is None,
{
    if rec.expires_at > now {
        Some(rec)
    } else {
        None
    }
}

/// A record is alive exactly until its time, and then given whole.
pub proof fn law_records_live_until_they_expire(code: AuthCode, token: TokenRecord, now: u64)
    ensures
        live_code(code, now) is Some <==> code.expires_at > now,
        live_code(code, now) is Some ==> live_code(code, now)->0 == code,
        live_token(token, now) is Some <==> token.expires_at > now,
        live_token(token, now) is Some ==> live_token(token, now)->0 == token,
{
}

/// Records of codes with one view agree in every field.
pub proof fn law_view_of_a_code_is_whole(a: AuthCode, b: AuthCode)
    requires
        a@ == b@,
    ensures
        a.client_id@ == b.client_id@,
        a.redirect_uri@ == b.redirect_uri@,
        a.code_challenge is Some <==> b.code_challenge is Some,
        a.code_challenge is Some ==> a.code_challenge->0@ == b.code_challenge->0@,
        a.code_challenge_method@ == b.code_challenge_method@,
        a.scope@ == b.scope@,
        a.expires_at == b.expires_at,
{
    assert(a@.code_challenge == b@.code_challenge);
}

/// Records of tokens with one view agree in every field.
pub proof fn law_view_of_a_token_is_whole(a: TokenRecord, b: TokenRecord)
    requires
        a@ == b@,
    ensures
        a.client_id@ == b.client_id@,
        a.scope@ == b.scope@,
        a.expires_at == b.expires_at,
        a.is_refresh == b.is_refresh,
{
}

/// Whatever came before, a call that failed ends the operation with its own error.
pub proof fn law_failed_call_is_reported(
    op: Operation,
    h: Seq<Event>,
    message: String,
    error: serde_json::Error,
)
    ensures
        due(op, h.push(Event::Failed(message))) == Action::Finish(Err(StoreError::Db(message))),
        due(op, h.push(Event::Garbled(error))) == Action::Finish(Err(StoreError::Codec(error))),
{
    assert(h.push(Event::Failed(message)).last() == Event::Failed(message));
    assert(h.push(Event::Garbled(error)).last() == Event::Garbled(error));
}

/// Every call of the database may be told to have failed; of encoding and decoding
/// it may be told that the record is garbled.
pub proof fn law_every_call_may_fail(
    a: Action,
    message: String,
    error: serde_json::Error,
)
    ensures
        a is Create || a is BeginWrite || a is BeginRead || a is OpenTable || a is Insert || a
            is Remove || a is Get || a is Commit <==> answers(a, Event::Failed(message)),
        a is EncodeCode || a is EncodeToken || a is DecodeCode || a is DecodeToken <==> answers(
            a,
            Event::Garbled(error),
        ),
{
}

/// An action is answered by its own kind of event only, whatever that holds.
pub proof fn law_answers_belong_to_their_action(
    a: Action,
    bytes: Vec<u8>,
    found: Option<Vec<u8>>,
    code: AuthCode,
    token: TokenRecord,
    now: u64,
)
    ensures
        answers(a, Event::Done) <==> a is Create || a is BeginWrite || a is BeginRead || a
            is OpenTable || a is Insert || a is Commit,
        answers(a, Event::Encoded(bytes)) <==> a is EncodeCode || a is EncodeToken,
        answers(a, Event::Found(found)) <==> a is Remove || a is Get,
        answers(a, Event::DecodedCode(code)) <==> a is DecodeCode,
        answers(a, Event::DecodedToken(token)) <==> a is DecodeToken,
        answers(a, Event::Clock(now)) <==> a is ReadClock,
{
}

} // verus!
