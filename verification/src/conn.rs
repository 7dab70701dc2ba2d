//! The connection: which operations it admits in its current transaction
//! state, how transaction requests change that state, and how database
//! errors are classified.
//!
//! The connection itself holds no database handle: it decides, and the
//! caller performs what it decided (beginning, committing or cancelling a
//! transaction, running a query) and reports back.

use vstd::prelude::*;
use crate::error::{DriverError, ErrorKind};
use crate::op::{Query, entry_from, find_field};
use crate::text::{contains, decimal_string, push_escaped_ident_str, spec_contains, spec_decimal, spec_escape_ident, views};
use crate::value::{RecordId, RecordKey, SurValue};

verus! {

/// An open session to an embedded SurrealDB database, by its transaction
/// state: whether a transaction is active and whether it is read-only.
#[derive(Debug)]
pub struct Connection {
    active: bool,
    read_only: bool,
}

/// The transaction state of a connection.
pub struct TransactionState {
    pub active: bool,
    pub read_only: bool,
}

impl View for Connection {
    type V = TransactionState;

    closed spec fn view(&self) -> TransactionState {
        TransactionState { active: self.active, read_only: self.read_only }
    }
}

/// What a connection is asked to do, by the operation's kind.
#[derive(Debug)]
pub enum OperationKind {
    /// A SQL statement that is an insert (how the engine sends key-value
    /// inserts).
    QuerySqlInsert,
    /// A SQL statement of another kind, by the statement's name.
    QuerySql(String),
    /// An insert operation; `carries_insert` says whether its statement is
    /// an insert.
    Insert { carries_insert: bool },
    GetByKey,
    QueryPk,
    FindPkByIndex,
    Scan,
    UpdateByKey,
    DeleteByKey,
    Upsert,
    RawSql,
    Transaction,
    /// Any other operation, by its name.
    Other(String),
}

/// Where an admitted operation is handled.
#[derive(Clone, Copy, PartialEq, Eq, Structural, Debug)]
pub enum Route {
    Insert,
    GetByKey,
    QueryPk,
    FindPkByIndex,
    Scan,
    UpdateByKey,
    DeleteByKey,
    Upsert,
    Transaction,
}

/// The lock-acquisition mode a transaction asks for.
#[derive(Clone, Copy, PartialEq, Eq, Structural, Debug)]
pub enum TransactionMode {
    Default,
    Deferred,
    Immediate,
    Exclusive,
}

/// A transaction lifecycle request.
#[derive(Debug)]
pub enum TransactionOp {
    /// Start a transaction; `isolation` says whether an explicit isolation
    /// level was asked for.
    Start { isolation: bool, read_only: bool, mode: TransactionMode },
    Commit,
    Rollback,
    Savepoint(String),
    ReleaseSavepoint(String),
    RollbackToSavepoint(String),
}

/// What the caller does with the database for an admitted transaction request.
#[derive(Clone, Copy, PartialEq, Eq, Structural, Debug)]
pub enum TransactionAction {
    /// Begin a transaction, then report it with [`Connection::begun`].
    Begin { read_only: bool },
    /// Commit the transaction that was active.
    Commit,
    /// Cancel the transaction that was active.
    Cancel,
}

/// The name of a transaction mode, as written in messages.
pub open spec fn mode_name(mode: TransactionMode) -> Seq<char> {
    match mode {
        TransactionMode::Default => "Default"@,
        TransactionMode::Deferred => "Deferred"@,
        TransactionMode::Immediate => "Immediate"@,
        TransactionMode::Exclusive => "Exclusive"@,
    }
}

/// The message refusing a write in a read-only transaction.
pub open spec fn read_only_message(operation: Seq<char>) -> Seq<char> {
    operation + " is not allowed in a read-only transaction"@
}

/// The message refusing an operation while a transaction is active.
pub open spec fn active_transaction_message(operation: Seq<char>) -> Seq<char> {
    "cannot "@ + operation + " while a SurrealDB transaction is active"@
}

/// The name under which a write operation is refused, if the kind writes.
pub open spec fn write_name(op: OperationKind) -> Option<Seq<char>> {
    match op {
        OperationKind::QuerySqlInsert => Some("Insert"@),
        OperationKind::Insert { .. } => Some("Insert"@),
        OperationKind::UpdateByKey => Some("UpdateByKey"@),
        OperationKind::DeleteByKey => Some("DeleteByKey"@),
        OperationKind::Upsert => Some("Upsert"@),
        _ => None,
    }
}

/// How an operation is answered on a connection whose transaction is
/// read-only or not: its route, or the kind and message of its refusal.
pub open spec fn admission(op: OperationKind, read_only: bool) -> Result<Route, (ErrorKind, Seq<char>)> {
    match op {
        OperationKind::QuerySql(name) => Err(
            (
                ErrorKind::UnsupportedFeature,
                "SurrealDB driver only accepts insert statements via QuerySql, got: "@ + name@,
            ),
        ),
        OperationKind::RawSql => Err((ErrorKind::UnsupportedFeature, "SurrealDB driver does not support raw SQL"@)),
        OperationKind::Other(name) => Err(
            (ErrorKind::UnsupportedFeature, "SurrealDB driver does not support operation: "@ + name@),
        ),
        _ => if read_only && write_name(op) is Some {
            Err((ErrorKind::ReadOnlyTransaction, read_only_message(write_name(op)->0)))
        } else {
            match op {
                OperationKind::Insert { carries_insert } => if carries_insert {
                    Ok(Route::Insert)
                } else {
                    Err(
                        (
                            ErrorKind::InvalidStatement,
                            "Insert operation did not carry an insert statement"@,
                        ),
                    )
                },
                OperationKind::QuerySqlInsert => Ok(Route::Insert),
                OperationKind::GetByKey => Ok(Route::GetByKey),
                OperationKind::QueryPk => Ok(Route::QueryPk),
                OperationKind::FindPkByIndex => Ok(Route::FindPkByIndex),
                OperationKind::Scan => Ok(Route::Scan),
                OperationKind::UpdateByKey => Ok(Route::UpdateByKey),
                OperationKind::DeleteByKey => Ok(Route::DeleteByKey),
                OperationKind::Upsert => Ok(Route::Upsert),
                _ => Ok(Route::Transaction),
            }
        },
    }
}

/// How a transaction request is answered in a given state: the action to
/// perform, or the kind and message of its refusal.
pub open spec fn transaction_answer(op: TransactionOp, active: bool) -> Result<TransactionAction, (ErrorKind, Seq<char>)> {
    match op {
        TransactionOp::Start { isolation, read_only, mode } => if isolation {
            Err(
                (
                    ErrorKind::UnsupportedFeature,
                    "SurrealDB driver does not support explicit transaction isolation levels"@,
                ),
            )
        } else if mode != TransactionMode::Default {
            Err(
                (
                    ErrorKind::UnsupportedFeature,
                    "SurrealDB driver does not support TransactionMode::"@ + mode_name(mode),
                ),
            )
        } else if active {
            Err((ErrorKind::InvalidStatement, "SurrealDB connection already has an active transaction"@))
        } else {
            Ok(TransactionAction::Begin { read_only })
        },
        TransactionOp::Commit => if active {
            Ok(TransactionAction::Commit)
        } else {
            Err((ErrorKind::InvalidStatement, "cannot commit without an active SurrealDB transaction"@))
        },
        TransactionOp::Rollback => if active {
            Ok(TransactionAction::Cancel)
        } else {
            Err((ErrorKind::InvalidStatement, "cannot roll back without an active SurrealDB transaction"@))
        },
        _ => Err((ErrorKind::UnsupportedFeature, "SurrealDB SDK 3.2.4 does not support transaction savepoints"@)),
    }
}

/// The answer as a result: the action, or the error with its kind and message.
pub open spec fn answers<T>(r: Result<T, DriverError>, expected: Result<T, (ErrorKind, Seq<char>)>) -> bool {
    match (r, expected) {
        (Ok(x), Ok(y)) => x == y,
        (Err(e), Err((k, m))) => e.kind == k && e.message@ == m,
        _ => false,
    }
}

/// The answer ends the active transaction (a commit or a cancel).
pub open spec fn ends_transaction(r: Result<TransactionAction, DriverError>) -> bool {
    r matches Ok(a) && (a == TransactionAction::Commit || a == TransactionAction::Cancel)
}

impl Connection {
    #[verifier::type_invariant]
    spec fn inv(self) -> bool {
        self.read_only ==> self.active
    }

    /// A connection with no active transaction.
    pub fn new() -> (c: Connection)
        ensures
            !c@.active,
            !c@.read_only,
    {
        Connection { active: false, read_only: false }
    }

    /// Whether a transaction is active.
    pub fn in_transaction(&self) -> (r: bool)
        ensures
            r == self@.active,
    {
        self.active
    }

    /// Whether the active transaction is read-only.
    pub fn is_read_only(&self) -> (r: bool)
        ensures
            r == self@.read_only,
            r ==> self@.active,
    {
        proof {
            use_type_invariant(self);
        }
        self.read_only
    }

    /// Refuses a write inside a read-only transaction.
    pub fn ensure_writable(&self, operation: &str) -> (r: Result<(), DriverError>)
        ensures
            r is Ok <==> !self@.read_only,
            r matches Err(e) ==> e.kind == ErrorKind::ReadOnlyTransaction && e.message@ == read_only_message(
                operation@,
            ),
    {
        if self.read_only {
            let mut message = String::new();
            message.append(operation);
            message.append(" is not allowed in a read-only transaction");
            Err(DriverError { kind: ErrorKind::ReadOnlyTransaction, message })
        } else {
            Ok(())
        }
    }

    /// Refuses an operation that must not run inside a user transaction
    /// (such as a migration, which runs its own).
    pub fn ensure_no_active_transaction(&self, operation: &str) -> (r: Result<(), DriverError>)
        ensures
            r is Ok <==> !self@.active,
            r matches Err(e) ==> e.kind == ErrorKind::InvalidStatement && e.message@
                == active_transaction_message(operation@),
    {
        if self.active {
            let mut message = String::new();
            message.append("cannot ");
            message.append(operation);
            message.append(" while a SurrealDB transaction is active");
            Err(DriverError { kind: ErrorKind::InvalidStatement, message })
        } else {
            Ok(())
        }
    }

    /// Admits an operation, routing it to its handler: writes are refused in
    /// a read-only transaction, and raw SQL, non-insert SQL statements and
    /// unknown operations are not supported.
    pub fn route(&self, op: &OperationKind) -> (r: Result<Route, DriverError>)
        ensures
            answers(r, admission(*op, self@.read_only)),
    {
        match op {
            OperationKind::QuerySql(name) => {
                let mut message = String::new();
                message.append("SurrealDB driver only accepts insert statements via QuerySql, got: ");
                message.append(name.as_str());
                return Err(DriverError { kind: ErrorKind::UnsupportedFeature, message });
            },
            OperationKind::RawSql => {
                return Err(DriverError::new(ErrorKind::UnsupportedFeature, "SurrealDB driver does not support raw SQL"));
            },
            OperationKind::Other(name) => {
                let mut message = String::new();
                message.append("SurrealDB driver does not support operation: ");
                message.append(name.as_str());
                return Err(DriverError { kind: ErrorKind::UnsupportedFeature, message });
            },
            OperationKind::QuerySqlInsert | OperationKind::Insert { .. } => {
                self.ensure_writable("Insert")?;
            },
            OperationKind::UpdateByKey => {
                self.ensure_writable("UpdateByKey")?;
            },
            OperationKind::DeleteByKey => {
                self.ensure_writable("DeleteByKey")?;
            },
            OperationKind::Upsert => {
                self.ensure_writable("Upsert")?;
            },
            _ => {},
        }
        match op {
            OperationKind::Insert { carries_insert } => {
                if *carries_insert {
                    Ok(Route::Insert)
                } else {
                    Err(
                        DriverError::new(
                            ErrorKind::InvalidStatement,
                            "Insert operation did not carry an insert statement",
                        ),
                    )
                }
            },
            OperationKind::QuerySqlInsert => Ok(Route::Insert),
            OperationKind::GetByKey => Ok(Route::GetByKey),
            OperationKind::QueryPk => Ok(Route::QueryPk),
            OperationKind::FindPkByIndex => Ok(Route::FindPkByIndex),
            OperationKind::Scan => Ok(Route::Scan),
            OperationKind::UpdateByKey => Ok(Route::UpdateByKey),
            OperationKind::DeleteByKey => Ok(Route::DeleteByKey),
            OperationKind::Upsert => Ok(Route::Upsert),
            _ => Ok(Route::Transaction),
        }
    }

    /// Answers a transaction request. Starting is refused with explicit
    /// options or while a transaction is active, and otherwise leaves the
    /// state to [`Connection::begun`] once the caller has begun one; a
    /// commit or rollback ends the active transaction here, whatever the
    /// database then reports; savepoints are not supported.
    pub fn transaction_step(&mut self, op: &TransactionOp) -> (r: Result<TransactionAction, DriverError>)
        ensures
            answers(r, transaction_answer(*op, old(self)@.active)),
            ends_transaction(r) ==> !final(self)@.active && !final(self)@.read_only,
            !ends_transaction(r) ==> final(self)@ == old(self)@,
            final(self)@.read_only ==> final(self)@.active,
    {
        proof {
            use_type_invariant(&*self);
        }
        match op {
            TransactionOp::Start { isolation, read_only, mode } => {
                if *isolation {
                    return Err(
                        DriverError::new(
                            ErrorKind::UnsupportedFeature,
                            "SurrealDB driver does not support explicit transaction isolation levels",
                        ),
                    );
                }
                match mode {
                    TransactionMode::Default => {},
                    _ => {
                        let mut message = String::new();
                        message.append("SurrealDB driver does not support TransactionMode::");
                        match mode {
                            TransactionMode::Deferred => message.append("Deferred"),
                            TransactionMode::Immediate => message.append("Immediate"),
                            _ => message.append("Exclusive"),
                        }
                        return Err(DriverError { kind: ErrorKind::UnsupportedFeature, message });
                    },
                }
                if self.active {
                    return Err(
                        DriverError::new(
                            ErrorKind::InvalidStatement,
                            "SurrealDB connection already has an active transaction",
                        ),
                    );
                }
                Ok(TransactionAction::Begin { read_only: *read_only })
            },
            TransactionOp::Commit => {
                if !self.active {
                    return Err(
                        DriverError::new(
                            ErrorKind::InvalidStatement,
                            "cannot commit without an active SurrealDB transaction",
                        ),
                    );
                }
                self.read_only = false;
                self.active = false;
                Ok(TransactionAction::Commit)
            },
            TransactionOp::Rollback => {
                if !self.active {
                    return Err(
                        DriverError::new(
                            ErrorKind::InvalidStatement,
                            "cannot roll back without an active SurrealDB transaction",
                        ),
                    );
                }
                self.read_only = false;
                self.active = false;
                Ok(TransactionAction::Cancel)
            },
            _ => Err(
                DriverError::new(
                    ErrorKind::UnsupportedFeature,
                    "SurrealDB SDK 3.2.4 does not support transaction savepoints",
                ),
            ),
        }
    }

    /// Records that the caller began the transaction a `Begin` asked for.
    pub fn begun(&mut self, read_only: bool)
        requires
            !old(self)@.active,
        ensures
            final(self)@.active,
            final(self)@.read_only == read_only,
    {
        self.active = true;
        self.read_only = read_only;
    }
}

// ---------------------------------------------------------------------------
// Error classification
// ---------------------------------------------------------------------------

/// The message marks a transaction conflict (the embedded engine reports a
/// commit conflict only in its text).
pub open spec fn conflict_text(message: Seq<char>) -> bool {
    spec_contains(message, "Transaction conflict:"@)
}

/// The message marks a duplicate record.
pub open spec fn duplicate_text(message: Seq<char>) -> bool {
    spec_contains(message, "already exists"@)
}

/// The class of a database error, from its message and whether the database
/// typed it (anywhere along its chain of causes) as a transaction conflict.
pub open spec fn error_class(message: Seq<char>, typed_conflict: bool) -> ErrorKind {
    if typed_conflict || conflict_text(message) {
        ErrorKind::SerializationFailure
    } else if duplicate_text(message) {
        ErrorKind::ConditionFailed
    } else {
        ErrorKind::DriverOperationFailed
    }
}

/// Classifies a database error: a transaction conflict is a serialization
/// failure, a duplicate record a failed condition, anything else a driver
/// operation failure. The database's message is kept for diagnostics.
pub fn classify_error(message: &str, typed_conflict: bool) -> (e: DriverError)
    ensures
        e.kind == error_class(message@, typed_conflict),
        e.message@ == message@,
{
    let kind = if typed_conflict || contains(message, "Transaction conflict:") {
        ErrorKind::SerializationFailure
    } else if contains(message, "already exists") {
        ErrorKind::ConditionFailed
    } else {
        ErrorKind::DriverOperationFailed
    };
    DriverError { kind, message: message.to_owned() }
}

/// The fixed message of a classified migration error of each class; a
/// migration error never echoes the statement or its data.
pub open spec fn migration_error_message(kind: ErrorKind) -> Seq<char> {
    match kind {
        ErrorKind::SerializationFailure => "SurrealDB migration transaction conflicted"@,
        ErrorKind::UnsupportedFeature => "SurrealDB migration requires manual editing before it can be applied"@,
        ErrorKind::ConditionFailed => "SurrealDB migration object already exists"@,
        _ => "SurrealDB migration statement failed"@,
    }
}

/// The class of an error raised while applying a migration: a conflict, a
/// manual-migration guard that was left in, a duplicate object, or a failure.
pub open spec fn migration_error_class(message: Seq<char>, typed_conflict: bool) -> ErrorKind {
    if typed_conflict || conflict_text(message) {
        ErrorKind::SerializationFailure
    } else if spec_contains(message, "manual migration required:"@) {
        ErrorKind::UnsupportedFeature
    } else if duplicate_text(message) {
        ErrorKind::ConditionFailed
    } else {
        ErrorKind::DriverOperationFailed
    }
}

/// Classifies an error raised while applying a migration, with a fixed
/// message per class.
pub fn classify_migration_error(message: &str, typed_conflict: bool) -> (e: DriverError)
    ensures
        e.kind == migration_error_class(message@, typed_conflict),
        e.message@ == migration_error_message(e.kind),
{
    if typed_conflict || contains(message, "Transaction conflict:") {
        DriverError::new(ErrorKind::SerializationFailure, "SurrealDB migration transaction conflicted")
    } else if contains(message, "manual migration required:") {
        DriverError::new(
            ErrorKind::UnsupportedFeature,
            "SurrealDB migration requires manual editing before it can be applied",
        )
    } else if contains(message, "already exists") {
        DriverError::new(ErrorKind::ConditionFailed, "SurrealDB migration object already exists")
    } else {
        DriverError::new(ErrorKind::DriverOperationFailed, "SurrealDB migration statement failed")
    }
}

// ---------------------------------------------------------------------------
// Migration tracking
// ---------------------------------------------------------------------------

/// The table recording applied migrations, one record per migration id.
pub open spec fn tracking_table() -> Seq<char> {
    "__toasty_migrations"@
}

/// The alias under which the tracking query returns each migration id.
pub open spec fn tracking_id_alias() -> Seq<char> {
    "migration_id"@
}

/// `DEFINE TABLE IF NOT EXISTS <tracking table> SCHEMALESS`.
pub fn tracking_table_sql() -> (r: String)
    ensures
        r@ == "DEFINE TABLE IF NOT EXISTS "@ + spec_escape_ident(tracking_table()) + " SCHEMALESS"@,
{
    let mut sql = String::new();
    sql.append("DEFINE TABLE IF NOT EXISTS ");
    push_escaped_ident_str(&mut sql, "__toasty_migrations");
    sql.append(" SCHEMALESS");
    proof {
        reveal_strlit("__toasty_migrations");
    }
    sql
}

/// The query listing the applied migration ids (the record ids' keys).
pub fn applied_migrations_sql() -> (r: String)
    ensures
        r@ == "SELECT record::id(id) AS "@ + spec_escape_ident(tracking_id_alias()) + " FROM "@ + spec_escape_ident(
            tracking_table(),
        ),
{
    let mut sql = String::new();
    sql.append("SELECT record::id(id) AS ");
    push_escaped_ident_str(&mut sql, "migration_id");
    sql.append(" FROM ");
    push_escaped_ident_str(&mut sql, "__toasty_migrations");
    proof {
        reveal_strlit("__toasty_migrations");
        reveal_strlit("migration_id");
    }
    sql
}

/// The value of a digit character.
pub open spec fn digit_value(c: char) -> int {
    c as int - '0' as int
}

/// The character is an ASCII decimal digit.
pub open spec fn is_digit(c: char) -> bool {
    '0' <= c && c <= '9'
}

/// The number a string of decimal digits denotes.
pub open spec fn digits_value(s: Seq<char>) -> nat
    decreases s.len(),
{
    if s.len() == 0 {
        0
    } else {
        (digits_value(s.drop_last()) * 10 + digit_value(s.last())) as nat
    }
}

/// The text after an optional leading `+`.
pub open spec fn unsigned_body(s: Seq<char>) -> Seq<char> {
    if s.len() > 0 && s[0] == '+' {
        s.drop_first()
    } else {
        s
    }
}

/// Every character is a decimal digit.
pub open spec fn all_digits(s: Seq<char>) -> bool {
    forall|i: int| 0 <= i < s.len() ==> #[trigger] is_digit(s[i])
}

/// The `u64` a text denotes under `str::parse::<u64>`: an optional `+`, then
/// one or more decimal digits, of a value that fits.
pub open spec fn spec_parse_u64(s: Seq<char>) -> Option<u64> {
    let body = unsigned_body(s);
    if body.len() > 0 && all_digits(body) && digits_value(body) <= u64::MAX {
        Some(digits_value(body) as u64)
    } else {
        None
    }
}

proof fn lemma_digits_monotone(s: Seq<char>, i: int)
    requires
        0 <= i <= s.len(),
        forall|k: int| 0 <= k < s.len() ==> #[trigger] is_digit(s[k]),
    ensures
        digits_value(s.take(i)) <= digits_value(s),
    decreases s.len() - i,
{
    if i < s.len() {
        lemma_digits_monotone(s, i + 1);
        assert(s.take(i + 1).drop_last() =~= s.take(i));
        assert(is_digit(s[i]));
    } else {
        assert(s.take(i) =~= s);
    }
}

/// Parses a migration id as `str::parse::<u64>` does.
pub fn parse_u64(s: &str) -> (r: Option<u64>)
    ensures
        r == spec_parse_u64(s@),
{
    let n = s.unicode_len();
    let mut start: usize = 0;
    if n > 0 && s.get_char(0) == '+' {
        start = 1;
    }
    let ghost body = unsigned_body(s@);
    assert(body =~= s@.subrange(start as int, n as int));
    if start == n {
        return None;
    }
    let mut acc: u64 = 0;
    let mut i: usize = start;
    while i < n
        invariant
            n == s@.len(),
            start <= i <= n,
            start < n,
            body == unsigned_body(s@),
            body =~= s@.subrange(start as int, n as int),
            forall|k: int| start <= k < i ==> #[trigger] is_digit(s@[k]),
            acc as nat == digits_value(s@.subrange(start as int, i as int)),
        decreases n - i,
    {
        let c = s.get_char(i);
        if !('0' <= c && c <= '9') {
            proof {
                assert(body[i - start] == s@[i as int]);
                assert(!is_digit(body[i - start]));
                assert(!all_digits(body));
            }
            return None;
        }
        let d: u64 = (c as u32 - '0' as u32) as u64;
        proof {
            assert(s@.subrange(start as int, i + 1).drop_last() =~= s@.subrange(start as int, i as int));
        }
        if acc > (u64::MAX - d) / 10 {
            proof {
                let tail = s@.subrange(start as int, i + 1);
                assert(digits_value(tail) == acc * 10 + d);
                assert(acc * 10 + d > u64::MAX) by (nonlinear_arith)
                    requires
                        acc > (u64::MAX - d) / 10,
                        d <= 9,
                ;
                // The rest of the text only adds digits.
                if all_digits(body) {
                    lemma_digits_monotone(body, i + 1 - start);
                    assert(body.take(i + 1 - start) =~= tail);
                }
            }
            return None;
        }
        acc = acc * 10 + d;
        i = i + 1;
    }
    proof {
        assert forall|k: int| 0 <= k < body.len() implies #[trigger] is_digit(body[k]) by {
            assert(body[k] == s@[start + k]);
        }
        assert(s@.subrange(start as int, n as int) =~= body);
    }
    Some(acc)
}

/// The migration id a tracking row holds under the id alias, if it is a
/// string that parses as a `u64`.
pub open spec fn tracking_row_id(row: SurValue) -> Option<u64> {
    match row {
        SurValue::Object(fs) => match entry_from(fs@, tracking_id_alias(), 0) {
            Some(SurValue::String(t)) => spec_parse_u64(t@),
            _ => None,
        },
        _ => None,
    }
}

/// Reads the applied migration ids off the tracking query's rows. A row
/// without a valid id is refused with a message that does not echo it.
pub fn parse_applied_migrations(rows: &Vec<SurValue>) -> (r: Result<Vec<u64>, DriverError>)
    ensures
        r is Ok <==> forall|i: int| 0 <= i < rows@.len() ==> (#[trigger] tracking_row_id(rows@[i])) is Some,
        r matches Ok(ids) ==> ids@.len() == rows@.len() && forall|i: int|
            0 <= i < rows@.len() ==> Some(#[trigger] ids@[i]) == tracking_row_id(rows@[i]),
        r matches Err(e) ==> e.kind == ErrorKind::SerializationFailure && e.message@
            == "SurrealDB migration tracking table contains an invalid migration ID"@,
{
    let mut ids: Vec<u64> = Vec::new();
    let n = rows.len();
    let mut i: usize = 0;
    while i < n
        invariant
            n == rows@.len(),
            i <= n,
            ids@.len() == i,
            forall|k: int| 0 <= k < i ==> Some(#[trigger] ids@[k]) == tracking_row_id(rows@[k]),
        decreases n - i,
    {
        let id = match &rows[i] {
            SurValue::Object(fs) => {
                let mut alias = String::new();
                alias.append("migration_id");
                proof {
                    reveal_strlit("migration_id");
                }
                match find_field(fs, &alias) {
                    Some(SurValue::String(t)) => parse_u64(t.as_str()),
                    _ => None,
                }
            },
            _ => None,
        };
        match id {
            Some(v) => ids.push(v),
            None => {
                assert(tracking_row_id(rows@[i as int]) is None);
                return Err(
                    DriverError::new(
                        ErrorKind::SerializationFailure,
                        "SurrealDB migration tracking table contains an invalid migration ID",
                    ),
                );
            },
        }
        i = i + 1;
    }
    assert forall|k: int| 0 <= k < rows@.len() implies (#[trigger] tracking_row_id(rows@[k])) is Some by {
        assert(Some(ids@[k]) == tracking_row_id(rows@[k]));
    }
    Ok(ids)
}

/// The statement recording an applied migration.
pub open spec fn record_migration_sql() -> Seq<char> {
    "CREATE $migration_record SET name = $migration_name, applied_at = time::now() RETURN NONE"@
}

/// Records an applied migration: its tracking record, keyed by the id's
/// decimal text, with the migration's name.
pub fn record_migration_query(id: u64, name: &str) -> (q: Query)
    ensures
        q.sql@ == record_migration_sql(),
        q.binds@.len() == 2,
        q.binds@[0].0@ == "migration_record"@,
        q.binds@[0].1 matches SurValue::RecordId(rid) && rid.table@ == tracking_table() && (rid.key matches RecordKey::String(
            k,
        ) && k@ == spec_decimal(id as nat)),
        q.binds@[1].0@ == "migration_name"@,
        q.binds@[1].1 matches SurValue::String(t) && t@ == name@,
{
    let mut sql = String::new();
    sql.append("CREATE $migration_record SET name = $migration_name, applied_at = time::now() RETURN NONE");
    let mut table = String::new();
    table.append("__toasty_migrations");
    proof {
        reveal_strlit("__toasty_migrations");
    }
    let rid = RecordId { table, key: RecordKey::String(decimal_string(id)) };
    let mut binds: Vec<(String, SurValue)> = Vec::new();
    binds.push((String::from_str("migration_record"), SurValue::RecordId(rid)));
    binds.push((String::from_str("migration_name"), SurValue::String(name.to_owned())));
    Query { sql, binds }
}

/// The character is Unicode white space, as `char::is_whitespace`.
pub open spec fn spec_is_whitespace(c: char) -> bool {
    ||| ('\u{9}' <= c && c <= '\u{d}')
    ||| c == ' '
    ||| c == '\u{85}'
    ||| c == '\u{a0}'
    ||| c == '\u{1680}'
    ||| ('\u{2000}' <= c && c <= '\u{200a}')
    ||| c == '\u{2028}'
    ||| c == '\u{2029}'
    ||| c == '\u{202f}'
    ||| c == '\u{205f}'
    ||| c == '\u{3000}'
}

/// Whether a character is Unicode white space.
pub fn is_whitespace(c: char) -> (r: bool)
    ensures
        r == spec_is_whitespace(c),
{
    ('\u{9}' <= c && c <= '\u{d}') || c == ' ' || c == '\u{85}' || c == '\u{a0}' || c == '\u{1680}' || ('\u{2000}'
        <= c && c <= '\u{200a}') || c == '\u{2028}' || c == '\u{2029}' || c == '\u{202f}' || c == '\u{205f}' || c
        == '\u{3000}'
}

/// The text is empty once trimmed: every character is white space.
pub open spec fn is_blank(s: Seq<char>) -> bool {
    forall|i: int| 0 <= i < s.len() ==> #[trigger] spec_is_whitespace(s[i])
}

/// Whether a statement is blank.
pub fn blank(s: &str) -> (r: bool)
    ensures
        r == is_blank(s@),
{
    let n = s.unicode_len();
    let mut i: usize = 0;
    while i < n
        invariant
            n == s@.len(),
            i <= n,
            forall|k: int| 0 <= k < i ==> #[trigger] spec_is_whitespace(s@[k]),
        decreases n - i,
    {
        if !is_whitespace(s.get_char(i)) {
            return false;
        }
        i = i + 1;
    }
    true
}

/// The positions of the statements of a migration that are run: the ones
/// that are not blank, in order.
pub open spec fn runnable(statements: Seq<Seq<char>>) -> Seq<int>
    decreases statements.len(),
{
    if statements.len() == 0 {
        Seq::empty()
    } else {
        let prev = runnable(statements.drop_last());
        if is_blank(statements.last()) {
            prev
        } else {
            prev.push(statements.len() - 1)
        }
    }
}

/// The positions of a migration's statements to run, skipping blank ones.
pub fn runnable_statements(statements: &Vec<String>) -> (r: Vec<usize>)
    ensures
        r@.len() == runnable(views(statements@)).len(),
        forall|j: int| 0 <= j < r@.len() ==> #[trigger] r@[j] as int == runnable(views(statements@))[j],
{
    let mut out: Vec<usize> = Vec::new();
    let n = statements.len();
    let mut i: usize = 0;
    while i < n
        invariant
            n == statements@.len(),
            i <= n,
            out@.len() == runnable(views(statements@).take(i as int)).len(),
            forall|j: int| 0 <= j < out@.len() ==> #[trigger] out@[j] as int == runnable(views(statements@).take(i as int))[j],
        decreases n - i,
    {
        proof {
            assert(views(statements@).take(i + 1).drop_last() =~= views(statements@).take(i as int));
            assert(views(statements@).take(i + 1).last() == statements@[i as int]@);
        }
        if !blank(statements[i].as_str()) {
            out.push(i);
        }
        i = i + 1;
    }
    assert(views(statements@).take(n as int) =~= views(statements@));
    out
}

// ---------------------------------------------------------------------------
// Applying a migration
// ---------------------------------------------------------------------------

/// A step of applying a migration inside its own database transaction,
/// whose outcome decides what comes next.
#[derive(Clone, Copy, PartialEq, Eq, Structural, Debug)]
pub enum MigrationStage {
    /// Opening the transaction.
    Begin,
    /// Running the runnable statement at this position of the runnable list.
    Statement(usize),
    /// Writing the tracking record.
    Record,
    /// Committing.
    Commit,
    /// Cancelling after a failure.
    Cancel,
}

/// Which error a failed migration reports.
#[derive(Clone, Copy, PartialEq, Eq, Structural, Debug)]
pub enum MigrationFailure {
    /// The transaction could not be opened.
    Begin,
    /// A statement or the tracking record failed (and the cancel succeeded).
    Apply,
    /// The cancel after a failure failed itself.
    Cancel,
    /// The commit failed.
    Commit,
}

/// What to do next while applying a migration.
#[derive(Clone, Copy, PartialEq, Eq, Structural, Debug)]
pub enum MigrationAction {
    /// Run the statement at `index` of the migration (position `position` of
    /// the runnable list).
    Run { position: usize, index: usize },
    /// Write the tracking record.
    Record,
    /// Commit the transaction.
    Commit,
    /// Cancel the transaction.
    Cancel,
    /// The migration is applied and recorded.
    Succeed,
    /// Stop with the given error.
    Fail(MigrationFailure),
}

/// The step that follows a successful step before position `k` of the
/// runnable list: the next runnable statement, or the tracking record once
/// all have run.
pub open spec fn after_statements(runnable: Seq<usize>, k: int) -> MigrationAction {
    if 0 <= k < runnable.len() {
        MigrationAction::Run { position: k as usize, index: runnable[k] }
    } else {
        MigrationAction::Record
    }
}

/// The next action of applying a migration, given the stage that just ended
/// and whether it succeeded. Statements run in order and the tracking record
/// is written only after all of them; any failure inside the transaction
/// cancels it, and the commit comes only after the record.
pub open spec fn migration_next(runnable: Seq<usize>, stage: MigrationStage, ok: bool) -> MigrationAction {
    match stage {
        MigrationStage::Begin => if ok {
            after_statements(runnable, 0)
        } else {
            MigrationAction::Fail(MigrationFailure::Begin)
        },
        MigrationStage::Statement(k) => if ok {
            after_statements(runnable, k + 1)
        } else {
            MigrationAction::Cancel
        },
        MigrationStage::Record => if ok {
            MigrationAction::Commit
        } else {
            MigrationAction::Cancel
        },
        MigrationStage::Commit => if ok {
            MigrationAction::Succeed
        } else {
            MigrationAction::Fail(MigrationFailure::Commit)
        },
        MigrationStage::Cancel => if ok {
            MigrationAction::Fail(MigrationFailure::Apply)
        } else {
            MigrationAction::Fail(MigrationFailure::Cancel)
        },
    }
}

/// Decides the next action of applying a migration whose runnable
/// statements (see [`runnable_statements`]) are `runnable`.
pub fn migration_step(runnable: &Vec<usize>, stage: MigrationStage, ok: bool) -> (a: MigrationAction)
    ensures
        a == migration_next(runnable@, stage, ok),
{
    let first = |k: usize| -> (r: MigrationAction)
        ensures
            r == after_statements(runnable@, k as int),
        {
            if k < runnable.len() {
                MigrationAction::Run { position: k, index: runnable[k] }
            } else {
                MigrationAction::Record
            }
        };
    match stage {
        MigrationStage::Begin => if ok {
            first(0)
        } else {
            MigrationAction::Fail(MigrationFailure::Begin)
        },
        MigrationStage::Statement(k) => if ok {
            if k < runnable.len() {
                first(k + 1)
            } else {
                MigrationAction::Record
            }
        } else {
            MigrationAction::Cancel
        },
        MigrationStage::Record => if ok {
            MigrationAction::Commit
        } else {
            MigrationAction::Cancel
        },
        MigrationStage::Commit => if ok {
            MigrationAction::Succeed
        } else {
            MigrationAction::Fail(MigrationFailure::Commit)
        },
        MigrationStage::Cancel => if ok {
            MigrationAction::Fail(MigrationFailure::Apply)
        } else {
            MigrationAction::Fail(MigrationFailure::Cancel)
        },
    }
}

} // verus!
