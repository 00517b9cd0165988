//! Sessions in a SQLite database: what is written, in which order, and how it is read back.

use crate::decimal;
use crate::error::Error;
use crate::error::ErrorText;
use crate::json::JsonValue;
use crate::text;
use vstd::prelude::*;

verus! {

broadcast use vstd::string::group_string_axioms;

// ----------------------------------------------------------------------------
// Sessions
// ----------------------------------------------------------------------------

/// The header of a session.
#[derive(Debug, Clone)]
pub struct SessionHeader {
    /// The id of the session.
    pub id: String,
    /// What else the header says.
    pub details: JsonValue,
}

impl Default for SessionHeader {
    /// A header without id that says nothing else.
    fn default() -> (r: SessionHeader)
        ensures
            r.id@.len() == 0,
            r.details@ == "{}"@,
    {
        SessionHeader { id: String::new(), details: JsonValue::empty_object() }
    }
}

/// What all entries of a session have.
#[derive(Debug, Clone)]
pub struct EntryBase {
    /// The id of the entry.
    pub id: Option<String>,
    /// The id of the entry that it follows.
    pub parent_id: Option<String>,
    /// When the entry was made.
    pub timestamp: String,
}

/// What a user says.
#[derive(Debug, Clone)]
pub enum UserContent {
    /// Plain text.
    Text(String),
    /// Anything else.
    Blocks(JsonValue),
}

/// A message of a session.
#[derive(Debug, Clone)]
pub enum SessionMessage {
    /// A message of the user.
    User {
        /// What the user says.
        content: UserContent,
        /// When it was said.
        timestamp: Option<i64>,
    },
    /// Any other message.
    Other(JsonValue),
}

/// A message.
#[derive(Debug, Clone)]
pub struct MessageEntry {
    /// What all entries have.
    pub base: EntryBase,
    /// The message.
    pub message: SessionMessage,
}

/// A change of the model.
#[derive(Debug, Clone)]
pub struct ModelChangeEntry {
    /// What all entries have.
    pub base: EntryBase,
    /// The provider of the model.
    pub provider: String,
    /// The model.
    pub model_id: String,
}

/// A change of the thinking level.
#[derive(Debug, Clone)]
pub struct ThinkingLevelChangeEntry {
    /// What all entries have.
    pub base: EntryBase,
    /// The thinking level.
    pub thinking_level: String,
}

/// A summary that stands for the entries before it.
#[derive(Debug, Clone)]
pub struct CompactionEntry {
    /// What all entries have.
    pub base: EntryBase,
    /// The summary.
    pub summary: String,
    /// The first entry that is kept.
    pub first_kept_entry_id: String,
    /// How many tokens there were before.
    pub tokens_before: u64,
    /// Further details.
    pub details: Option<JsonValue>,
    /// Whether a hook made the summary.
    pub from_hook: Option<bool>,
}

/// A summary of another branch.
#[derive(Debug, Clone)]
pub struct BranchSummaryEntry {
    /// What all entries have.
    pub base: EntryBase,
    /// Where the branch begins.
    pub from_id: String,
    /// The summary.
    pub summary: String,
    /// Further details.
    pub details: Option<JsonValue>,
    /// Whether a hook made the summary.
    pub from_hook: Option<bool>,
}

/// A label on another entry.
#[derive(Debug, Clone)]
pub struct LabelEntry {
    /// What all entries have.
    pub base: EntryBase,
    /// The entry with the label.
    pub target_id: String,
    /// The label.
    pub label: Option<String>,
}

/// What is said of the session as a whole.
#[derive(Debug, Clone)]
pub struct SessionInfoEntry {
    /// What all entries have.
    pub base: EntryBase,
    /// The name of the session.
    pub name: Option<String>,
}

/// An entry of an extension.
#[derive(Debug, Clone)]
pub struct CustomEntry {
    /// What all entries have.
    pub base: EntryBase,
    /// What kind of entry it is.
    pub custom_type: String,
    /// The data of the entry.
    pub data: Option<JsonValue>,
}

/// An entry of a session.
#[derive(Debug, Clone)]
pub enum SessionEntry {
    /// A message.
    Message(MessageEntry),
    /// A change of the model.
    ModelChange(ModelChangeEntry),
    /// A change of the thinking level.
    ThinkingLevelChange(ThinkingLevelChangeEntry),
    /// A summary that stands for the entries before it.
    Compaction(CompactionEntry),
    /// A summary of another branch.
    BranchSummary(BranchSummaryEntry),
    /// A label on another entry.
    Label(LabelEntry),
    /// What is said of the session as a whole.
    SessionInfo(SessionInfoEntry),
    /// An entry of an extension.
    Custom(CustomEntry),
}

/// What is known of a session without its entries.
#[derive(Debug, Clone)]
pub struct SqliteSessionMeta {
    /// The header.
    pub header: SessionHeader,
    /// How many messages the session has.
    pub message_count: u64,
    /// The name of the session.
    pub name: Option<String>,
}

/// The name that an entry gives to the session, if it does.
pub open spec fn given_name(entry: SessionEntry) -> Option<Seq<char>> {
    match entry {
        SessionEntry::SessionInfo(info) => text::opt_text(info.name),
        _ => None,
    }
}

/// How many of the entries are messages.
pub open spec fn message_count(entries: Seq<SessionEntry>) -> nat
    decreases entries.len(),
{
    if entries.len() == 0 {
        0
    } else if entries.last() is Message {
        message_count(entries.drop_last()) + 1
    } else {
        message_count(entries.drop_last())
    }
}

/// The name of the session: the last that an entry gives to it.
pub open spec fn session_name(entries: Seq<SessionEntry>) -> Option<Seq<char>>
    decreases entries.len(),
{
    if entries.len() == 0 {
        None
    } else {
        match given_name(entries.last()) {
            Some(name) => Some(name),
            None => session_name(entries.drop_last()),
        }
    }
}

/// How many of the entries are messages, and the name of the session.
pub fn compute_message_count_and_name(entries: &[SessionEntry]) -> (r: (u64, Option<String>))
    ensures
        r.0 == message_count(entries@),
        text::opt_text(r.1) == session_name(entries@),
{
    let mut count: u64 = 0;
    let mut name: Option<String> = None;
    let mut i: usize = 0;
    while i < entries.len()
        invariant
            i <= entries@.len(),
            count <= i,
            count == message_count(entries@.take(i as int)),
            text::opt_text(name) == session_name(entries@.take(i as int)),
        decreases entries@.len() - i,
    {
        assert(entries@.take(i + 1).drop_last() =~= entries@.take(i as int));
        match &entries[i] {
            SessionEntry::Message(_) => {
                count = count + 1;
            },
            SessionEntry::SessionInfo(info) => {
                if info.name.is_some() {
                    name = text::copy_opt(&info.name);
                }
            },
            _ => {},
        }
        i = i + 1;
    }
    assert(entries@.take(entries@.len() as int) =~= entries@);
    (count, name)
}

// ----------------------------------------------------------------------------
// The database
// ----------------------------------------------------------------------------

/// What makes the tables of the database, where they are missing.
pub const INIT_SQL: &'static str = r"
PRAGMA journal_mode = WAL;
PRAGMA synchronous = NORMAL;
PRAGMA foreign_keys = ON;

CREATE TABLE IF NOT EXISTS pi_session_header (
  id TEXT PRIMARY KEY,
  json TEXT NOT NULL
);

CREATE TABLE IF NOT EXISTS pi_session_entries (
  seq INTEGER PRIMARY KEY,
  json TEXT NOT NULL
);

CREATE TABLE IF NOT EXISTS pi_session_meta (
  key TEXT PRIMARY KEY,
  value TEXT NOT NULL
);
";

/// What switches write-ahead logging on.
pub const WAL_SQL: &'static str = "PRAGMA journal_mode = WAL";

/// What reads the header.
pub const SELECT_HEADER_SQL: &'static str = "SELECT json FROM pi_session_header LIMIT 1";

/// What reads the entries.
pub const SELECT_ENTRIES_SQL: &'static str = "SELECT json FROM pi_session_entries ORDER BY seq ASC";

/// What reads the metadata.
pub const SELECT_META_SQL: &'static str =
    "SELECT key,value FROM pi_session_meta WHERE key IN ('message_count','name')";

/// A statement that changes the database.
#[derive(Debug, Clone, PartialEq, Eq)]
pub enum SessionOp {
    /// Deletes all entries.
    DeleteEntries,
    /// Deletes the header.
    DeleteHeader,
    /// Deletes the metadata.
    DeleteMeta,
    /// Inserts the header.
    InsertHeader {
        /// The id of the session.
        id: String,
        /// The header as JSON.
        json: String,
    },
    /// Inserts an entry.
    InsertEntry {
        /// The sequence number of the entry.
        seq: i64,
        /// The entry as JSON.
        json: String,
    },
    /// Inserts a piece of metadata.
    InsertMeta {
        /// What it is.
        key: String,
        /// Its value.
        value: String,
    },
    /// Inserts a piece of metadata, or replaces it.
    UpsertMeta {
        /// What it is.
        key: String,
        /// Its value.
        value: String,
    },
}

/// What a statement says.
#[verifier::ext_equal]
pub enum OpModel {
    /// Deletes all entries.
    DeleteEntries,
    /// Deletes the header.
    DeleteHeader,
    /// Deletes the metadata.
    DeleteMeta,
    /// Inserts the header.
    InsertHeader(Seq<char>, Seq<char>),
    /// Inserts an entry.
    InsertEntry(int, Seq<char>),
    /// Inserts a piece of metadata.
    InsertMeta(Seq<char>, Seq<char>),
    /// Inserts a piece of metadata, or replaces it.
    UpsertMeta(Seq<char>, Seq<char>),
}

impl View for SessionOp {
    type V = OpModel;

    open spec fn view(&self) -> OpModel {
        match *self {
            SessionOp::DeleteEntries => OpModel::DeleteEntries,
            SessionOp::DeleteHeader => OpModel::DeleteHeader,
            SessionOp::DeleteMeta => OpModel::DeleteMeta,
            SessionOp::InsertHeader { id, json } => OpModel::InsertHeader(id@, json@),
            SessionOp::InsertEntry { seq, json } => OpModel::InsertEntry(seq as int, json@),
            SessionOp::InsertMeta { key, value } => OpModel::InsertMeta(key@, value@),
            SessionOp::UpsertMeta { key, value } => OpModel::UpsertMeta(key@, value@),
        }
    }
}

/// What each statement of a sequence says.
pub open spec fn op_views(v: Seq<SessionOp>) -> Seq<OpModel> {
    Seq::new(v.len(), |i: int| v[i]@)
}

/// The SQL of a statement, with its values left open.
pub open spec fn op_sql(op: OpModel) -> Seq<char> {
    match op {
        OpModel::DeleteEntries => "DELETE FROM pi_session_entries"@,
        OpModel::DeleteHeader => "DELETE FROM pi_session_header"@,
        OpModel::DeleteMeta => "DELETE FROM pi_session_meta"@,
        OpModel::InsertHeader(_, _) => "INSERT INTO pi_session_header (id,json) VALUES (?1,?2)"@,
        OpModel::InsertEntry(_, _) => "INSERT INTO pi_session_entries (seq,json) VALUES (?1,?2)"@,
        OpModel::InsertMeta(_, _) => "INSERT INTO pi_session_meta (key,value) VALUES (?1,?2)"@,
        OpModel::UpsertMeta(_, _) =>
            "INSERT OR REPLACE INTO pi_session_meta (key,value) VALUES (?1,?2)"@,
    }
}

/// What failed where a statement failed.
pub open spec fn op_failure(op: OpModel) -> Seq<char> {
    match op {
        OpModel::DeleteEntries => "Failed to delete entries"@,
        OpModel::DeleteHeader => "Failed to delete header"@,
        OpModel::DeleteMeta => "Failed to delete meta"@,
        OpModel::InsertHeader(_, _) => "Failed to insert header"@,
        OpModel::InsertEntry(_, _) => "Failed to insert entry"@,
        OpModel::InsertMeta(key, _) => "Failed to insert "@ + key,
        OpModel::UpsertMeta(key, _) => "Failed to upsert "@ + key,
    }
}

impl SessionOp {
    /// The SQL of the statement, with its values left open.
    pub fn sql(&self) -> (r: &'static str)
        ensures
            r@ == op_sql(self@),
    {
        match self {
            SessionOp::DeleteEntries => "DELETE FROM pi_session_entries",
            SessionOp::DeleteHeader => "DELETE FROM pi_session_header",
            SessionOp::DeleteMeta => "DELETE FROM pi_session_meta",
            SessionOp::InsertHeader { .. } =>
                "INSERT INTO pi_session_header (id,json) VALUES (?1,?2)",
            SessionOp::InsertEntry { .. } =>
                "INSERT INTO pi_session_entries (seq,json) VALUES (?1,?2)",
            SessionOp::InsertMeta { .. } =>
                "INSERT INTO pi_session_meta (key,value) VALUES (?1,?2)",
            SessionOp::UpsertMeta { .. } =>
                "INSERT OR REPLACE INTO pi_session_meta (key,value) VALUES (?1,?2)",
        }
    }

    /// The error where the statement failed.
    pub fn error(&self, detail: &str) -> (r: Error)
        ensures
            r@ == ErrorText::Session(op_failure(self@) + ": "@ + detail@),
    {
        let what = match self {
            SessionOp::DeleteEntries => "Failed to delete entries".to_owned(),
            SessionOp::DeleteHeader => "Failed to delete header".to_owned(),
            SessionOp::DeleteMeta => "Failed to delete meta".to_owned(),
            SessionOp::InsertHeader { .. } => "Failed to insert header".to_owned(),
            SessionOp::InsertEntry { .. } => "Failed to insert entry".to_owned(),
            SessionOp::InsertMeta { key, .. } => text::concat2("Failed to insert ", key.as_str()),
            SessionOp::UpsertMeta { key, .. } => text::concat2("Failed to upsert ", key.as_str()),
        };
        session_error(what.as_str(), detail)
    }
}

/// The error where a step failed.
pub fn session_error(what: &str, detail: &str) -> (r: Error)
    ensures
        r@ == ErrorText::Session(what@ + ": "@ + detail@),
{
    Error::Session(text::concat3(what, ": ", detail))
}

/// Checks that there is a database before it is opened.
pub fn require_session(path: &str, exists: bool) -> (r: Result<(), Error>)
    ensures
        match r {
            Ok(()) => exists,
            Err(e) => !exists && e@ == ErrorText::SessionNotFound(path@),
        },
{
    if exists {
        Ok(())
    } else {
        Err(Error::SessionNotFound { path: path.to_owned() })
    }
}

/// What the tables of the database hold.
#[verifier::ext_equal]
pub struct Database {
    /// The header, by the id of the session.
    pub header: Map<Seq<char>, Seq<char>>,
    /// The entries, by sequence number.
    pub entries: Map<int, Seq<char>>,
    /// The metadata.
    pub meta: Map<Seq<char>, Seq<char>>,
}

/// The database after a statement. A row whose key is taken cannot be inserted.
pub open spec fn applied(db: Database, op: OpModel) -> Option<Database> {
    match op {
        OpModel::DeleteEntries => Some(Database { entries: Map::empty(), ..db }),
        OpModel::DeleteHeader => Some(Database { header: Map::empty(), ..db }),
        OpModel::DeleteMeta => Some(Database { meta: Map::empty(), ..db }),
        OpModel::InsertHeader(id, json) => if db.header.dom().contains(id) {
            None
        } else {
            Some(Database { header: db.header.insert(id, json), ..db })
        },
        OpModel::InsertEntry(seq, json) => if db.entries.dom().contains(seq) {
            None
        } else {
            Some(Database { entries: db.entries.insert(seq, json), ..db })
        },
        OpModel::InsertMeta(key, value) => if db.meta.dom().contains(key) {
            None
        } else {
            Some(Database { meta: db.meta.insert(key, value), ..db })
        },
        OpModel::UpsertMeta(key, value) => Some(
            Database { meta: db.meta.insert(key, value), ..db },
        ),
    }
}

/// The database after statements, where none of them fails.
pub open spec fn run(db: Database, ops: Seq<OpModel>) -> Option<Database>
    decreases ops.len(),
{
    if ops.len() == 0 {
        Some(db)
    } else {
        match run(db, ops.drop_last()) {
            Some(mid) => applied(mid, ops.last()),
            None => None,
        }
    }
}

// ----------------------------------------------------------------------------
// Writing
// ----------------------------------------------------------------------------

/// A sequence number as the database keeps it.
pub open spec fn kept_seq(n: int) -> int {
    if n <= i64::MAX {
        n
    } else {
        i64::MAX as int
    }
}

/// The statements that insert entries from a sequence number on.
pub open spec fn entry_ops(jsons: Seq<Seq<char>>, first: int) -> Seq<OpModel> {
    Seq::new(jsons.len(), |i: int| OpModel::InsertEntry(kept_seq(first + i), jsons[i]))
}

/// The statements that write the metadata of a session.
pub open spec fn meta_ops(count: nat, name: Option<Seq<char>>, upsert: bool) -> Seq<OpModel> {
    let counted = if upsert {
        OpModel::UpsertMeta("message_count"@, decimal::numeral(count))
    } else {
        OpModel::InsertMeta("message_count"@, decimal::numeral(count))
    };
    match name {
        Some(n) => seq![
            counted,
            if upsert {
                OpModel::UpsertMeta("name"@, n)
            } else {
                OpModel::InsertMeta("name"@, n)
            },
        ],
        None => seq![counted],
    }
}

/// The statements that save a session: they replace whatever was in the database.
pub open spec fn save_ops(
    id: Seq<char>,
    header: Seq<char>,
    jsons: Seq<Seq<char>>,
    count: nat,
    name: Option<Seq<char>>,
) -> Seq<OpModel> {
    seq![
        OpModel::DeleteEntries,
        OpModel::DeleteHeader,
        OpModel::DeleteMeta,
        OpModel::InsertHeader(id, header),
    ] + entry_ops(jsons, 1) + meta_ops(count, name, false)
}

/// The statements that append entries to a session: they leave the header and the entries that
/// are there alone.
pub open spec fn append_ops(
    jsons: Seq<Seq<char>>,
    start_seq: int,
    count: nat,
    name: Option<Seq<char>>,
) -> Seq<OpModel> {
    entry_ops(jsons, start_seq) + meta_ops(count, name, true)
}

fn seq_number(first: usize, i: usize) -> (r: i64)
    requires
        first + i <= usize::MAX,
    ensures
        r == kept_seq(first + i),
{
    let n: u64 = (first + i) as u64;
    if n <= 0x7fff_ffff_ffff_ffff {
        n as i64
    } else {
        i64::MAX
    }
}

fn push_entries(ops: &mut Vec<SessionOp>, jsons: &Vec<String>, first: usize)
    requires
        first + jsons@.len() <= usize::MAX + 1,
    ensures
        op_views(final(ops)@) == op_views(old(ops)@) + entry_ops(
            text::texts(jsons@),
            first as int,
        ),
{
    let ghost before = op_views(ops@);
    let ghost all = entry_ops(text::texts(jsons@), first as int);
    let mut i: usize = 0;
    while i < jsons.len()
        invariant
            i <= jsons@.len(),
            first + jsons@.len() <= usize::MAX + 1,
            all == entry_ops(text::texts(jsons@), first as int),
            op_views(ops@) == before + all.take(i as int),
        decreases jsons@.len() - i,
    {
        let ghost so_far = op_views(ops@);
        ops.push(SessionOp::InsertEntry { seq: seq_number(first, i), json: jsons[i].clone() });
        assert(op_views(ops@) =~= so_far.push(all[i as int]));
        i = i + 1;
    }
}

fn push_meta(ops: &mut Vec<SessionOp>, count: u64, name: Option<String>, upsert: bool)
    ensures
        op_views(final(ops)@) == op_views(old(ops)@) + meta_ops(
            count as nat,
            text::opt_text(name),
            upsert,
        ),
{
    let key = "message_count".to_owned();
    let value = decimal::to_decimal(count);
    if upsert {
        ops.push(SessionOp::UpsertMeta { key, value });
    } else {
        ops.push(SessionOp::InsertMeta { key, value });
    }
    match name {
        Some(value) => {
            let key = "name".to_owned();
            if upsert {
                ops.push(SessionOp::UpsertMeta { key, value });
            } else {
                ops.push(SessionOp::InsertMeta { key, value });
            }
        },
        None => {},
    }
}

/// The statements that save a session, given its header and its entries as JSON.
///
/// They replace whatever was in the database, and belong into one transaction.
pub fn save_session(
    header: &SessionHeader,
    header_json: &str,
    entries: &[SessionEntry],
    entry_jsons: &Vec<String>,
) -> (r: Vec<SessionOp>)
    ensures
        op_views(r@) == save_ops(
            header.id@,
            header_json@,
            text::texts(entry_jsons@),
            message_count(entries@),
            session_name(entries@),
        ),
{
    let (count, name) = compute_message_count_and_name(entries);
    let mut ops: Vec<SessionOp> = Vec::new();
    ops.push(SessionOp::DeleteEntries);
    ops.push(SessionOp::DeleteHeader);
    ops.push(SessionOp::DeleteMeta);
    ops.push(SessionOp::InsertHeader { id: header.id.clone(), json: header_json.to_owned() });
    assert(entry_jsons@.len() == entry_jsons.len());
    push_entries(&mut ops, entry_jsons, 1);
    push_meta(&mut ops, count, name, false);
    ops
}

/// The statements that append entries to an existing session.
///
/// Only the new entries are inserted, starting at the 1-based sequence number `start_seq`. The
/// header row is left unchanged, while the metadata is brought up to the current totals. They
/// belong into one transaction.
pub fn append_entries(
    entry_jsons: &Vec<String>,
    start_seq: usize,
    message_count: u64,
    session_name: Option<&str>,
) -> (r: Vec<SessionOp>)
    requires
        start_seq + entry_jsons@.len() <= usize::MAX + 1,
    ensures
        op_views(r@) == append_ops(
            text::texts(entry_jsons@),
            start_seq as int,
            message_count as nat,
            text::opt_str(session_name),
        ),
{
    let mut ops: Vec<SessionOp> = Vec::new();
    push_entries(&mut ops, entry_jsons, start_seq);
    let name = match session_name {
        Some(n) => Some(n.to_owned()),
        None => None,
    };
    push_meta(&mut ops, message_count, name, true);
    ops
}

// ----------------------------------------------------------------------------
// Reading
// ----------------------------------------------------------------------------

/// The metadata that the database holds.
#[derive(Debug, Clone)]
pub struct StoredMeta {
    /// How many messages there are, if that is stored and is a number.
    pub message_count: Option<u64>,
    /// The name of the session, if that is stored.
    pub name: Option<String>,
}

/// What rows of metadata say of the number of messages: what the last row for it says.
pub open spec fn stored_count(rows: Seq<(Seq<char>, Seq<char>)>) -> Option<nat>
    decreases rows.len(),
{
    if rows.len() == 0 {
        None
    } else if rows.last().0 == "message_count"@ {
        decimal::parsed(rows.last().1, u64::MAX as nat)
    } else {
        stored_count(rows.drop_last())
    }
}

/// What rows of metadata say of the name: what the last row for it says.
pub open spec fn stored_name(rows: Seq<(Seq<char>, Seq<char>)>) -> Option<Seq<char>>
    decreases rows.len(),
{
    if rows.len() == 0 {
        None
    } else if rows.last().0 == "name"@ {
        Some(rows.last().1)
    } else {
        stored_name(rows.drop_last())
    }
}

/// A number that may be absent.
pub open spec fn opt_nat(o: Option<u64>) -> Option<nat> {
    match o {
        Some(n) => Some(n as nat),
        None => None,
    }
}

/// Reads rows of metadata.
pub fn read_meta(rows: &Vec<(String, String)>) -> (r: StoredMeta)
    ensures
        opt_nat(r.message_count) == stored_count(text::pairs(rows@)),
        text::opt_text(r.name) == stored_name(text::pairs(rows@)),
{
    let ghost all = text::pairs(rows@);
    let mut message_count: Option<u64> = None;
    let mut name: Option<String> = None;
    let mut i: usize = 0;
    proof {
        reveal_strlit("message_count");
        reveal_strlit("name");
    }
    while i < rows.len()
        invariant
            i <= rows@.len(),
            all == text::pairs(rows@),
            "message_count"@.len() != "name"@.len(),
            opt_nat(message_count) == stored_count(all.take(i as int)),
            text::opt_text(name) == stored_name(all.take(i as int)),
        decreases rows@.len() - i,
    {
        assert(all.take(i + 1).drop_last() =~= all.take(i as int));
        let key = rows[i].0.as_str();
        if text::same_str(key, "message_count") {
            message_count = decimal::parse_u64(rows[i].1.as_str());
        } else if text::same_str(key, "name") {
            name = Some(rows[i].1.clone());
        }
        i = i + 1;
    }
    assert(all.take(all.len() as int) =~= all);
    StoredMeta { message_count, name }
}

/// The metadata of a session.
///
/// Where the number of messages is not stored, it is counted, and the name is taken from the
/// entries if that is not stored either. Where it is stored, the entries are not looked at.
pub fn session_meta(
    header: SessionHeader,
    stored: StoredMeta,
    entries: &[SessionEntry],
) -> (r: SqliteSessionMeta)
    ensures
        r.header == header,
        match stored.message_count {
            Some(count) => {
                &&& r.message_count == count
                &&& text::opt_text(r.name) == text::opt_text(stored.name)
            },
            None => {
                &&& r.message_count == message_count(entries@)
                &&& text::opt_text(r.name) == match stored.name {
                    Some(name) => Some(name@),
                    None => session_name(entries@),
                }
            },
        },
{
    match stored.message_count {
        Some(count) => SqliteSessionMeta { header, message_count: count, name: stored.name },
        None => {
            let (count, fallback) = compute_message_count_and_name(entries);
            let name = match stored.name {
                Some(name) => Some(name),
                None => fallback,
            };
            SqliteSessionMeta { header, message_count: count, name }
        },
    }
}

// ----------------------------------------------------------------------------
// Laws
// ----------------------------------------------------------------------------

/// Entries with sequence numbers from `first` on.
pub open spec fn numbered(jsons: Seq<Seq<char>>, first: int) -> Map<int, Seq<char>> {
    Map::new(|n: int| first <= n < first + jsons.len(), |n: int| jsons[n - first])
}

/// The metadata of a saved session.
pub open spec fn saved_meta(count: nat, name: Option<Seq<char>>) -> Map<Seq<char>, Seq<char>> {
    let counted = Map::empty().insert("message_count"@, decimal::numeral(count));
    match name {
        Some(n) => counted.insert("name"@, n),
        None => counted,
    }
}

/// The database that holds one session and nothing else.
pub open spec fn saved(
    id: Seq<char>,
    header: Seq<char>,
    jsons: Seq<Seq<char>>,
    count: nat,
    name: Option<Seq<char>>,
) -> Database {
    Database {
        header: Map::empty().insert(id, header),
        entries: numbered(jsons, 1),
        meta: saved_meta(count, name),
    }
}

proof fn lemma_run_concat(db: Database, a: Seq<OpModel>, b: Seq<OpModel>)
    ensures
        run(db, a + b) == match run(db, a) {
            Some(mid) => run(mid, b),
            None => None,
        },
    decreases b.len(),
{
    if b.len() == 0 {
        assert(a + b =~= a);
    } else {
        assert((a + b).drop_last() =~= a + b.drop_last());
        lemma_run_concat(db, a, b.drop_last());
    }
}

proof fn lemma_run_entries(db: Database, jsons: Seq<Seq<char>>, first: int)
    requires
        first + jsons.len() <= i64::MAX + 1,
        forall|n: int| first <= n < first + jsons.len() ==> !db.entries.dom().contains(n),
    ensures
        run(db, entry_ops(jsons, first)) == Some(
            Database {
                entries: db.entries.union_prefer_right(numbered(jsons, first)),
                ..db
            },
        ),
    decreases jsons.len(),
{
    let ops = entry_ops(jsons, first);
    if jsons.len() == 0 {
        assert(db.entries.union_prefer_right(numbered(jsons, first)) =~= db.entries);
    } else {
        let front = jsons.drop_last();
        let k = first + front.len();
        lemma_run_entries(db, front, first);
        assert(ops.drop_last() =~= entry_ops(front, first));
        let mid = db.entries.union_prefer_right(numbered(front, first));
        assert(!mid.dom().contains(k));
        assert(mid.insert(k, jsons.last()) =~= db.entries.union_prefer_right(
            numbered(jsons, first),
        ));
    }
}

proof fn lemma_meta_keys()
    ensures
        "message_count"@ != "name"@,
{
    reveal_strlit("message_count");
    reveal_strlit("name");
    assert("message_count"@.len() != "name"@.len());
}

/// Saving a session leaves the database with that session and nothing else, whatever it held
/// before.
pub proof fn law_save_replaces_everything(
    db: Database,
    id: Seq<char>,
    header: Seq<char>,
    jsons: Seq<Seq<char>>,
    count: nat,
    name: Option<Seq<char>>,
)
    requires
        jsons.len() <= i64::MAX,
    ensures
        run(db, save_ops(id, header, jsons, count, name)) == Some(
            saved(id, header, jsons, count, name),
        ),
{
    let a = seq![
        OpModel::DeleteEntries,
        OpModel::DeleteHeader,
        OpModel::DeleteMeta,
        OpModel::InsertHeader(id, header),
    ];
    let b = entry_ops(jsons, 1);
    let c = meta_ops(count, name, false);
    let cleared = Database {
        header: Map::empty().insert(id, header),
        entries: Map::empty(),
        meta: Map::empty(),
    };
    lemma_meta_keys();
    assert(run(db, a) == Some(cleared)) by {
        reveal_with_fuel(run, 5);
        let a1 = a.drop_last();
        let a2 = a1.drop_last();
        let a3 = a2.drop_last();
        assert(a3.drop_last().len() == 0);
        assert(a3.last() == OpModel::DeleteEntries);
        assert(a2.last() == OpModel::DeleteHeader);
        assert(a1.last() == OpModel::DeleteMeta);
        assert(a.last() == OpModel::InsertHeader(id, header));
    }
    lemma_run_entries(cleared, jsons, 1);
    let filled = Database { entries: numbered(jsons, 1), ..cleared };
    assert(cleared.entries.union_prefer_right(numbered(jsons, 1)) =~= numbered(jsons, 1));
    lemma_run_concat(db, a, b);
    lemma_run_concat(db, a + b, c);
    assert(run(filled, c) == Some(saved(id, header, jsons, count, name))) by {
        reveal_with_fuel(run, 3);
        assert(c[0] == OpModel::InsertMeta("message_count"@, decimal::numeral(count)));
        match name {
            Some(n) => {
                assert(c.drop_last() =~= seq![c[0]]);
                assert(seq![c[0]].drop_last() =~= Seq::<OpModel>::empty());
                assert(seq![c[0]].last() == c[0]);
                assert(c.last() == OpModel::InsertMeta("name"@, n));
            },
            None => {
                assert(c.drop_last() =~= Seq::<OpModel>::empty());
            },
        }
    }
}

/// Appending to a saved session gives what saving all of it gives.
pub proof fn law_append_continues_a_save(
    id: Seq<char>,
    header: Seq<char>,
    old_entries: Seq<SessionEntry>,
    old_jsons: Seq<Seq<char>>,
    new_entries: Seq<SessionEntry>,
    new_jsons: Seq<Seq<char>>,
)
    requires
        old_jsons.len() + new_jsons.len() <= i64::MAX,
    ensures
        ({
            let all = old_entries + new_entries;
            run(
                saved(
                    id,
                    header,
                    old_jsons,
                    message_count(old_entries),
                    session_name(old_entries),
                ),
                append_ops(
                    new_jsons,
                    old_jsons.len() as int + 1,
                    message_count(all),
                    session_name(all),
                ),
            ) == Some(
                saved(id, header, old_jsons + new_jsons, message_count(all), session_name(all)),
            )
        }),
{
    let all = old_entries + new_entries;
    let count = message_count(all);
    let name = session_name(all);
    let db = saved(id, header, old_jsons, message_count(old_entries), session_name(old_entries));
    let first = old_jsons.len() as int + 1;
    let a = entry_ops(new_jsons, first);
    let c = meta_ops(count, name, true);
    lemma_name_stays(old_entries, new_entries);
    lemma_run_entries(db, new_jsons, first);
    let filled = Database { entries: numbered(old_jsons + new_jsons, 1), ..db };
    assert(db.entries.union_prefer_right(numbered(new_jsons, first)) =~= numbered(
        old_jsons + new_jsons,
        1,
    ));
    lemma_run_concat(db, a, c);
    let target = saved(id, header, old_jsons + new_jsons, count, name);
    assert(run(filled, c) == Some(target)) by {
        reveal_with_fuel(run, 3);
    }
}

proof fn lemma_name_stays(a: Seq<SessionEntry>, b: Seq<SessionEntry>)
    ensures
        session_name(a + b) == match session_name(b) {
            Some(n) => Some(n),
            None => session_name(a),
        },
    decreases b.len(),
{
    if b.len() == 0 {
        assert(a + b =~= a);
    } else {
        assert((a + b).drop_last() =~= a + b.drop_last());
        lemma_name_stays(a, b.drop_last());
    }
}

/// Whether a statement only adds an entry or writes metadata.
pub open spec fn only_adds(op: OpModel) -> bool {
    op is InsertEntry || op is UpsertMeta
}

proof fn lemma_added_to(db: Database, ops: Seq<OpModel>)
    requires
        forall|i: int| 0 <= i < ops.len() ==> only_adds(#[trigger] ops[i]),
        run(db, ops) is Some,
    ensures
        run(db, ops)->0.header == db.header,
        db.entries.submap_of(run(db, ops)->0.entries),
    decreases ops.len(),
{
    if ops.len() > 0 {
        let front = ops.drop_last();
        lemma_added_to(db, front);
        let mid = run(db, front)->0.entries;
        let after = run(db, ops)->0.entries;
        assert forall|n: int| db.entries.dom().contains(n) implies after.dom().contains(n)
            && after[n] == db.entries[n] by {
            assert(db.entries.dom().contains(n) ==> mid.dom().contains(n));
        }
    }
}

proof fn lemma_entries_keep_meta(db: Database, ops: Seq<OpModel>)
    requires
        forall|i: int| 0 <= i < ops.len() ==> (#[trigger] ops[i]) is InsertEntry,
        run(db, ops) is Some,
    ensures
        run(db, ops)->0.meta == db.meta,
    decreases ops.len(),
{
    if ops.len() > 0 {
        lemma_entries_keep_meta(db, ops.drop_last());
    }
}

/// Appending leaves the header and the entries that were there alone, whatever the database held,
/// and brings the metadata up to the totals that it is given. Where it is given no name, the name
/// stays what it was.
pub proof fn law_append_keeps_what_was_there(
    db: Database,
    jsons: Seq<Seq<char>>,
    start_seq: int,
    count: nat,
    name: Option<Seq<char>>,
)
    requires
        run(db, append_ops(jsons, start_seq, count, name)) is Some,
    ensures
        ({
            let after = run(db, append_ops(jsons, start_seq, count, name))->0;
            &&& after.header == db.header
            &&& db.entries.submap_of(after.entries)
            &&& after.meta.dom().contains("message_count"@)
            &&& after.meta["message_count"@] == decimal::numeral(count)
            &&& name is Some ==> after.meta.dom().contains("name"@) && after.meta["name"@]
                == name->0
            &&& name is None ==> {
                &&& after.meta.dom().contains("name"@) == db.meta.dom().contains("name"@)
                &&& db.meta.dom().contains("name"@) ==> after.meta["name"@] == db.meta["name"@]
            }
        }),
{
    let ops = append_ops(jsons, start_seq, count, name);
    let a = entry_ops(jsons, start_seq);
    let c = meta_ops(count, name, true);
    lemma_meta_keys();
    lemma_added_to(db, ops);
    lemma_run_concat(db, a, c);
    lemma_entries_keep_meta(db, a);
    let mid = run(db, a)->0;
    assert(run(mid, c)->0.meta == match name {
        Some(n) => mid.meta.insert("message_count"@, decimal::numeral(count)).insert("name"@, n),
        None => mid.meta.insert("message_count"@, decimal::numeral(count)),
    }) by {
        reveal_with_fuel(run, 3);
    }
}

/// The messages of two lists are counted together by counting each list.
pub proof fn law_message_counts_add_up(a: Seq<SessionEntry>, b: Seq<SessionEntry>)
    ensures
        message_count(a + b) == message_count(a) + message_count(b),
    decreases b.len(),
{
    if b.len() == 0 {
        assert(a + b =~= a);
    } else {
        assert((a + b).drop_last() =~= a + b.drop_last());
        law_message_counts_add_up(a, b.drop_last());
    }
}

/// The latest name that is given to a session is its name, and an entry that gives none changes
/// nothing.
pub proof fn law_latest_name_wins(a: Seq<SessionEntry>, b: Seq<SessionEntry>)
    ensures
        session_name(a + b) == match session_name(b) {
            Some(n) => Some(n),
            None => session_name(a),
        },
{
    lemma_name_stays(a, b);
}

/// Whether `keys` lists the sequence numbers of a table in ascending order.
pub open spec fn ascending_keys(entries: Map<int, Seq<char>>, keys: Seq<int>) -> bool {
    &&& forall|i: int| 0 <= i < keys.len() ==> entries.dom().contains(#[trigger] keys[i])
    &&& forall|i: int, j: int| 0 <= i < j < keys.len() ==> #[trigger] keys[i] < #[trigger] keys[j]
    &&& forall|n: int| #[trigger] entries.dom().contains(n) ==> keys.contains(n)
}

/// Whether `rows` is what a table holds, by ascending sequence number.
pub open spec fn rows_in_order(entries: Map<int, Seq<char>>, rows: Seq<Seq<char>>) -> bool {
    exists|keys: Seq<int>| #[trigger]
        ascending_keys(entries, keys) && rows == Seq::new(keys.len(), |i: int| entries[keys[i]])
}

/// A table of entries numbered from 1 on, read in order, gives the entries.
proof fn lemma_rows_of_numbered(jsons: Seq<Seq<char>>, rows: Seq<Seq<char>>)
    ensures
        rows_in_order(numbered(jsons, 1), rows) <==> rows == jsons,
{
    let entries = numbered(jsons, 1);
    if rows_in_order(entries, rows) {
        let keys = choose|keys: Seq<int>| #[trigger]
            ascending_keys(entries, keys) && rows == Seq::new(
                keys.len(),
                |i: int| entries[keys[i]],
            );
        lemma_keys_count_up(jsons, keys, keys.len() as int);
        assert(keys.len() == jsons.len()) by {
            if keys.len() < jsons.len() {
                let n = keys.len() as int + 1;
                assert(entries.dom().contains(n));
            }
            if keys.len() > jsons.len() {
                assert(entries.dom().contains(keys[jsons.len() as int]));
            }
        }
        assert(rows =~= jsons);
    }
    let keys = Seq::new(jsons.len(), |i: int| i + 1);
    assert(ascending_keys(entries, keys)) by {
        assert forall|n: int| #[trigger] entries.dom().contains(n) implies keys.contains(n) by {
            assert(keys[n - 1] == n);
        }
    }
    assert(jsons =~= Seq::new(keys.len(), |i: int| entries[keys[i]]));
}

/// Reading the entries of a saved session in order gives back what was saved.
pub proof fn law_load_reads_what_was_saved(
    id: Seq<char>,
    header: Seq<char>,
    jsons: Seq<Seq<char>>,
    count: nat,
    name: Option<Seq<char>>,
    rows: Seq<Seq<char>>,
)
    ensures
        rows_in_order(saved(id, header, jsons, count, name).entries, rows) <==> rows == jsons,
        saved(id, header, jsons, count, name).header[id] == header,
{
    lemma_rows_of_numbered(jsons, rows);
}

/// Appending behind the last entry of a saved session always succeeds, whatever totals it is given.
/// Reading the entries in order then gives the old ones followed by the new ones, and the header
/// is unchanged.
pub proof fn law_load_reads_what_was_appended(
    id: Seq<char>,
    header: Seq<char>,
    old_jsons: Seq<Seq<char>>,
    old_count: nat,
    old_name: Option<Seq<char>>,
    new_jsons: Seq<Seq<char>>,
    count: nat,
    name: Option<Seq<char>>,
    rows: Seq<Seq<char>>,
)
    requires
        old_jsons.len() + new_jsons.len() <= i64::MAX,
    ensures
        ({
            let db = saved(id, header, old_jsons, old_count, old_name);
            let after = run(db, append_ops(new_jsons, old_jsons.len() as int + 1, count, name));
            &&& after is Some
            &&& after->0.header == db.header
            &&& after->0.header[id] == header
            &&& rows_in_order(after->0.entries, rows) <==> rows == old_jsons + new_jsons
        }),
{
    let db = saved(id, header, old_jsons, old_count, old_name);
    let first = old_jsons.len() as int + 1;
    let a = entry_ops(new_jsons, first);
    let c = meta_ops(count, name, true);
    lemma_run_entries(db, new_jsons, first);
    let filled = Database { entries: numbered(old_jsons + new_jsons, 1), ..db };
    assert(db.entries.union_prefer_right(numbered(new_jsons, first)) =~= numbered(
        old_jsons + new_jsons,
        1,
    ));
    lemma_run_concat(db, a, c);
    assert(run(filled, c) is Some && run(filled, c)->0.entries == filled.entries && run(
        filled,
        c,
    )->0.header == filled.header) by {
        reveal_with_fuel(run, 3);
    }
    lemma_rows_of_numbered(old_jsons + new_jsons, rows);
}

proof fn lemma_keys_count_up(jsons: Seq<Seq<char>>, keys: Seq<int>, k: int)
    requires
        ascending_keys(numbered(jsons, 1), keys),
        0 <= k <= keys.len(),
    ensures
        forall|i: int| 0 <= i < k ==> #[trigger] keys[i] == i + 1,
    decreases k,
{
    if k > 0 {
        let entries = numbered(jsons, 1);
        let i = k - 1;
        lemma_keys_count_up(jsons, keys, i);
        if i > 0 {
            assert(keys[i - 1] < keys[i]);
        }
        if keys[i] > i + 1 {
            assert(entries.dom().contains(i + 1));
            let j = choose|j: int| 0 <= j < keys.len() && keys[j] == i + 1;
        }
    }
}

/// Whether `rows` is what a table of metadata holds, in any order.
pub open spec fn rows_of(
    meta: Map<Seq<char>, Seq<char>>,
    rows: Seq<(Seq<char>, Seq<char>)>,
) -> bool {
    &&& forall|i: int|
        0 <= i < rows.len() ==> {
            &&& meta.dom().contains((#[trigger] rows[i]).0)
            &&& meta[rows[i].0] == rows[i].1
        }
    &&& forall|key: Seq<char>| #[trigger]
        meta.dom().contains(key) ==> exists|i: int| 0 <= i < rows.len() && (#[trigger] rows[i]).0
            == key
}

proof fn lemma_stored_count(rows: Seq<(Seq<char>, Seq<char>)>, value: Seq<char>)
    requires
        forall|i: int|
            0 <= i < rows.len() && (#[trigger] rows[i]).0 == "message_count"@ ==> rows[i].1
                == value,
        exists|i: int| 0 <= i < rows.len() && (#[trigger] rows[i]).0 == "message_count"@,
    ensures
        stored_count(rows) == decimal::parsed(value, u64::MAX as nat),
    decreases rows.len(),
{
    if rows.last().0 != "message_count"@ {
        let i = choose|i: int| 0 <= i < rows.len() && (#[trigger] rows[i]).0 == "message_count"@;
        assert(rows.drop_last()[i] == rows[i]);
        lemma_stored_count(rows.drop_last(), value);
    }
}

proof fn lemma_stored_name(rows: Seq<(Seq<char>, Seq<char>)>, name: Option<Seq<char>>)
    requires
        forall|i: int|
            0 <= i < rows.len() && (#[trigger] rows[i]).0 == "name"@ ==> name == Some(rows[i].1),
        name is Some ==> exists|i: int|
            0 <= i < rows.len() && (#[trigger] rows[i]).0 == "name"@,
    ensures
        stored_name(rows) == name,
    decreases rows.len(),
{
    if rows.len() > 0 && rows.last().0 != "name"@ {
        let front = rows.drop_last();
        if name is Some {
            let i = choose|i: int| 0 <= i < rows.len() && (#[trigger] rows[i]).0 == "name"@;
            assert(front[i] == rows[i]);
        }
        lemma_stored_name(front, name);
    }
}

/// Reading the metadata of a saved session gives back the number of messages and the name that
/// were saved.
pub proof fn law_meta_reads_what_was_saved(
    count: nat,
    name: Option<Seq<char>>,
    rows: Seq<(Seq<char>, Seq<char>)>,
)
    requires
        count <= u64::MAX,
        rows_of(saved_meta(count, name), rows),
    ensures
        stored_count(rows) == Some(count),
        stored_name(rows) == name,
{
    let meta = saved_meta(count, name);
    lemma_meta_keys();
    decimal::law_parse_reads_what_was_written(count, u64::MAX as nat);
    assert(meta.dom().contains("message_count"@));
    lemma_stored_count(rows, decimal::numeral(count));
    assert(name is Some ==> meta.dom().contains("name"@));
    lemma_stored_name(rows, name);
}

/// Every message counts as one, whoever wrote it and whatever it holds, and no other entry counts.
pub proof fn law_every_message_counts(before: Seq<SessionEntry>, entry: SessionEntry)
    ensures
        message_count(Seq::empty()) == 0,
        entry matches SessionEntry::Message(_) ==> message_count(before.push(entry))
            == message_count(before) + 1,
        !(entry matches SessionEntry::Message(_)) ==> message_count(before.push(entry))
            == message_count(before),
        entry matches SessionEntry::Message(_) ==> message_count(seq![entry]) == 1,
        !(entry matches SessionEntry::Message(_)) ==> message_count(seq![entry]) == 0,
{
    assert(before.push(entry).drop_last() =~= before);
    assert(seq![entry].drop_last() =~= Seq::<SessionEntry>::empty());
    assert(seq![entry].last() == entry);
    assert(message_count(Seq::empty()) == 0);
}

/// The number of messages is the number of places at which a message stands.
pub proof fn law_messages_are_counted_by_place(entries: Seq<SessionEntry>)
    ensures
        message_count(entries) == Set::new(
            |i: int| 0 <= i < entries.len() && entries[i] is Message,
        ).len(),
        Set::new(|i: int| 0 <= i < entries.len() && entries[i] is Message).finite(),
        message_count(entries) <= entries.len(),
    decreases entries.len(),
{
    let places = Set::new(|i: int| 0 <= i < entries.len() && entries[i] is Message);
    if entries.len() == 0 {
        assert(places =~= Set::empty());
    } else {
        let front = entries.drop_last();
        let n = entries.len() - 1;
        let before = Set::new(|i: int| 0 <= i < front.len() && front[i] is Message);
        law_messages_are_counted_by_place(front);
        if entries[n] is Message {
            assert(places =~= before.insert(n));
        } else {
            assert(places =~= before);
        }
    }
}

/// Only what is said of the session as a whole can name it, and only where it holds a name. That
/// name then is the session's, and any other entry leaves the name as it was.
pub proof fn law_session_info_names_the_session(before: Seq<SessionEntry>, entry: SessionEntry)
    ensures
        session_name(Seq::empty()) is None,
        (entry matches SessionEntry::SessionInfo(info) && info.name is Some) ==> (
        entry matches SessionEntry::SessionInfo(info) && session_name(before.push(entry)) == Some(
            info.name->0@,
        )),
        !(entry matches SessionEntry::SessionInfo(info) && info.name is Some) ==> session_name(
            before.push(entry),
        ) == session_name(before),
{
    assert(before.push(entry).drop_last() =~= before);
}

/// The database that a save leaves: one header under its id, the entries numbered from 1 on in
/// their order, the number of messages as a numeral, the name where there is one, and no row else.
pub proof fn law_save_writes_header_entries_and_meta(
    db: Database,
    id: Seq<char>,
    header: Seq<char>,
    jsons: Seq<Seq<char>>,
    count: nat,
    name: Option<Seq<char>>,
)
    requires
        jsons.len() <= i64::MAX,
    ensures
        ({
            let after = run(db, save_ops(id, header, jsons, count, name))->0;
            &&& run(db, save_ops(id, header, jsons, count, name)) is Some
            &&& forall|k: Seq<char>| #[trigger] after.header.dom().contains(k) <==> k == id
            &&& after.header[id] == header
            &&& forall|n: int| #[trigger]
                after.entries.dom().contains(n) <==> 1 <= n <= jsons.len()
            &&& forall|i: int| 0 <= i < jsons.len() ==> after.entries[i + 1] == #[trigger] jsons[i]
            &&& forall|k: Seq<char>| #[trigger]
                after.meta.dom().contains(k) <==> k == "message_count"@ || k == "name"@ && name
                    is Some
            &&& after.meta["message_count"@] == decimal::numeral(count)
            &&& name is Some ==> after.meta["name"@] == name->0
        }),
{
    law_save_replaces_everything(db, id, header, jsons, count, name);
    lemma_meta_keys();
}

/// Appending adds each new entry under its number, counted up from the first, and no other row. It
/// succeeds exactly where none of these numbers is taken.
pub proof fn law_append_numbers_the_new_entries(
    db: Database,
    jsons: Seq<Seq<char>>,
    start_seq: int,
    count: nat,
    name: Option<Seq<char>>,
)
    requires
        start_seq + jsons.len() <= i64::MAX + 1,
    ensures
        run(db, append_ops(jsons, start_seq, count, name)) is Some <==> forall|n: int|
            start_seq <= n < start_seq + jsons.len() ==> !#[trigger] db.entries.dom().contains(n),
        run(db, append_ops(jsons, start_seq, count, name)) matches Some(after) ==> (forall|i: int|
            0 <= i < jsons.len() ==> after.entries.dom().contains(start_seq + i)
                && after.entries[start_seq + i] == #[trigger] jsons[i]) && forall|n: int| #[trigger]
            after.entries.dom().contains(n) <==> db.entries.dom().contains(n) || start_seq <= n
                < start_seq + jsons.len(),
{
    let a = entry_ops(jsons, start_seq);
    let c = meta_ops(count, name, true);
    lemma_run_concat(db, a, c);
    if forall|n: int|
        start_seq <= n < start_seq + jsons.len() ==> !#[trigger] db.entries.dom().contains(n) {
        lemma_run_entries(db, jsons, start_seq);
        let mid = run(db, a)->0;
        assert(run(mid, c) is Some && run(mid, c)->0.entries == mid.entries) by {
            reveal_with_fuel(run, 3);
        }
        assert forall|i: int| 0 <= i < jsons.len() implies mid.entries.dom().contains(start_seq + i)
            && mid.entries[start_seq + i] == #[trigger] jsons[i] by {
            assert(numbered(jsons, start_seq).dom().contains(start_seq + i));
        }
    } else {
        let n = choose|n: int|
            start_seq <= n < start_seq + jsons.len() && #[trigger] db.entries.dom().contains(n);
        lemma_taken_number(db, jsons, start_seq, n);
    }
}

proof fn lemma_taken_number(db: Database, jsons: Seq<Seq<char>>, first: int, n: int)
    requires
        first + jsons.len() <= i64::MAX + 1,
        first <= n < first + jsons.len(),
        db.entries.dom().contains(n),
    ensures
        run(db, entry_ops(jsons, first)) is None,
    decreases jsons.len(),
{
    let ops = entry_ops(jsons, first);
    let front = jsons.drop_last();
    assert(ops.drop_last() =~= entry_ops(front, first));
    if n < first + front.len() {
        lemma_taken_number(db, front, first, n);
    } else if run(db, ops.drop_last()) is Some {
        assert forall|i: int| 0 <= i < ops.drop_last().len() implies only_adds(
            #[trigger] ops.drop_last()[i],
        ) by {}
        lemma_added_to(db, ops.drop_last());
    }
}

/// The statements that insert entries number them in turn. A number that the database cannot hold
/// is kept as the greatest that it can.
pub proof fn law_entries_are_numbered_in_turn(jsons: Seq<Seq<char>>, first: int, i: int)
    requires
        0 <= i < jsons.len(),
    ensures
        entry_ops(jsons, first).len() == jsons.len(),
        first + i <= 0x7fff_ffff_ffff_ffff ==> entry_ops(jsons, first)[i] == OpModel::InsertEntry(
            first + i,
            jsons[i],
        ),
        first + i > 0x7fff_ffff_ffff_ffff ==> entry_ops(jsons, first)[i] == OpModel::InsertEntry(
            0x7fff_ffff_ffff_ffff,
            jsons[i],
        ),
{
}

/// The last row for a piece of metadata decides what is read of it, and other rows do not matter. A
/// number of messages that is no number is as good as none.
pub proof fn law_last_row_decides(
    rows: Seq<(Seq<char>, Seq<char>)>,
    key: Seq<char>,
    value: Seq<char>,
)
    ensures
        stored_count(Seq::empty()) is None,
        stored_name(Seq::empty()) is None,
        stored_count(rows.push(("message_count"@, value))) == decimal::parsed(
            value,
            0xffff_ffff_ffff_ffff,
        ),
        stored_name(rows.push(("name"@, value))) == Some(value),
        key != "message_count"@ ==> stored_count(rows.push((key, value))) == stored_count(rows),
        key != "name"@ ==> stored_name(rows.push((key, value))) == stored_name(rows),
{
    assert(rows.push((key, value)).drop_last() =~= rows);
}

/// A statement is what it says, with the values that it holds.
pub proof fn law_statements_hold_their_values(id: String, json: String, seq: i64)
    ensures
        SessionOp::DeleteEntries@ == OpModel::DeleteEntries,
        SessionOp::DeleteHeader@ == OpModel::DeleteHeader,
        SessionOp::DeleteMeta@ == OpModel::DeleteMeta,
        (SessionOp::InsertHeader { id, json })@ == OpModel::InsertHeader(id@, json@),
        (SessionOp::InsertEntry { seq, json })@ == OpModel::InsertEntry(seq as int, json@),
        (SessionOp::InsertMeta { key: id, value: json })@ == OpModel::InsertMeta(id@, json@),
        (SessionOp::UpsertMeta { key: id, value: json })@ == OpModel::UpsertMeta(id@, json@),
{
}

/// The SQL of each statement, whatever its values.
pub proof fn law_statements_have_fixed_sql(a: Seq<char>, b: Seq<char>, n: int)
    ensures
        op_sql(OpModel::DeleteEntries) == "DELETE FROM pi_session_entries"@,
        op_sql(OpModel::DeleteHeader) == "DELETE FROM pi_session_header"@,
        op_sql(OpModel::DeleteMeta) == "DELETE FROM pi_session_meta"@,
        op_sql(OpModel::InsertHeader(a, b))
            == "INSERT INTO pi_session_header (id,json) VALUES (?1,?2)"@,
        op_sql(OpModel::InsertEntry(n, b))
            == "INSERT INTO pi_session_entries (seq,json) VALUES (?1,?2)"@,
        op_sql(OpModel::InsertMeta(a, b))
            == "INSERT INTO pi_session_meta (key,value) VALUES (?1,?2)"@,
        op_sql(OpModel::UpsertMeta(a, b))
            == "INSERT OR REPLACE INTO pi_session_meta (key,value) VALUES (?1,?2)"@,
{
}

/// A statement that fails is named in the error: what it was to do, and with which piece of
/// metadata.
pub proof fn law_failures_name_their_statement(a: Seq<char>, b: Seq<char>, n: int)
    ensures
        op_failure(OpModel::DeleteEntries) == "Failed to delete entries"@,
        op_failure(OpModel::DeleteHeader) == "Failed to delete header"@,
        op_failure(OpModel::DeleteMeta) == "Failed to delete meta"@,
        op_failure(OpModel::InsertHeader(a, b)) == "Failed to insert header"@,
        op_failure(OpModel::InsertEntry(n, b)) == "Failed to insert entry"@,
        op_failure(OpModel::InsertMeta(a, b)) == "Failed to insert "@ + a,
        op_failure(OpModel::UpsertMeta(a, b)) == "Failed to upsert "@ + a,
{
}

/// The tables are made where they are missing, and what is there is kept. What is read is what was
/// written into them, the entries in the order of their numbers.
pub proof fn law_tables_are_read_as_they_are_made()
    ensures
        INIT_SQL@ == r"
PRAGMA journal_mode = WAL;
PRAGMA synchronous = NORMAL;
PRAGMA foreign_keys = ON;

CREATE TABLE IF NOT EXISTS pi_session_header (
  id TEXT PRIMARY KEY,
  json TEXT NOT NULL
);

CREATE TABLE IF NOT EXISTS pi_session_entries (
  seq INTEGER PRIMARY KEY,
  json TEXT NOT NULL
);

CREATE TABLE IF NOT EXISTS pi_session_meta (
  key TEXT PRIMARY KEY,
  value TEXT NOT NULL
);
"@,
        WAL_SQL@ == "PRAGMA journal_mode = WAL"@,
        SELECT_HEADER_SQL@ == "SELECT json FROM pi_session_header LIMIT 1"@,
        SELECT_ENTRIES_SQL@ == "SELECT json FROM pi_session_entries ORDER BY seq ASC"@,
        SELECT_META_SQL@
            == "SELECT key,value FROM pi_session_meta WHERE key IN ('message_count','name')"@,
{
}

/// A deletion empties its table. An insertion adds its row where the key is free, and fails where
/// it is taken. An insertion that may replace never fails. No statement touches another table.
pub proof fn law_statements_touch_one_table(
    db: Database,
    key: Seq<char>,
    value: Seq<char>,
    n: int,
)
    ensures
        applied(db, OpModel::DeleteEntries) == Some(
            Database { header: db.header, entries: Map::empty(), meta: db.meta },
        ),
        applied(db, OpModel::DeleteHeader) == Some(
            Database { header: Map::empty(), entries: db.entries, meta: db.meta },
        ),
        applied(db, OpModel::DeleteMeta) == Some(
            Database { header: db.header, entries: db.entries, meta: Map::empty() },
        ),
        applied(db, OpModel::InsertEntry(n, value)) is Some <==> !db.entries.dom().contains(n),
        applied(db, OpModel::InsertHeader(key, value)) is Some <==> !db.header.dom().contains(key),
        applied(db, OpModel::InsertMeta(key, value)) is Some <==> !db.meta.dom().contains(key),
        applied(db, OpModel::UpsertMeta(key, value)) == Some(
            Database {
                header: db.header,
                entries: db.entries,
                meta: db.meta.insert(key, value),
            },
        ),
        applied(db, OpModel::InsertEntry(n, value)) matches Some(after) ==> after.header
            == db.header && after.meta == db.meta && after.entries == db.entries.insert(n, value),
        applied(db, OpModel::InsertHeader(key, value)) matches Some(after) ==> after.entries
            == db.entries && after.meta == db.meta && after.header == db.header.insert(key, value),
        applied(db, OpModel::InsertMeta(key, value)) matches Some(after) ==> after.entries
            == db.entries && after.header == db.header && after.meta == db.meta.insert(key, value),
{
}

/// What a list of statements says is what they say, one by one, and a number that is there is not
/// changed.
pub proof fn law_lists_of_statements_say_what_they_hold(ops: Seq<SessionOp>, i: int, n: u64)
    ensures
        op_views(ops).len() == ops.len(),
        0 <= i < ops.len() ==> op_views(ops)[i] == ops[i]@,
        opt_nat(Some(n)) == Some(n as nat),
        opt_nat(None) is None,
{
}

/// A save deletes what is there before it inserts the header, the entries and the metadata, in this
/// order. An append inserts the entries and then the metadata, and deletes nothing.
pub proof fn law_statements_come_in_order(
    id: Seq<char>,
    header: Seq<char>,
    jsons: Seq<Seq<char>>,
    start_seq: int,
    count: nat,
    name: Option<Seq<char>>,
)
    ensures
        ({
            let ops = save_ops(id, header, jsons, count, name);
            let k = 4 + jsons.len() as int;
            &&& ops[0] == OpModel::DeleteEntries
            &&& ops[1] == OpModel::DeleteHeader
            &&& ops[2] == OpModel::DeleteMeta
            &&& ops[3] == OpModel::InsertHeader(id, header)
            &&& ops.subrange(4, k) == entry_ops(jsons, 1)
            &&& ops[k] == OpModel::InsertMeta("message_count"@, decimal::numeral(count))
            &&& name is Some ==> ops.len() == k + 2 && ops[k + 1] == OpModel::InsertMeta(
                "name"@,
                name->0,
            )
            &&& name is None ==> ops.len() == k + 1
        }),
        ({
            let ops = append_ops(jsons, start_seq, count, name);
            let k = jsons.len() as int;
            &&& ops.take(k) == entry_ops(jsons, start_seq)
            &&& ops[k] == OpModel::UpsertMeta("message_count"@, decimal::numeral(count))
            &&& name is Some ==> ops.len() == k + 2 && ops[k + 1] == OpModel::UpsertMeta(
                "name"@,
                name->0,
            )
            &&& name is None ==> ops.len() == k + 1
        }),
{
    let ops = save_ops(id, header, jsons, count, name);
    let k = 4 + jsons.len() as int;
    assert(ops.subrange(4, k) =~= entry_ops(jsons, 1));
    let more = append_ops(jsons, start_seq, count, name);
    assert(more.take(jsons.len() as int) =~= entry_ops(jsons, start_seq));
}

} // verus!
