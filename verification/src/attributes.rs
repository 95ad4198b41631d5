//! The attribute values that the MongoDB metrics carry.
use vstd::prelude::*;
use crate::version::Version;

verus! {

/// The kind of connection that a connection count counts.
#[derive(Debug, Copy, Clone, Hash, PartialEq, Eq, PartialOrd, Ord)]
pub enum ConnectionType {
    Active,
    Available,
    Current,
}

impl ConnectionType {
    /// Every value, in declaration order.
    pub fn iter() -> (r: Vec<ConnectionType>)
        ensures
            r@ == seq![ConnectionType::Active, ConnectionType::Available, ConnectionType::Current],
    {
        let mut r: Vec<ConnectionType> = Vec::new();
        r.push(ConnectionType::Active);
        r.push(ConnectionType::Available);
        r.push(ConnectionType::Current);
        assert(r@ =~= seq![ConnectionType::Active, ConnectionType::Available, ConnectionType::Current]);
        r
    }

    /// The name of the value as it appears on a metric.
    pub open spec fn spec_name(self) -> Seq<char> {
        match self {
            ConnectionType::Active => "active"@,
            ConnectionType::Available => "available"@,
            ConnectionType::Current => "current"@,
        }
    }

    /// The name of the value as it appears on a metric.
    pub fn as_str(&self) -> (r: &'static str)
        ensures
            r@ == self.spec_name(),
    {
        match self {
            ConnectionType::Active => "active",
            ConnectionType::Available => "available",
            ConnectionType::Current => "current",
        }
    }
}

/// The mode in which a lock is held.
#[derive(Debug, Copy, Clone, Hash, PartialEq, Eq, PartialOrd, Ord)]
pub enum LockMode {
    Shared,
    Exclusive,
    IntentShared,
    IntentExclusive,
}

impl LockMode {
    /// Every value, in declaration order.
    pub fn iter() -> (r: Vec<LockMode>)
        ensures
            r@ == seq![LockMode::Shared, LockMode::Exclusive, LockMode::IntentShared, LockMode::IntentExclusive],
    {
        let mut r: Vec<LockMode> = Vec::new();
        r.push(LockMode::Shared);
        r.push(LockMode::Exclusive);
        r.push(LockMode::IntentShared);
        r.push(LockMode::IntentExclusive);
        assert(r@ =~= seq![LockMode::Shared, LockMode::Exclusive, LockMode::IntentShared, LockMode::IntentExclusive]);
        r
    }

    /// The name of the value as it appears on a metric.
    pub open spec fn spec_name(self) -> Seq<char> {
        match self {
            LockMode::Shared => "shared"@,
            LockMode::Exclusive => "exclusive"@,
            LockMode::IntentShared => "intent_shared"@,
            LockMode::IntentExclusive => "intent_exclusive"@,
        }
    }

    /// The name of the value as it appears on a metric.
    pub fn as_str(&self) -> (r: &'static str)
        ensures
            r@ == self.spec_name(),
    {
        match self {
            LockMode::Shared => "shared",
            LockMode::Exclusive => "exclusive",
            LockMode::IntentShared => "intent_shared",
            LockMode::IntentExclusive => "intent_exclusive",
        }
    }

    /// The key under which MongoDB reports the value.
    pub open spec fn spec_mongodb_key(self) -> Seq<char> {
        match self {
            LockMode::Shared => "R"@,
            LockMode::Exclusive => "W"@,
            LockMode::IntentShared => "r"@,
            LockMode::IntentExclusive => "w"@,
        }
    }

    /// The key under which MongoDB reports the value.
    pub fn to_mongodb_key(self) -> (r: &'static str)
        ensures
            r@ == self.spec_mongodb_key(),
    {
        match self {
            LockMode::Shared => "R",
            LockMode::Exclusive => "W",
            LockMode::IntentShared => "r",
            LockMode::IntentExclusive => "w",
        }
    }
}

/// The resource that a lock protects.
#[derive(Debug, Copy, Clone, Hash, PartialEq, Eq, PartialOrd, Ord)]
pub enum LockType {
    ParallelBatchWriteMode,
    ReplicationStateTransition,
    Global,
    Database,
    Collection,
    Mutex,
    Metadata,
    Oplog,
}

impl LockType {
    /// Every value, in declaration order.
    pub fn iter() -> (r: Vec<LockType>)
        ensures
            r@ == seq![LockType::ParallelBatchWriteMode, LockType::ReplicationStateTransition, LockType::Global, LockType::Database, LockType::Collection, LockType::Mutex, LockType::Metadata, LockType::Oplog],
    {
        let mut r: Vec<LockType> = Vec::new();
        r.push(LockType::ParallelBatchWriteMode);
        r.push(LockType::ReplicationStateTransition);
        r.push(LockType::Global);
        r.push(LockType::Database);
        r.push(LockType::Collection);
        r.push(LockType::Mutex);
        r.push(LockType::Metadata);
        r.push(LockType::Oplog);
        assert(r@ =~= seq![LockType::ParallelBatchWriteMode, LockType::ReplicationStateTransition, LockType::Global, LockType::Database, LockType::Collection, LockType::Mutex, LockType::Metadata, LockType::Oplog]);
        r
    }

    /// The name of the value as it appears on a metric.
    pub open spec fn spec_name(self) -> Seq<char> {
        match self {
            LockType::ParallelBatchWriteMode => "parallel_batch_write_mode"@,
            LockType::ReplicationStateTransition => "replication_state_transition"@,
            LockType::Global => "global"@,
            LockType::Database => "database"@,
            LockType::Collection => "collection"@,
            LockType::Mutex => "mutex"@,
            LockType::Metadata => "metadata"@,
            LockType::Oplog => "oplog"@,
        }
    }

    /// The name of the value as it appears on a metric.
    pub fn as_str(&self) -> (r: &'static str)
        ensures
            r@ == self.spec_name(),
    {
        match self {
            LockType::ParallelBatchWriteMode => "parallel_batch_write_mode",
            LockType::ReplicationStateTransition => "replication_state_transition",
            LockType::Global => "global",
            LockType::Database => "database",
            LockType::Collection => "collection",
            LockType::Mutex => "mutex",
            LockType::Metadata => "metadata",
            LockType::Oplog => "oplog",
        }
    }

    /// The key under which MongoDB reports the value.
    pub open spec fn spec_mongodb_key(self) -> Seq<char> {
        match self {
            LockType::ParallelBatchWriteMode => "ParallelBatchWriterMode"@,
            LockType::ReplicationStateTransition => "ReplicationStateTransition"@,
            LockType::Global => "Global"@,
            LockType::Database => "Database"@,
            LockType::Collection => "Collection"@,
            LockType::Mutex => "Mutex"@,
            LockType::Metadata => "Metadata"@,
            LockType::Oplog => "oplog"@,
        }
    }

    /// The key under which MongoDB reports the value.
    pub fn to_mongodb_key(self) -> (r: &'static str)
        ensures
            r@ == self.spec_mongodb_key(),
    {
        match self {
            LockType::ParallelBatchWriteMode => "ParallelBatchWriterMode",
            LockType::ReplicationStateTransition => "ReplicationStateTransition",
            LockType::Global => "Global",
            LockType::Database => "Database",
            LockType::Collection => "Collection",
            LockType::Mutex => "Mutex",
            LockType::Metadata => "Metadata",
            LockType::Oplog => "oplog",
        }
    }

    /// Whether the server reports this lock: the parallel batch writer mode and the
    /// replication state transition locks exist from version 4.2.0 on.
    pub fn supported(&self, version: &Version) -> (r: bool)
        ensures
            r == !((*self == LockType::ParallelBatchWriteMode || *self
                == LockType::ReplicationStateTransition) && version.below(4, 2, 0)),
    {
        match self {
            LockType::ParallelBatchWriteMode | LockType::ReplicationStateTransition => !version.is_below(4, 2, 0),
            _ => true,
        }
    }
}

/// The kind of memory that a memory usage measures.
#[derive(Debug, Copy, Clone, Hash, PartialEq, Eq, PartialOrd, Ord)]
pub enum MemoryType {
    Resident,
    Virtual,
}

impl MemoryType {
    /// Every value, in declaration order.
    pub fn iter() -> (r: Vec<MemoryType>)
        ensures
            r@ == seq![MemoryType::Resident, MemoryType::Virtual],
    {
        let mut r: Vec<MemoryType> = Vec::new();
        r.push(MemoryType::Resident);
        r.push(MemoryType::Virtual);
        assert(r@ =~= seq![MemoryType::Resident, MemoryType::Virtual]);
        r
    }

    /// The name of the value as it appears on a metric.
    pub open spec fn spec_name(self) -> Seq<char> {
        match self {
            MemoryType::Resident => "resident"@,
            MemoryType::Virtual => "virtual"@,
        }
    }

    /// The name of the value as it appears on a metric.
    pub fn as_str(&self) -> (r: &'static str)
        ensures
            r@ == self.spec_name(),
    {
        match self {
            MemoryType::Resident => "resident",
            MemoryType::Virtual => "virtual",
        }
    }

    /// The key under which MongoDB reports the value.
    pub open spec fn spec_mongodb_key(self) -> Seq<char> {
        match self {
            MemoryType::Resident => "resident"@,
            MemoryType::Virtual => "virtual"@,
        }
    }

    /// The key under which MongoDB reports the value.
    pub fn to_mongodb_key(self) -> (r: &'static str)
        ensures
            r@ == self.spec_mongodb_key(),
    {
        match self {
            MemoryType::Resident => "resident",
            MemoryType::Virtual => "virtual",
        }
    }
}

/// A kind of database operation.
#[derive(Debug, Copy, Clone, Hash, PartialEq, Eq, PartialOrd, Ord)]
pub enum Operation {
    Insert,
    Query,
    Update,
    Delete,
    Getmore,
    Command,
}

impl Operation {
    /// Every value, in declaration order.
    pub fn iter() -> (r: Vec<Operation>)
        ensures
            r@ == seq![Operation::Insert, Operation::Query, Operation::Update, Operation::Delete, Operation::Getmore, Operation::Command],
    {
        let mut r: Vec<Operation> = Vec::new();
        r.push(Operation::Insert);
        r.push(Operation::Query);
        r.push(Operation::Update);
        r.push(Operation::Delete);
        r.push(Operation::Getmore);
        r.push(Operation::Command);
        assert(r@ =~= seq![Operation::Insert, Operation::Query, Operation::Update, Operation::Delete, Operation::Getmore, Operation::Command]);
        r
    }

    /// The name of the value as it appears on a metric.
    pub open spec fn spec_name(self) -> Seq<char> {
        match self {
            Operation::Insert => "insert"@,
            Operation::Query => "query"@,
            Operation::Update => "update"@,
            Operation::Delete => "delete"@,
            Operation::Getmore => "getmore"@,
            Operation::Command => "command"@,
        }
    }

    /// The name of the value as it appears on a metric.
    pub fn as_str(&self) -> (r: &'static str)
        ensures
            r@ == self.spec_name(),
    {
        match self {
            Operation::Insert => "insert",
            Operation::Query => "query",
            Operation::Update => "update",
            Operation::Delete => "delete",
            Operation::Getmore => "getmore",
            Operation::Command => "command",
        }
    }

    /// The key under which MongoDB reports the value.
    pub open spec fn spec_mongodb_key(self) -> Seq<char> {
        match self {
            Operation::Insert => "insert"@,
            Operation::Query => "queries"@,
            Operation::Update => "update"@,
            Operation::Delete => "remove"@,
            Operation::Getmore => "getmore"@,
            Operation::Command => "commands"@,
        }
    }

    /// The key under which MongoDB reports the value.
    pub fn to_mongodb_key(self) -> (r: &'static str)
        ensures
            r@ == self.spec_mongodb_key(),
    {
        match self {
            Operation::Insert => "insert",
            Operation::Query => "queries",
            Operation::Update => "update",
            Operation::Delete => "remove",
            Operation::Getmore => "getmore",
            Operation::Command => "commands",
        }
    }
}

/// A kind of operation whose latency is measured.
#[derive(Debug, Copy, Clone, Hash, PartialEq, Eq, PartialOrd, Ord)]
pub enum OperationLatency {
    Read,
    Write,
    Command,
}

impl OperationLatency {
    /// Every value, in declaration order.
    pub fn iter() -> (r: Vec<OperationLatency>)
        ensures
            r@ == seq![OperationLatency::Read, OperationLatency::Write, OperationLatency::Command],
    {
        let mut r: Vec<OperationLatency> = Vec::new();
        r.push(OperationLatency::Read);
        r.push(OperationLatency::Write);
        r.push(OperationLatency::Command);
        assert(r@ =~= seq![OperationLatency::Read, OperationLatency::Write, OperationLatency::Command]);
        r
    }

    /// The name of the value as it appears on a metric.
    pub open spec fn spec_name(self) -> Seq<char> {
        match self {
            OperationLatency::Read => "read"@,
            OperationLatency::Write => "write"@,
            OperationLatency::Command => "command"@,
        }
    }

    /// The name of the value as it appears on a metric.
    pub fn as_str(&self) -> (r: &'static str)
        ensures
            r@ == self.spec_name(),
    {
        match self {
            OperationLatency::Read => "read",
            OperationLatency::Write => "write",
            OperationLatency::Command => "command",
        }
    }

    /// The key under which MongoDB reports the value.
    pub open spec fn spec_mongodb_key(self) -> Seq<char> {
        match self {
            OperationLatency::Read => "reads"@,
            OperationLatency::Write => "writes"@,
            OperationLatency::Command => "commands"@,
        }
    }

    /// The key under which MongoDB reports the value.
    pub fn to_mongodb_key(self) -> (r: &'static str)
        ensures
            r@ == self.spec_mongodb_key(),
    {
        match self {
            OperationLatency::Read => "reads",
            OperationLatency::Write => "writes",
            OperationLatency::Command => "commands",
        }
    }
}

/// Whether a cache lookup found its page.
#[derive(Debug, Copy, Clone, Hash, PartialEq, Eq, PartialOrd, Ord)]
pub enum CacheStatus {
    Hit,
    Miss,
}

impl CacheStatus {
    /// Every value, in declaration order.
    pub fn iter() -> (r: Vec<CacheStatus>)
        ensures
            r@ == seq![CacheStatus::Hit, CacheStatus::Miss],
    {
        let mut r: Vec<CacheStatus> = Vec::new();
        r.push(CacheStatus::Hit);
        r.push(CacheStatus::Miss);
        assert(r@ =~= seq![CacheStatus::Hit, CacheStatus::Miss]);
        r
    }

    /// The name of the value as it appears on a metric.
    pub open spec fn spec_name(self) -> Seq<char> {
        match self {
            CacheStatus::Hit => "hit"@,
            CacheStatus::Miss => "miss"@,
        }
    }

    /// The name of the value as it appears on a metric.
    pub fn as_str(&self) -> (r: &'static str)
        ensures
            r@ == self.spec_name(),
    {
        match self {
            CacheStatus::Hit => "hit",
            CacheStatus::Miss => "miss",
        }
    }
}

/// The letter in upper case, for a lower-case ASCII letter; any other character stays.
pub open spec fn ascii_upper(c: char) -> char {
    if 'a' <= c && c <= 'z' {
        ((c as u32) - 32) as char
    } else {
        c
    }
}

/// A word with its first letter in upper case.
pub open spec fn capitalized(w: Seq<char>) -> Seq<char> {
    if w.len() == 0 {
        w
    } else {
        seq![ascii_upper(w[0])] + w.drop_first()
    }
}

/// The keys under which MongoDB's `serverStatus` reports each lock type, against the names
/// the metrics carry: a lock named by one word is reported under that word with its first
/// letter in upper case (`Global`, `Database`, `Collection`, `Mutex`, `Metadata`), except
/// the oplog's, under `oplog` itself; the two locks of several words are reported under
/// `ParallelBatchWriterMode` and `ReplicationStateTransition`. No two lock types share a
/// key.
pub proof fn lock_type_keys_are_server_status_keys(t: LockType, u: LockType)
    ensures
        (t == LockType::Global || t == LockType::Database || t == LockType::Collection || t == LockType::Mutex
            || t == LockType::Metadata) ==> t.spec_mongodb_key() == capitalized(t.spec_name()),
        t == LockType::Oplog ==> t.spec_mongodb_key() == t.spec_name(),
        t == LockType::ParallelBatchWriteMode ==> t.spec_mongodb_key() == "ParallelBatchWriterMode"@,
        t == LockType::ReplicationStateTransition ==> t.spec_mongodb_key() == "ReplicationStateTransition"@,
        t != u ==> t.spec_mongodb_key() != u.spec_mongodb_key(),
{
    reveal_strlit("global");
    reveal_strlit("Global");
    reveal_strlit("database");
    reveal_strlit("Database");
    reveal_strlit("collection");
    reveal_strlit("Collection");
    reveal_strlit("mutex");
    reveal_strlit("Mutex");
    reveal_strlit("metadata");
    reveal_strlit("Metadata");
    reveal_strlit("oplog");
    reveal_strlit("ParallelBatchWriterMode");
    reveal_strlit("ReplicationStateTransition");
    assert(capitalized("global"@) =~= "Global"@);
    assert(capitalized("database"@) =~= "Database"@);
    assert(capitalized("collection"@) =~= "Collection"@);
    assert(capitalized("mutex"@) =~= "Mutex"@);
    assert(capitalized("metadata"@) =~= "Metadata"@);
    if t != u {
        let k = t.spec_mongodb_key();
        let l = u.spec_mongodb_key();
        assert(k.len() != l.len() || k[0] != l[0] || k[1] != l[1] || k[2] != l[2]);
    }
}

/// The keys under which `serverStatus` reports each lock mode: one letter, `R` for the
/// shared modes and `W` for the exclusive ones, in lower case for the intent modes.
pub proof fn lock_mode_keys_are_server_status_keys(m: LockMode)
    ensures
        m.spec_mongodb_key().len() == 1,
        ascii_upper(m.spec_mongodb_key()[0]) == if m == LockMode::Shared || m == LockMode::IntentShared {
            'R'
        } else {
            'W'
        },
        (m == LockMode::IntentShared || m == LockMode::IntentExclusive) <==> ('a' <= m.spec_mongodb_key()[0]
            && m.spec_mongodb_key()[0] <= 'z'),
{
    reveal_strlit("R");
    reveal_strlit("W");
    reveal_strlit("r");
    reveal_strlit("w");
}

} // verus!
