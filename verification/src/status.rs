//! What a scrape reads from the server status besides the metrics: the server's address and
//! port, its storage engine and its version; and the attributes of the resources it reports.
use vstd::prelude::*;
use crate::doc::{self, Bson, BsonKey, KeyView, get_str, is_text_error, keys_view, text_at};
use crate::metrics::{AttributeValue, KeyValue, StorageEngine, ValueView, attributes_view};
use crate::text::{lemma_split_nonempty, split_char, split_spec, str_eq, strs_view};
use crate::version::{Version, parse_semver, semver_parse};

verus! {

/// The port of a MongoDB server whose address names none.
pub const DEFAULT_PORT: u16 = 27017;

/// Why a scrape could not read what it needs from the server status.
#[derive(Debug)]
pub enum ScrapeError {
    /// A value is missing or has another type.
    Query(doc::Error),
    /// The port of the host is not a number that fits in 16 bits.
    InvalidPort(String),
    /// The host has more than one `:`.
    UnexpectedHostFormat(String),
    /// The version is not a semantic version.
    InvalidVersion(String),
}

/// Whether `c` is a decimal digit.
pub open spec fn is_digit(c: char) -> bool {
    '0' <= c <= '9'
}

/// The number that decimal digits write.
pub open spec fn digits_value(s: Seq<char>) -> int
    decreases s.len(),
{
    if s.len() == 0 {
        0
    } else {
        digits_value(s.drop_last()) * 10 + (s.last() as int - '0' as int)
    }
}

/// The digits of a port: the text without a leading `+`.
pub open spec fn port_digits(s: Seq<char>) -> Seq<char> {
    if s.len() > 0 && s[0] == '+' {
        s.drop_first()
    } else {
        s
    }
}

/// Whether every character is a decimal digit.
pub open spec fn all_digits(s: Seq<char>) -> bool {
    forall|i: int| 0 <= i < s.len() ==> is_digit(#[trigger] s[i])
}

/// What `u16::from_str` makes of a text: an optional `+`, then at least one decimal digit,
/// writing a number no larger than `u16::MAX`.
pub open spec fn port_value(s: Seq<char>) -> Option<u16> {
    let digits = port_digits(s);
    if digits.len() > 0 && all_digits(digits) && digits_value(digits) <= u16::MAX {
        Some(digits_value(digits) as u16)
    } else {
        None
    }
}

/// Digits never write a negative number, and more digits never a smaller one.
proof fn lemma_digits_grow(s: Seq<char>)
    requires
        forall|i: int| 0 <= i < s.len() ==> is_digit(#[trigger] s[i]),
    ensures
        digits_value(s) >= 0,
        s.len() > 0 ==> digits_value(s) >= digits_value(s.drop_last()),
    decreases s.len(),
{
    if s.len() > 0 {
        assert forall|i: int| 0 <= i < s.drop_last().len() implies is_digit(#[trigger] s.drop_last()[i]) by {
            assert(s.drop_last()[i] == s[i]);
        }
        lemma_digits_grow(s.drop_last());
        assert(is_digit(s[s.len() - 1]));
    }
}

/// A longer run of digits never writes a smaller number than its prefix.
proof fn lemma_value_monotone(d: Seq<char>, a: int, b: int)
    requires
        0 <= a <= b <= d.len(),
        forall|j: int| 0 <= j < d.len() ==> is_digit(#[trigger] d[j]),
    ensures
        digits_value(d.take(b)) >= digits_value(d.take(a)),
    decreases b - a,
{
    if b > a {
        lemma_value_monotone(d, a, b - 1);
        assert forall|j: int| 0 <= j < d.take(b).len() implies is_digit(#[trigger] d.take(b)[j]) by {
            assert(d.take(b)[j] == d[j]);
        }
        lemma_digits_grow(d.take(b));
        assert(d.take(b).drop_last() =~= d.take(b - 1));
    }
}

/// Reads a port number as `u16::from_str` does.
pub fn parse_port(s: &str) -> (r: Option<u16>)
    ensures
        r == port_value(s@),
{
    let n = s.unicode_len();
    let start: usize = if n > 0 && s.get_char(0) == '+' {
        1
    } else {
        0
    };
    let ghost digits = s@.skip(start as int);
    proof {
        if n > 0 && s@[0] == '+' {
            assert(digits =~= s@.drop_first());
        } else {
            assert(digits =~= s@);
        }
    }
    assert(digits == port_digits(s@));
    if start >= n {
        assert(digits.len() == 0);
        return None;
    }
    let mut value: u32 = 0;
    let mut i: usize = start;
    assert(digits.take(0) =~= Seq::<char>::empty());
    while i < n
        invariant
            n == s@.len(),
            start <= i <= n,
            digits == s@.skip(start as int),
            digits == port_digits(s@),
            value == digits_value(digits.take(i - start)),
            value <= u16::MAX,
            forall|j: int| 0 <= j < i - start ==> is_digit(#[trigger] digits[j]),
        decreases n - i,
    {
        let c = s.get_char(i);
        let ghost k = i - start;
        proof {
            assert(digits[k] == c);
            assert(digits.take(k + 1).drop_last() =~= digits.take(k));
            assert(digits.take(k + 1).last() == c);
        }
        if c < '0' || c > '9' {
            assert(!is_digit(digits[k]));
            assert(!all_digits(digits));
            return None;
        }
        let d = (c as u32) - ('0' as u32);
        let next = value * 10 + d;
        if next > 65535 {
            proof {
                if all_digits(digits) {
                    lemma_value_monotone(digits, k + 1, digits.len() as int);
                    assert(digits.take(digits.len() as int) =~= digits);
                }
            }
            return None;
        }
        value = next;
        i = i + 1;
    }
    proof {
        assert(digits.take(n - start) =~= digits);
    }
    Some(value as u16)
}

/// The host named in the server status, with the port after its `:`, or the default port
/// without one.
pub open spec fn address_and_port(host: Seq<char>) -> Option<(Seq<char>, Option<u16>)> {
    let pieces = split_spec(host, ':');
    if pieces.len() == 1 {
        Some((pieces[0], Some(DEFAULT_PORT)))
    } else if pieces.len() == 2 {
        Some((pieces[0], port_value(pieces[1])))
    } else {
        None
    }
}

/// Reads the address and the port of the server from the `host` of its status: `name` or
/// `name:port`; without a port, the default one.
pub fn get_server_address_and_port<'a>(server_status: &'a Bson) -> (r: Result<(&'a str, u16), ScrapeError>)
    ensures
        match text_at(*server_status, seq![KeyView::Key("host"@)]) {
            None => r matches Err(ScrapeError::Query(e)) && is_text_error(*server_status, seq![KeyView::Key("host"@)], e),
            Some(host) => match address_and_port(host) {
                Some((name, Some(port))) => r matches Ok((n, p)) && n@ == name && p == port,
                Some((_, None)) => r matches Err(ScrapeError::InvalidPort(text)) && text@ == split_spec(host, ':')[1],
                None => r matches Err(ScrapeError::UnexpectedHostFormat(text)) && text@ == host,
            },
        },
{
    let path = [BsonKey::KeyStr("host")];
    assert(keys_view(path@) =~= seq![KeyView::Key("host"@)]);
    let host = match get_str(server_status, &path) {
        Ok(h) => h,
        Err(e) => {
            return Err(ScrapeError::Query(e));
        },
    };
    let pieces = split_char(host, ':');
    proof {
        lemma_split_nonempty(host@, ':');
    }
    assert(strs_view(pieces@)[0] == pieces@[0]@);
    if pieces.len() == 1 {
        Ok((pieces[0], DEFAULT_PORT))
    } else if pieces.len() == 2 {
        assert(strs_view(pieces@)[1] == pieces@[1]@);
        match parse_port(pieces[1]) {
            Some(port) => Ok((pieces[0], port)),
            None => Err(ScrapeError::InvalidPort(String::from_str(pieces[1]))),
        }
    } else {
        Err(ScrapeError::UnexpectedHostFormat(String::from_str(host)))
    }
}

/// Where the server status names the storage engine.
pub open spec fn storage_engine_path() -> Seq<KeyView> {
    seq![KeyView::Key("storageEngine"@), KeyView::Key("name"@)]
}

/// `engine` is the storage engine that the server status names: none where it names
/// none, `WiredTiger` for `wiredTiger`, any other name as it is.
pub open spec fn names_storage_engine(server_status: Bson, engine: Option<StorageEngine>) -> bool {
    match text_at(server_status, storage_engine_path()) {
        None => engine is None,
        Some(name) => if name == "wiredTiger"@ {
            engine matches Some(StorageEngine::WiredTiger)
        } else {
            engine matches Some(StorageEngine::Other(n)) && n@ == name
        },
    }
}

/// The storage engine that the server status names, if it names one.
pub fn get_storage_engine(server_status: &Bson) -> (r: Option<StorageEngine>)
    ensures
        names_storage_engine(*server_status, r),
{
    let path = [BsonKey::KeyStr("storageEngine"), BsonKey::KeyStr("name")];
    assert(keys_view(path@) =~= storage_engine_path());
    match get_str(server_status, &path) {
        Err(_) => None,
        Ok(name) => if str_eq(name, "wiredTiger") {
            Some(StorageEngine::WiredTiger)
        } else {
            Some(StorageEngine::Other(String::from_str(name)))
        },
    }
}

/// Where a status names the server version.
pub open spec fn version_path() -> Seq<KeyView> {
    seq![KeyView::Key("version"@)]
}

/// The version that the server status names, as a semantic version.
pub fn get_version(doc: &Bson) -> (r: Result<Version, ScrapeError>)
    ensures
        match text_at(*doc, version_path()) {
            None => r matches Err(ScrapeError::Query(e)) && is_text_error(*doc, version_path(), e),
            Some(text) => match semver_parse(text) {
                Some(parts) => r matches Ok(v) && parts == (v.major, v.minor, v.patch, v.pre@, v.build@),
                None => r matches Err(ScrapeError::InvalidVersion(t)) && t@ == text,
            },
        },
{
    let path = [BsonKey::KeyStr("version")];
    assert(keys_view(path@) =~= version_path());
    let text = match get_str(doc, &path) {
        Ok(t) => t,
        Err(e) => {
            return Err(ScrapeError::Query(e));
        },
    };
    match parse_semver(text) {
        Some(v) => Ok(v),
        None => Err(ScrapeError::InvalidVersion(String::from_str(text))),
    }
}

/// Whether the index statistics of the collections of a database are scraped: of every
/// database but `local`.
pub fn scrapes_index_stats(database_name: &str) -> (r: bool)
    ensures
        r == (database_name@ != "local"@),
{
    !str_eq(database_name, "local")
}

/// The attributes of a resource that metrics are reported for: the server, and the
/// database for metrics of one database.
#[derive(Debug)]
pub struct ResourceAttributesConfig {
    pub database: Option<String>,
    pub server_address: String,
    pub server_port: u16,
}

/// The resources a scrape reports, in order: the server itself, then each database.
pub fn scrape_resources(server_address: &String, server_port: u16, databases: &Vec<String>) -> (r: Vec<ResourceAttributesConfig>)
    ensures
        r@.len() == databases@.len() + 1,
        forall|i: int| 0 <= i < r@.len() ==> #[trigger] r@[i].server_address@ == server_address@ && r@[i].server_port == server_port,
        r@[0].database is None,
        forall|i: int| 0 <= i < databases@.len() ==> ((#[trigger] r@[i + 1]).database matches Some(db) && db@ == databases@[i]@),
{
    let mut r: Vec<ResourceAttributesConfig> = Vec::new();
    r.push(ResourceAttributesConfig { database: None, server_address: server_address.clone(), server_port });
    let mut k: usize = 0;
    while k < databases.len()
        invariant
            k <= databases@.len(),
            r@.len() == k + 1,
            forall|i: int| 0 <= i < r@.len() ==> #[trigger] r@[i].server_address@ == server_address@ && r@[i].server_port == server_port,
            r@[0].database is None,
            forall|i: int| 0 <= i < k ==> ((#[trigger] r@[i + 1]).database matches Some(db) && db@ == databases@[i]@),
        decreases databases@.len() - k,
    {
        r.push(ResourceAttributesConfig {
            database: Some(databases[k].clone()),
            server_address: server_address.clone(),
            server_port,
        });
        k = k + 1;
    }
    r
}

impl ResourceAttributesConfig {
    /// The attributes: `server.address`, `server.port` as an integer, and `database`
    /// when there is one.
    pub fn into_resource(self) -> (r: Vec<KeyValue>)
        ensures
            attributes_view(r@) == seq![
                ("server.address"@, ValueView::String(self.server_address@)),
                ("server.port"@, ValueView::I64(self.server_port as i64)),
            ] + match self.database {
                Some(db) => seq![("database"@, ValueView::String(db@))],
                None => Seq::empty(),
            },
    {
        let ghost database = self.database;
        let ghost address = self.server_address@;
        let mut r: Vec<KeyValue> = Vec::new();
        r.push(KeyValue { key: String::from_str("server.address"), value: AttributeValue::String(self.server_address) });
        r.push(KeyValue { key: String::from_str("server.port"), value: AttributeValue::I64(self.server_port as i64) });
        match self.database {
            Some(db) => {
                r.push(KeyValue { key: String::from_str("database"), value: AttributeValue::String(db) });
            },
            None => {},
        }
        assert(attributes_view(r@) =~= seq![
            ("server.address"@, ValueView::String(address)),
            ("server.port"@, ValueView::I64(self.server_port as i64)),
        ] + match database {
            Some(db) => seq![("database"@, ValueView::String(db@))],
            None => Seq::<(Seq<char>, ValueView)>::empty(),
        });
        r
    }
}

/// The parts of the version that a status names, where it names a semantic version.
pub open spec fn read_version(doc: Bson) -> Option<(u64, u64, u64, Seq<char>, Seq<char>)> {
    match text_at(doc, version_path()) {
        Some(text) => semver_parse(text),
        None => None,
    }
}

/// The address and port that the server status names in its `host`, where it names them
/// well.
pub open spec fn read_address(server_status: Bson) -> Option<(Seq<char>, u16)> {
    match text_at(server_status, seq![KeyView::Key("host"@)]) {
        Some(host) => match address_and_port(host) {
            Some((name, Some(port))) => Some((name, port)),
            _ => None,
        },
        None => None,
    }
}

} // verus!
