//! A BSON value model and the path queries that the metric recorders run on it.
use vstd::prelude::*;
use crate::text::str_eq;

verus! {

/// A BSON value as the metric recorders read it.
///
/// Documents keep their entries in order. `Other` stands for every kind of
/// value that no recorder reads (doubles, dates, binaries, ...), with a text
/// that describes it.
#[derive(Debug)]
pub enum Bson {
    Document(Vec<(String, Bson)>),
    Array(Vec<Bson>),
    String(String),
    Int32(i32),
    Int64(i64),
    Boolean(bool),
    Null,
    Other(String),
}

/// The mathematical content of a [`Bson`] value.
pub enum BsonView {
    Document(Seq<(Seq<char>, BsonView)>),
    Array(Seq<BsonView>),
    String(Seq<char>),
    Int32(i32),
    Int64(i64),
    Boolean(bool),
    Null,
    Other(Seq<char>),
}

impl Bson {
    pub open spec fn deep(self) -> BsonView
        decreases self,
    {
        match self {
            Bson::Document(d) => BsonView::Document(Bson::deep_entries(d@)),
            Bson::Array(a) => BsonView::Array(Bson::deep_items(a@)),
            Bson::String(s) => BsonView::String(s@),
            Bson::Int32(v) => BsonView::Int32(v),
            Bson::Int64(v) => BsonView::Int64(v),
            Bson::Boolean(b) => BsonView::Boolean(b),
            Bson::Null => BsonView::Null,
            Bson::Other(s) => BsonView::Other(s@),
        }
    }

    pub open spec fn deep_entries(s: Seq<(String, Bson)>) -> Seq<(Seq<char>, BsonView)>
        decreases s,
    {
        if s.len() == 0 {
            Seq::empty()
        } else {
            seq![(s[0].0@, s[0].1.deep())] + Bson::deep_entries(s.drop_first())
        }
    }

    pub open spec fn deep_items(s: Seq<Bson>) -> Seq<BsonView>
        decreases s,
    {
        if s.len() == 0 {
            Seq::empty()
        } else {
            seq![s[0].deep()] + Bson::deep_items(s.drop_first())
        }
    }
}


/// The deep view of a document's entries has one entry per entry, in order.
pub proof fn lemma_deep_entries(s: Seq<(String, Bson)>)
    ensures
        Bson::deep_entries(s).len() == s.len(),
        forall|i: int|
            0 <= i < s.len() ==> #[trigger] Bson::deep_entries(s)[i] == (s[i].0@, s[i].1.deep()),
    decreases s.len(),
{
    if s.len() > 0 {
        lemma_deep_entries(s.drop_first());
        assert forall|i: int| 0 <= i < s.len() implies #[trigger] Bson::deep_entries(s)[i] == (
        s[i].0@, s[i].1.deep()) by {
            if i > 0 {
                assert(s.drop_first()[i - 1] == s[i]);
            }
        }
    }
}

/// The deep view of an array has one item per item, in order.
pub proof fn lemma_deep_items(s: Seq<Bson>)
    ensures
        Bson::deep_items(s).len() == s.len(),
        forall|i: int| 0 <= i < s.len() ==> #[trigger] Bson::deep_items(s)[i] == s[i].deep(),
    decreases s.len(),
{
    if s.len() > 0 {
        lemma_deep_items(s.drop_first());
        assert forall|i: int| 0 <= i < s.len() implies #[trigger] Bson::deep_items(s)[i]
            == s[i].deep() by {
            if i > 0 {
                assert(s.drop_first()[i - 1] == s[i]);
            }
        }
    }
}

impl Bson {
    /// A copy of this value with the same content.
    pub fn duplicate(&self) -> (r: Bson)
        ensures
            r.deep() == self.deep(),
        decreases self,
    {
        match self {
            Bson::Document(d) => {
                let mut out: Vec<(String, Bson)> = Vec::new();
                let mut i: usize = 0;
                assert(*self == Bson::Document(*d));
                while i < d.len()
                    invariant
                        *self == Bson::Document(*d),
                        i <= d@.len(),
                        out@.len() == i,
                        forall|j: int|
                            0 <= j < i ==> #[trigger] out@[j].0@ == d@[j].0@ && out@[j].1.deep()
                                == d@[j].1.deep(),
                    decreases d@.len() - i,
                {
                    proof {
                        broadcast use vstd::std_specs::vec::axiom_vec_decreases_to_view;
                        broadcast use vstd::seq::axiom_seq_index_decreases;
                        assert(decreases_to!(*d => d@));
                        assert(decreases_to!(*self => (*self)->Document_0));
                        assert(decreases_to!(d@ => d@[i as int]));
                        assert(decreases_to!(*self => d@[i as int].1));
                    }
                    let key = d[i].0.clone();
                    let value = d[i].1.duplicate();
                    out.push((key, value));
                    i = i + 1;
                }
                proof {
                    lemma_deep_entries(out@);
                    lemma_deep_entries(d@);
                    assert(Bson::deep_entries(out@) =~= Bson::deep_entries(d@));
                }
                Bson::Document(out)
            },
            Bson::Array(a) => {
                let mut out: Vec<Bson> = Vec::new();
                let mut i: usize = 0;
                assert(*self == Bson::Array(*a));
                while i < a.len()
                    invariant
                        *self == Bson::Array(*a),
                        i <= a@.len(),
                        out@.len() == i,
                        forall|j: int| 0 <= j < i ==> #[trigger] out@[j].deep() == a@[j].deep(),
                    decreases a@.len() - i,
                {
                    proof {
                        broadcast use vstd::std_specs::vec::axiom_vec_decreases_to_view;
                        broadcast use vstd::seq::axiom_seq_index_decreases;
                        assert(decreases_to!(*a => a@));
                        assert(decreases_to!(*self => (*self)->Array_0));
                        assert(decreases_to!(a@ => a@[i as int]));
                    }
                    let value = a[i].duplicate();
                    out.push(value);
                    i = i + 1;
                }
                proof {
                    lemma_deep_items(out@);
                    lemma_deep_items(a@);
                    assert(Bson::deep_items(out@) =~= Bson::deep_items(a@));
                }
                Bson::Array(out)
            },
            Bson::String(s) => Bson::String(s.clone()),
            Bson::Int32(v) => Bson::Int32(*v),
            Bson::Int64(v) => Bson::Int64(*v),
            Bson::Boolean(b) => Bson::Boolean(*b),
            Bson::Null => Bson::Null,
            Bson::Other(s) => Bson::Other(s.clone()),
        }
    }
}


/// One step of a path into a BSON value: a document key or an array index.
#[derive(Clone, Copy, Debug)]
pub enum BsonKey<'a> {
    KeyStr(&'a str),
    Index(usize),
}

/// A path step that owns its key.
#[derive(Debug)]
pub enum OwnedBsonKey {
    Key(String),
    Index(usize),
}

/// The mathematical content of a path step.
pub enum KeyView {
    Key(Seq<char>),
    Index(nat),
}

impl<'a> View for BsonKey<'a> {
    type V = KeyView;

    open spec fn view(&self) -> KeyView {
        match self {
            BsonKey::KeyStr(k) => KeyView::Key(k@),
            BsonKey::Index(i) => KeyView::Index(*i as nat),
        }
    }
}

impl View for OwnedBsonKey {
    type V = KeyView;

    open spec fn view(&self) -> KeyView {
        match self {
            OwnedBsonKey::Key(k) => KeyView::Key(k@),
            OwnedBsonKey::Index(i) => KeyView::Index(*i as nat),
        }
    }
}

impl<'a> BsonKey<'a> {
    /// The same step, owning its key.
    pub fn to_owned(&self) -> (r: OwnedBsonKey)
        ensures
            r@ == self@,
    {
        match self {
            BsonKey::Index(idx) => OwnedBsonKey::Index(*idx),
            BsonKey::KeyStr(key) => OwnedBsonKey::Key(String::from_str(key)),
        }
    }
}

/// The steps of a path, as their views.
pub open spec fn keys_view<'a>(path: Seq<BsonKey<'a>>) -> Seq<KeyView> {
    path.map_values(|k: BsonKey<'a>| k@)
}

/// A path that owns its keys.
#[derive(Debug)]
pub struct OwnedPath(Vec<OwnedBsonKey>);

impl View for OwnedPath {
    type V = Seq<KeyView>;

    closed spec fn view(&self) -> Seq<KeyView> {
        self.0@.map_values(|k: OwnedBsonKey| k@)
    }
}

impl OwnedPath {
    /// The first `n` steps of `path`, owning their keys.
    pub fn from_prefix(path: &[BsonKey], n: usize) -> (r: OwnedPath)
        requires
            n <= path@.len(),
        ensures
            r@ == keys_view(path@).take(n as int),
    {
        let mut keys: Vec<OwnedBsonKey> = Vec::new();
        let mut i: usize = 0;
        while i < n
            invariant
                n <= path@.len(),
                i <= n,
                keys@.map_values(|k: OwnedBsonKey| k@) == keys_view(path@).take(i as int),
            decreases n - i,
        {
            let key = path[i].to_owned();
            proof {
                assert(keys@.push(key).map_values(|k: OwnedBsonKey| k@) =~= keys@.map_values(
                    |k: OwnedBsonKey| k@,
                ).push(key@));
                assert(keys_view(path@).take(i + 1) =~= keys_view(path@).take(i as int).push(
                    path@[i as int]@,
                ));
            }
            keys.push(key);
            i = i + 1;
        }
        OwnedPath(keys)
    }

    /// All steps of `path`, owning their keys.
    pub fn from_keys(path: &[BsonKey]) -> (r: OwnedPath)
        ensures
            r@ == keys_view(path@),
    {
        let r = OwnedPath::from_prefix(path, path.len());
        assert(keys_view(path@).take(path@.len() as int) =~= keys_view(path@));
        r
    }

    /// The steps of this path.
    pub fn keys(&self) -> (r: &Vec<OwnedBsonKey>)
        ensures
            r@.map_values(|k: OwnedBsonKey| k@) == self@,
    {
        &self.0
    }

    /// How the path is shown: its steps joined by `.`, such as `locks.Global.0`.
    pub fn to_text(&self) -> (r: String)
        ensures
            r@ == path_text(self@),
    {
        let mut r = String::new();
        let mut i: usize = 0;
        let ghost keys = self@;
        assert(keys.take(0) =~= Seq::<KeyView>::empty());
        while i < self.0.len()
            invariant
                keys == self@,
                keys == self.0@.map_values(|k: OwnedBsonKey| k@),
                i <= self.0@.len(),
                r@ == path_text(keys.take(i as int)),
            decreases self.0@.len() - i,
        {
            proof {
                assert(keys.take(i + 1).drop_last() =~= keys.take(i as int));
                assert(keys.take(i + 1).last() == self.0@[i as int]@);
                reveal_strlit(".");
            }
            if i > 0 {
                r.append(".");
            }
            let text = self.0[i].to_text();
            r.append(text.as_str());
            i = i + 1;
        }
        assert(keys.take(self.0@.len() as int) =~= keys);
        r
    }
}

/// The character of a decimal digit.
pub open spec fn digit_char(d: nat) -> char {
    (('0' as nat) + d) as char
}

/// The decimal digits of a number, without leading zeros.
pub open spec fn decimal(n: nat) -> Seq<char>
    decreases n,
{
    if n < 10 {
        seq![digit_char(n)]
    } else {
        decimal(n / 10).push(digit_char(n % 10))
    }
}

/// How a path step is shown: its key, or its index in decimal.
pub open spec fn key_text(k: KeyView) -> Seq<char> {
    match k {
        KeyView::Key(s) => s,
        KeyView::Index(i) => decimal(i),
    }
}

/// How a path is shown: its steps joined by `.`.
pub open spec fn path_text(keys: Seq<KeyView>) -> Seq<char>
    decreases keys.len(),
{
    if keys.len() == 0 {
        Seq::empty()
    } else if keys.len() == 1 {
        key_text(keys[0])
    } else {
        path_text(keys.drop_last()) + "."@ + key_text(keys.last())
    }
}

/// The text of one decimal digit.
fn digit_text(d: usize) -> (r: &'static str)
    requires
        d < 10,
    ensures
        r@ == seq![digit_char(d as nat)],
{
    proof {
        reveal_strlit("0");
        reveal_strlit("1");
        reveal_strlit("2");
        reveal_strlit("3");
        reveal_strlit("4");
        reveal_strlit("5");
        reveal_strlit("6");
        reveal_strlit("7");
        reveal_strlit("8");
        reveal_strlit("9");
    }
    match d {
        0 => "0",
        1 => "1",
        2 => "2",
        3 => "3",
        4 => "4",
        5 => "5",
        6 => "6",
        7 => "7",
        8 => "8",
        _ => "9",
    }
}

/// A number in decimal, as `Display` shows it.
pub fn decimal_text(n: usize) -> (r: String)
    ensures
        r@ == decimal(n as nat),
    decreases n,
{
    if n < 10 {
        let mut r = String::new();
        r.append(digit_text(n));
        r
    } else {
        let mut r = decimal_text(n / 10);
        r.append(digit_text(n % 10));
        r
    }
}

impl OwnedBsonKey {
    /// How the step is shown: its key, or its index in decimal.
    pub fn to_text(&self) -> (r: String)
        ensures
            r@ == key_text(self@),
    {
        match self {
            OwnedBsonKey::Key(k) => k.clone(),
            OwnedBsonKey::Index(i) => decimal_text(*i),
        }
    }
}

impl<'a> BsonKey<'a> {
    /// How the step is shown: its key, or its index in decimal.
    pub fn to_text(&self) -> (r: String)
        ensures
            r@ == key_text(self@),
    {
        match self {
            BsonKey::KeyStr(k) => String::from_str(k),
            BsonKey::Index(i) => decimal_text(*i),
        }
    }
}

/// The part of a path that was found before a query failed, with the value found there.
#[derive(Debug)]
pub struct Match {
    pub path: OwnedPath,
    pub value: Bson,
}

/// A value was found but has another type than the one asked for.
#[derive(Debug)]
pub struct InvalidTypeError {
    pub expected_type: String,
    pub value: Bson,
}

/// A query on a path failed.
#[derive(Debug)]
pub struct Error {
    pub path: OwnedPath,
    pub source: QueryError,
}

/// Why a query on a path failed.
#[derive(Debug)]
pub enum QueryError {
    NotFound { partial_match: Option<Match> },
    InvalidType(InvalidTypeError),
}

impl QueryError {
    /// The part of the path that was found, if the path was not found.
    pub fn partial_match(&self) -> (r: Option<&Match>)
        ensures
            match self {
                QueryError::NotFound { partial_match: Some(m) } => r matches Some(x) && *x == m,
                _ => r is None,
            },
    {
        match self {
            QueryError::NotFound { partial_match } => partial_match.as_ref(),
            QueryError::InvalidType(_) => None,
        }
    }
}

/// The value stored under `key` in document entries: the first entry with that key.
pub open spec fn entry_get(entries: Seq<(String, Bson)>, key: Seq<char>) -> Option<Bson>
    decreases entries.len(),
{
    if entries.len() == 0 {
        None
    } else if entries[0].0@ == key {
        Some(entries[0].1)
    } else {
        entry_get(entries.drop_first(), key)
    }
}

/// One step into a value: a key of a document, or an index of an array.
pub open spec fn child(value: Bson, key: KeyView) -> Option<Bson> {
    match (value, key) {
        (Bson::Array(a), KeyView::Index(i)) => if i < a@.len() {
            Some(a@[i as int])
        } else {
            None
        },
        (Bson::Document(d), KeyView::Key(k)) => entry_get(d@, k),
        _ => None,
    }
}

/// The value found at the end of a path, if every step is found.
pub open spec fn lookup(value: Bson, path: Seq<KeyView>) -> Option<Bson>
    decreases path.len(),
{
    if path.len() == 0 {
        Some(value)
    } else {
        match child(value, path[0]) {
            Some(c) => lookup(c, path.drop_first()),
            None => None,
        }
    }
}

/// How many steps of a path are found before the first that is not.
pub open spec fn matched_len(value: Bson, path: Seq<KeyView>) -> nat
    decreases path.len(),
{
    if path.len() == 0 {
        0
    } else {
        match child(value, path[0]) {
            Some(c) => 1 + matched_len(c, path.drop_first()),
            None => 0,
        }
    }
}

/// `e` is the error for a path that is not found in `doc`: it names the path and
/// holds the longest prefix that was found, with a copy of the value there.
pub open spec fn is_not_found(doc: Bson, path: Seq<KeyView>, e: Error) -> bool {
    let k = matched_len(doc, path);
    &&& e.path@ == path
    &&& e.source matches QueryError::NotFound { partial_match: Some(m) }
    &&& m.path@ == path.take(k as int)
    &&& m.value.deep() == lookup(doc, path.take(k as int)).unwrap().deep()
}

/// `e` is the error for a value found at `path` in `doc` that is not of the `expected` type.
pub open spec fn is_type_error(doc: Bson, path: Seq<KeyView>, expected: Seq<char>, e: Error) -> bool {
    &&& e.path@ == path
    &&& e.source matches QueryError::InvalidType(t)
    &&& t.expected_type@ == expected
    &&& t.value.deep() == lookup(doc, path).unwrap().deep()
}

/// Extending a path by one step extends the lookup by one step.
pub proof fn lemma_lookup_push(value: Bson, path: Seq<KeyView>, key: KeyView)
    ensures
        lookup(value, path.push(key)) == match lookup(value, path) {
            Some(v) => child(v, key),
            None => None,
        },
    decreases path.len(),
{
    if path.len() > 0 {
        assert(path.push(key).drop_first() =~= path.drop_first().push(key));
        assert(path.push(key)[0] == path[0]);
        match child(value, path[0]) {
            Some(c) => lemma_lookup_push(c, path.drop_first(), key),
            None => {},
        }
    } else {
        assert(path.push(key).drop_first() =~= path);
        assert(path.push(key)[0] == key);
        match child(value, key) {
            Some(c) => assert(lookup(c, path) == Some(c)),
            None => {},
        }
    }
}

/// A path splits into a prefix whose value is known and the rest.
pub proof fn lemma_lookup_split(value: Bson, path: Seq<KeyView>, i: int, found: Bson)
    requires
        0 <= i <= path.len(),
        lookup(value, path.take(i)) == Some(found),
    ensures
        lookup(value, path) == lookup(found, path.skip(i)),
        matched_len(value, path) == i + matched_len(found, path.skip(i)),
    decreases i,
{
    if i == 0 {
        assert(path.take(0) =~= Seq::<KeyView>::empty());
        assert(path.skip(0) =~= path);
    } else {
        assert(path.take(i)[0] == path[0]);
        assert(path.take(i).drop_first() =~= path.drop_first().take(i - 1));
        assert(path.skip(i) =~= path.drop_first().skip(i - 1));
        match child(value, path[0]) {
            Some(c) => lemma_lookup_split(c, path.drop_first(), i - 1, found),
            None => {},
        }
    }
}

/// The value under `key` in `value`, if `value` is a document that has the key or an
/// array that has the index.
pub fn get<'a, 'b>(value: &'b Bson, key: BsonKey<'a>) -> (r: Option<&'b Bson>)
    ensures
        match r {
            Some(c) => child(*value, key@) == Some(*c),
            None => child(*value, key@) is None,
        },
{
    match (value, key) {
        (Bson::Array(arr), BsonKey::Index(idx)) => {
            if idx < arr.len() {
                Some(&arr[idx])
            } else {
                None
            }
        },
        (Bson::Document(doc), BsonKey::KeyStr(k)) => {
            let mut i: usize = 0;
            assert(doc@.skip(0) =~= doc@);
            while i < doc.len()
                invariant
                    *value == Bson::Document(*doc),
                    key == BsonKey::KeyStr(k),
                    i <= doc@.len(),
                    entry_get(doc@, k@) == entry_get(doc@.skip(i as int), k@),
                decreases doc@.len() - i,
            {
                assert(doc@.skip(i as int).drop_first() =~= doc@.skip(i + 1));
                assert(doc@.skip(i as int)[0] == doc@[i as int]);
                if str_eq(doc[i].0.as_str(), k) {
                    return Some(&doc[i].1);
                }
                i = i + 1;
            }
            None
        },
        _ => None,
    }
}

/// The value at the end of `path` in `document`, or the error that says how much of the
/// path was found.
pub fn get_path<'b>(document: &'b Bson, path: &[BsonKey]) -> (r: Result<&'b Bson, Error>)
    ensures
        match r {
            Ok(v) => lookup(*document, keys_view(path@)) == Some(*v),
            Err(e) => lookup(*document, keys_view(path@)) is None && is_not_found(
                *document,
                keys_view(path@),
                e,
            ),
        },
{
    let ghost pv = keys_view(path@);
    let mut value: &Bson = document;
    let mut idx: usize = 0;
    assert(pv.take(0) =~= Seq::<KeyView>::empty());
    while idx < path.len()
        invariant
            pv == keys_view(path@),
            idx <= path@.len(),
            lookup(*document, pv.take(idx as int)) == Some(*value),
        decreases path@.len() - idx,
    {
        let key = path[idx];
        match get(value, key) {
            Some(c) => {
                proof {
                    lemma_lookup_push(*document, pv.take(idx as int), pv[idx as int]);
                    assert(pv.take(idx as int).push(pv[idx as int]) =~= pv.take(idx + 1));
                }
                value = c;
            },
            None => {
                proof {
                    lemma_lookup_split(*document, pv, idx as int, *value);
                    assert(pv.skip(idx as int)[0] == pv[idx as int]);
                }
                let partial = Match { path: OwnedPath::from_prefix(path, idx), value: value.duplicate() };
                return Err(
                    Error {
                        path: OwnedPath::from_keys(path),
                        source: QueryError::NotFound { partial_match: Some(partial) },
                    },
                );
            },
        }
        idx = idx + 1;
    }
    assert(pv.take(path@.len() as int) =~= pv);
    Ok(value)
}


/// The integer held by a value: an `Int64`, or an `Int32` widened.
pub open spec fn integer_of(value: Bson) -> Option<i64> {
    match value {
        Bson::Int64(v) => Some(v),
        Bson::Int32(v) => Some(v as i64),
        _ => None,
    }
}

/// The text held by a `String` value.
pub open spec fn text_of(value: Bson) -> Option<Seq<char>> {
    match value {
        Bson::String(s) => Some(s@),
        _ => None,
    }
}

/// The integer at the end of a path, if there is one.
pub open spec fn integer_at(doc: Bson, path: Seq<KeyView>) -> Option<i64> {
    match lookup(doc, path) {
        Some(v) => integer_of(v),
        None => None,
    }
}

/// The text at the end of a path, if there is one.
pub open spec fn text_at(doc: Bson, path: Seq<KeyView>) -> Option<Seq<char>> {
    match lookup(doc, path) {
        Some(v) => text_of(v),
        None => None,
    }
}

/// `e` is the error for a path of `doc` that does not lead to an integer.
pub open spec fn is_integer_error(doc: Bson, path: Seq<KeyView>, e: Error) -> bool {
    if lookup(doc, path) is None {
        is_not_found(doc, path, e)
    } else {
        is_type_error(doc, path, "integer"@, e)
    }
}

/// `e` is the error for a path of `doc` that does not lead to a string.
pub open spec fn is_text_error(doc: Bson, path: Seq<KeyView>, e: Error) -> bool {
    if lookup(doc, path) is None {
        is_not_found(doc, path, e)
    } else {
        is_type_error(doc, path, "string"@, e)
    }
}

/// Reading a BSON value as a string or as an integer.
pub trait BsonValue {
    fn get_str(&self) -> Result<&str, InvalidTypeError>;

    fn get_i64(&self) -> Result<i64, InvalidTypeError>;
}

impl BsonValue for Bson {
    fn get_str(&self) -> (r: Result<&str, InvalidTypeError>)
        ensures
            match r {
                Ok(s) => text_of(*self) == Some(s@),
                Err(e) => text_of(*self) is None && e.expected_type@ == "string"@
                    && e.value.deep() == self.deep(),
            },
    {
        match self {
            Bson::String(s) => Ok(s.as_str()),
            _ => Err(
                InvalidTypeError { expected_type: String::from_str("string"), value: self.duplicate() },
            ),
        }
    }

    fn get_i64(&self) -> (r: Result<i64, InvalidTypeError>)
        ensures
            match r {
                Ok(v) => integer_of(*self) == Some(v),
                Err(e) => integer_of(*self) is None && e.expected_type@ == "integer"@
                    && e.value.deep() == self.deep(),
            },
    {
        match self {
            Bson::Int64(v) => Ok(*v),
            Bson::Int32(v) => Ok(*v as i64),
            _ => Err(
                InvalidTypeError { expected_type: String::from_str("integer"), value: self.duplicate() },
            ),
        }
    }
}

/// The integer at the end of `path` in `document`.
pub fn get_i64(document: &Bson, path: &[BsonKey]) -> (r: Result<i64, Error>)
    ensures
        match r {
            Ok(v) => integer_at(*document, keys_view(path@)) == Some(v),
            Err(e) => integer_at(*document, keys_view(path@)) is None && is_integer_error(
                *document,
                keys_view(path@),
                e,
            ),
        },
{
    match get_path(document, path) {
        Ok(v) => match BsonValue::get_i64(v) {
            Ok(x) => Ok(x),
            Err(err) => Err(Error { path: OwnedPath::from_keys(path), source: QueryError::InvalidType(err) }),
        },
        Err(e) => Err(e),
    }
}

/// The text at the end of `path` in `document`.
pub fn get_str<'b>(document: &'b Bson, path: &[BsonKey]) -> (r: Result<&'b str, Error>)
    ensures
        match r {
            Ok(s) => text_at(*document, keys_view(path@)) == Some(s@),
            Err(e) => text_at(*document, keys_view(path@)) is None && is_text_error(
                *document,
                keys_view(path@),
                e,
            ),
        },
{
    match get_path(document, path) {
        Ok(v) => match BsonValue::get_str(v) {
            Ok(x) => Ok(x),
            Err(err) => Err(Error { path: OwnedPath::from_keys(path), source: QueryError::InvalidType(err) }),
        },
        Err(e) => Err(e),
    }
}

/// A value cut short for a log line: below `depth` levels, a document becomes
/// `{"omitted": true}` and an array `["omitted"]`; other values stay.
pub open spec fn omitted(v: BsonView, depth: nat) -> BsonView
    decreases v,
{
    match v {
        BsonView::Document(d) => if depth == 0 {
            BsonView::Document(seq![("omitted"@, BsonView::Boolean(true))])
        } else {
            BsonView::Document(omitted_entries(d, (depth - 1) as nat))
        },
        BsonView::Array(a) => if depth == 0 {
            BsonView::Array(seq![BsonView::String("omitted"@)])
        } else {
            BsonView::Array(omitted_items(a, (depth - 1) as nat))
        },
        _ => v,
    }
}

/// The entries of a document, each value cut short.
pub open spec fn omitted_entries(d: Seq<(Seq<char>, BsonView)>, depth: nat) -> Seq<(Seq<char>, BsonView)>
    decreases d,
{
    if d.len() == 0 {
        Seq::empty()
    } else {
        seq![(d[0].0, omitted(d[0].1, depth))] + omitted_entries(d.drop_first(), depth)
    }
}

/// The items of an array, each cut short.
pub open spec fn omitted_items(a: Seq<BsonView>, depth: nat) -> Seq<BsonView>
    decreases a,
{
    if a.len() == 0 {
        Seq::empty()
    } else {
        seq![omitted(a[0], depth)] + omitted_items(a.drop_first(), depth)
    }
}

/// Cutting short each entry of a document, entry by entry.
proof fn lemma_omitted_entries(d: Seq<(Seq<char>, BsonView)>, depth: nat)
    ensures
        omitted_entries(d, depth).len() == d.len(),
        forall|i: int| 0 <= i < d.len() ==> #[trigger] omitted_entries(d, depth)[i] == (d[i].0, omitted(d[i].1, depth)),
    decreases d.len(),
{
    if d.len() > 0 {
        lemma_omitted_entries(d.drop_first(), depth);
        assert forall|i: int| 0 <= i < d.len() implies #[trigger] omitted_entries(d, depth)[i] == (d[i].0, omitted(d[i].1, depth)) by {
            if i > 0 {
                assert(d.drop_first()[i - 1] == d[i]);
            }
        }
    }
}

/// Cutting short each item of an array, item by item.
proof fn lemma_omitted_items(a: Seq<BsonView>, depth: nat)
    ensures
        omitted_items(a, depth).len() == a.len(),
        forall|i: int| 0 <= i < a.len() ==> #[trigger] omitted_items(a, depth)[i] == omitted(a[i], depth),
    decreases a.len(),
{
    if a.len() > 0 {
        lemma_omitted_items(a.drop_first(), depth);
        assert forall|i: int| 0 <= i < a.len() implies #[trigger] omitted_items(a, depth)[i] == omitted(a[i], depth) by {
            if i > 0 {
                assert(a.drop_first()[i - 1] == a[i]);
            }
        }
    }
}

/// The value cut short below `depth` levels, for a log line.
pub fn omit_values(value: Bson, depth: usize) -> (r: Bson)
    ensures
        r.deep() == omitted(value.deep(), depth as nat),
{
    omitted_copy(&value, depth)
}

/// A copy of the value cut short below `depth` levels.
pub fn omitted_copy(value: &Bson, depth: usize) -> (r: Bson)
    ensures
        r.deep() == omitted(value.deep(), depth as nat),
    decreases value,
{
    match value {
        Bson::Document(d) => {
            if depth == 0 {
                let mut entries: Vec<(String, Bson)> = Vec::new();
                entries.push((String::from_str("omitted"), Bson::Boolean(true)));
                proof {
                    lemma_deep_entries(entries@);
                    assert(Bson::deep_entries(entries@) =~= seq![("omitted"@, BsonView::Boolean(true))]);
                }
                return Bson::Document(entries);
            }
            let ghost dv = Bson::deep_entries(d@);
            proof {
                lemma_deep_entries(d@);
                lemma_omitted_entries(dv, (depth - 1) as nat);
            }
            let mut entries: Vec<(String, Bson)> = Vec::new();
            let mut k: usize = 0;
            while k < d.len()
                invariant
                    *value == Bson::Document(*d),
                    dv == Bson::deep_entries(d@),
                    dv.len() == d@.len(),
                    forall|i: int| 0 <= i < d@.len() ==> #[trigger] dv[i] == (d@[i].0@, d@[i].1.deep()),
                    omitted_entries(dv, (depth - 1) as nat).len() == dv.len(),
                    forall|i: int| 0 <= i < dv.len() ==> #[trigger] omitted_entries(dv, (depth - 1) as nat)[i] == (dv[i].0, omitted(dv[i].1, (depth - 1) as nat)),
                    depth > 0,
                    k <= d@.len(),
                    entries@.len() == k,
                    forall|i: int| 0 <= i < k ==> #[trigger] entries@[i].0@ == d@[i].0@ && entries@[i].1.deep() == omitted(d@[i].1.deep(), (depth - 1) as nat),
                decreases d@.len() - k,
            {
                proof {
                    let dd = (*value)->Document_0;
                    assert(decreases_to!(*value => dd));
                    assert(decreases_to!(dd => dd@));
                    assert(decreases_to!(dd@ => dd@[k as int]));
                    assert(decreases_to!(dd@[k as int] => dd@[k as int].1));
                }
                let v = omitted_copy(&d[k].1, depth - 1);
                entries.push((d[k].0.clone(), v));
                k = k + 1;
            }
            proof {
                lemma_deep_entries(entries@);
                assert(Bson::deep_entries(entries@) =~= omitted_entries(dv, (depth - 1) as nat));
            }
            Bson::Document(entries)
        },
        Bson::Array(a) => {
            if depth == 0 {
                let mut items: Vec<Bson> = Vec::new();
                items.push(Bson::String(String::from_str("omitted")));
                proof {
                    lemma_deep_items(items@);
                    assert(Bson::deep_items(items@) =~= seq![BsonView::String("omitted"@)]);
                }
                return Bson::Array(items);
            }
            let ghost av = Bson::deep_items(a@);
            proof {
                lemma_deep_items(a@);
                lemma_omitted_items(av, (depth - 1) as nat);
            }
            let mut items: Vec<Bson> = Vec::new();
            let mut k: usize = 0;
            while k < a.len()
                invariant
                    *value == Bson::Array(*a),
                    av == Bson::deep_items(a@),
                    av.len() == a@.len(),
                    forall|i: int| 0 <= i < a@.len() ==> #[trigger] av[i] == a@[i].deep(),
                    omitted_items(av, (depth - 1) as nat).len() == av.len(),
                    forall|i: int| 0 <= i < av.len() ==> #[trigger] omitted_items(av, (depth - 1) as nat)[i] == omitted(av[i], (depth - 1) as nat),
                    depth > 0,
                    k <= a@.len(),
                    items@.len() == k,
                    forall|i: int| 0 <= i < k ==> #[trigger] items@[i].deep() == omitted(a@[i].deep(), (depth - 1) as nat),
                decreases a@.len() - k,
            {
                proof {
                    let aa = (*value)->Array_0;
                    assert(decreases_to!(*value => aa));
                    assert(decreases_to!(aa => aa@));
                    assert(decreases_to!(aa@ => aa@[k as int]));
                }
                let v = omitted_copy(&a[k], depth - 1);
                items.push(v);
                k = k + 1;
            }
            proof {
                lemma_deep_items(items@);
                assert(Bson::deep_items(items@) =~= omitted_items(av, (depth - 1) as nat));
            }
            Bson::Array(items)
        },
        Bson::String(s) => Bson::String(s.clone()),
        Bson::Int32(v) => Bson::Int32(*v),
        Bson::Int64(v) => Bson::Int64(*v),
        Bson::Boolean(b) => Bson::Boolean(*b),
        Bson::Null => Bson::Null,
        Bson::Other(s) => Bson::Other(s.clone()),
    }
}

} // verus!
