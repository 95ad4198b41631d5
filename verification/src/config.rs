//! The collector's configuration: the services it may run and the pipelines that connect them.
use vstd::prelude::*;
use crate::text::str_eq;

verus! {

#[verifier::external_type_specification]
#[verifier::external_body]
pub struct ExYamlValue(serde_yaml::Value);

/// TLS settings of a connection.
#[derive(Debug, Clone, PartialEq, Eq)]
pub struct TlsConfig {
    pub insecure: Option<bool>,
}

/// Settings of an OTLP receiver.
#[derive(Debug, Clone, PartialEq, Eq)]
pub struct OtlpReceiverConfig {
    pub endpoint: String,
    pub tls: Option<TlsConfig>,
}

/// A MongoDB host to scrape.
#[derive(Debug, Clone, PartialEq, Eq)]
pub struct MongoDbHostConfig {
    pub endpoint: String,
}

/// Settings of a MongoDB receiver; durations are in nanoseconds.
#[derive(Debug, Clone, PartialEq, Eq)]
pub struct MongoDbReceiverConfig {
    pub hosts: Vec<MongoDbHostConfig>,
    pub username: Option<String>,
    pub password: Option<String>,
    pub collection_interval: Option<u128>,
    pub initial_delay: Option<u128>,
    pub tls: Option<TlsConfig>,
}

/// How much a debug exporter prints.
#[derive(Debug, Copy, Clone, Hash, PartialEq, Eq, PartialOrd, Ord)]
pub enum DebugVerbosity {
    Detailed,
}

/// Settings of a debug exporter.
#[derive(Debug, Clone, PartialEq, Eq)]
pub struct DebugExporterConfig {
    pub verbosity: Option<DebugVerbosity>,
}

/// Settings of an OTLP exporter.
#[derive(Debug, Clone, PartialEq, Eq)]
pub struct OtlpExporterConfig {
    pub endpoint: String,
    pub tls: Option<TlsConfig>,
}

/// Settings of a batch processor; the timeout is in nanoseconds.
#[derive(Debug, Clone, PartialEq, Eq)]
pub struct BatchProcessorConfig {
    /// Number of items after which a batch is sent regardless of the timeout.
    pub send_batch_size: Option<usize>,
    /// The upper limit of the batch size; 0 means no limit.
    pub send_batch_max_size: Option<usize>,
    /// Time after which a batch is sent regardless of size; 0 sends immediately.
    pub timeout: Option<u128>,
    pub metadata_keys: Vec<String>,
    pub metadata_cardinality_limit: Option<usize>,
    pub send_queue_buffer_size: Option<usize>,
}

/// The services a pipeline connects, by identifier.
#[derive(Debug, Clone, PartialEq, Eq)]
pub struct PipelineConfig {
    pub receivers: Vec<String>,
    pub processors: Vec<String>,
    pub exporters: Vec<String>,
}

/// The mathematical content of a pipeline configuration.
pub struct PipelineConfigView {
    pub receivers: Seq<Seq<char>>,
    pub processors: Seq<Seq<char>>,
    pub exporters: Seq<Seq<char>>,
}

/// The texts, as their views.
pub open spec fn strings_view(s: Seq<String>) -> Seq<Seq<char>> {
    s.map_values(|x: String| x@)
}

impl View for PipelineConfig {
    type V = PipelineConfigView;

    open spec fn view(&self) -> PipelineConfigView {
        PipelineConfigView {
            receivers: strings_view(self.receivers@),
            processors: strings_view(self.processors@),
            exporters: strings_view(self.exporters@),
        }
    }
}

/// The raw settings of services, by identifier, in the order the configuration gives them.
#[derive(Debug, Clone)]
pub struct Receivers {
    pub receivers: Vec<(String, serde_yaml::Value)>,
}

/// The raw settings of processors, by identifier.
#[derive(Debug, Clone)]
pub struct Processors {
    pub processors: Vec<(String, serde_yaml::Value)>,
}

/// The raw settings of exporters, by identifier.
#[derive(Debug, Clone)]
pub struct Exporters {
    pub exporters: Vec<(String, serde_yaml::Value)>,
}

/// The pipelines, by identifier, in the order the configuration gives them.
#[derive(Debug, Clone)]
pub struct Pipelines {
    pub pipelines: Vec<(String, PipelineConfig)>,
}

/// The service section of the configuration.
#[derive(Debug, Clone)]
pub struct Services {
    pub pipelines: Pipelines,
}

/// The whole configuration.
#[derive(Debug, Clone)]
pub struct Config {
    pub receivers: Receivers,
    pub processors: Processors,
    pub exporters: Exporters,
    pub service: Services,
}

/// The identifiers of entries, in order.
pub open spec fn entry_keys<V>(entries: Seq<(String, V)>) -> Seq<Seq<char>> {
    entries.map_values(|e: (String, V)| e.0@)
}

impl Config {
    /// Each section names each identifier once, as the keys of a map do.
    pub open spec fn wf(&self) -> bool {
        &&& entry_keys(self.receivers.receivers@).no_duplicates()
        &&& entry_keys(self.processors.processors@).no_duplicates()
        &&& entry_keys(self.exporters.exporters@).no_duplicates()
        &&& entry_keys(self.service.pipelines.pipelines@).no_duplicates()
    }

    /// Whether each section names each identifier once.
    pub fn has_unique_keys(&self) -> (r: bool)
        ensures
            r == self.wf(),
    {
        unique_keys(&self.receivers.receivers) && unique_keys(&self.processors.processors) && unique_keys(
            &self.exporters.exporters,
        ) && unique_keys(&self.service.pipelines.pipelines)
    }
}

/// Whether no identifier names two of the entries.
pub fn unique_keys<V>(entries: &Vec<(String, V)>) -> (r: bool)
    ensures
        r == entry_keys(entries@).no_duplicates(),
{
    let ghost keys = entry_keys(entries@);
    let mut i: usize = 0;
    while i < entries.len()
        invariant
            keys == entry_keys(entries@),
            i <= entries@.len(),
            forall|a: int, b: int| 0 <= a < b < i ==> keys[a] != keys[b],
        decreases entries@.len() - i,
    {
        let mut j: usize = 0;
        while j < i
            invariant
                keys == entry_keys(entries@),
                j <= i,
                i < entries@.len(),
                forall|a: int| 0 <= a < j ==> keys[a] != keys[i as int],
            decreases i - j,
        {
            assert(keys[j as int] == entries@[j as int].0@ && keys[i as int] == entries@[i as int].0@);
            if str_eq(entries[j].0.as_str(), entries[i].0.as_str()) {
                return false;
            }
            j = j + 1;
        }
        i = i + 1;
    }
    true
}

/// Taking out the entry at a position where no identifier names two entries leaves no
/// entry with its identifier, and still none named twice, as removing a key from a map does.
pub proof fn removed_key_is_gone<V>(entries: Seq<(String, V)>, i: int)
    requires
        entry_keys(entries).no_duplicates(),
        0 <= i < entries.len(),
    ensures
        entry_position(entry_keys(entries.remove(i)), entries[i].0@) is None,
        entry_keys(entries.remove(i)).no_duplicates(),
{
    let keys = entry_keys(entries);
    let rest = entry_keys(entries.remove(i));
    assert(rest =~= keys.remove(i));
    assert(keys[i] == entries[i].0@);
    assert forall|k: int| 0 <= k < rest.len() implies rest[k] != entries[i].0@ by {
        if k < i {
            assert(rest[k] == keys[k]);
            assert(keys[k] != keys[i]);
        } else {
            assert(rest[k] == keys[k + 1]);
            assert(keys[k + 1] != keys[i]);
        }
    }
    lemma_absent_has_no_position(rest, entries[i].0@);
}

/// A key that no entry has has no position.
proof fn lemma_absent_has_no_position(keys: Seq<Seq<char>>, key: Seq<char>)
    requires
        forall|k: int| 0 <= k < keys.len() ==> keys[k] != key,
    ensures
        entry_position(keys, key) is None,
    decreases keys.len(),
{
    if keys.len() > 0 {
        assert(keys[0] != key);
        lemma_absent_has_no_position(keys.drop_first(), key);
    }
}

/// The first position at which `key` identifies an entry, if any.
pub open spec fn entry_position(keys: Seq<Seq<char>>, key: Seq<char>) -> Option<int>
    decreases keys.len(),
{
    if keys.len() == 0 {
        None
    } else if keys[0] == key {
        Some(0)
    } else {
        match entry_position(keys.drop_first(), key) {
            Some(i) => Some(i + 1),
            None => None,
        }
    }
}

/// Takes out the first entry identified by `key`, as removing a key from a map does.
pub fn remove_entry(entries: &mut Vec<(String, serde_yaml::Value)>, key: &str) -> (r: Option<serde_yaml::Value>)
    ensures
        match entry_position(entry_keys(old(entries)@), key@) {
            Some(i) => r == Some(old(entries)@[i].1) && final(entries)@ == old(entries)@.remove(i),
            None => r is None && final(entries)@ == old(entries)@,
        },
{
    let ghost keys = entry_keys(entries@);
    let mut i: usize = 0;
    assert(keys.skip(0) =~= keys);
    while i < entries.len()
        invariant
            keys == entry_keys(entries@),
            entries@ == old(entries)@,
            i <= entries@.len(),
            entry_position(keys, key@) == match entry_position(keys.skip(i as int), key@) {
                Some(j) => Some(j + i),
                None => None,
            },
        decreases entries@.len() - i,
    {
        proof {
            assert(keys.skip(i as int).drop_first() =~= keys.skip(i + 1));
            assert(keys.skip(i as int)[0] == entries@[i as int].0@);
        }
        if str_eq(entries[i].0.as_str(), key) {
            assert(entry_position(keys.skip(i as int), key@) == Some(0int));
            let (_, value) = entries.remove(i);
            return Some(value);
        }
        i = i + 1;
    }
    assert(keys.skip(entries@.len() as int) =~= Seq::<Seq<char>>::empty());
    None
}

} // verus!
