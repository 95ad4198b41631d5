//! The MongoDB metrics: their data model, and how each is recorded from a server document.
use vstd::prelude::*;
use crate::attributes;
use crate::doc::{self, Bson, BsonKey, KeyView, integer_at, is_integer_error, keys_view, lookup};
use crate::version::Version;

verus! {

#[verifier::external_type_specification]
#[verifier::external_body]
pub struct ExSystemTime(std::time::SystemTime);

/// A metric could not be collected.
#[derive(Debug)]
pub enum Error {
    CollectMetric { metric: &'static str, source: doc::Error },
}

impl Error {
    /// The part of the queried path that was found, where the path was not found.
    pub fn partial_match(&self) -> (r: Option<&doc::Match>)
        ensures
            match self {
                Error::CollectMetric { source, .. } => match source.source {
                    doc::QueryError::NotFound { partial_match: Some(m) } => r matches Some(x) && *x
                        == m,
                    _ => r is None,
                },
            },
    {
        match self {
            Error::CollectMetric { source, .. } => source.source.partial_match(),
        }
    }
}

/// The storage engine a server runs.
#[derive(Debug)]
pub enum StorageEngine {
    WiredTiger,
    Other(String),
}

/// What every recorder needs besides the document it reads.
pub struct Config {
    pub database_name: Option<String>,
    pub start_time: std::time::SystemTime,
    pub time: std::time::SystemTime,
    pub storage_engine: Option<StorageEngine>,
    pub version: Version,
}

/// The value of an attribute.
#[derive(Debug)]
pub enum AttributeValue {
    String(String),
    I64(i64),
}

/// The mathematical content of an attribute value.
pub enum ValueView {
    String(Seq<char>),
    I64(i64),
}

impl View for AttributeValue {
    type V = ValueView;

    open spec fn view(&self) -> ValueView {
        match self {
            AttributeValue::String(s) => ValueView::String(s@),
            AttributeValue::I64(v) => ValueView::I64(*v),
        }
    }
}

/// An attribute: a key and a value.
#[derive(Debug)]
pub struct KeyValue {
    pub key: String,
    pub value: AttributeValue,
}

impl View for KeyValue {
    type V = (Seq<char>, ValueView);

    open spec fn view(&self) -> (Seq<char>, ValueView) {
        (self.key@, self.value@)
    }
}

impl KeyValue {
    /// An attribute whose value is a text.
    pub fn new(key: &str, value: &str) -> (r: KeyValue)
        ensures
            r@ == (key@, ValueView::String(value@)),
    {
        KeyValue { key: String::from_str(key), value: AttributeValue::String(String::from_str(value)) }
    }
}

/// The attributes as their views.
pub open spec fn attributes_view(attributes: Seq<KeyValue>) -> Seq<(Seq<char>, ValueView)> {
    attributes.map_values(|a: KeyValue| a@)
}

/// One measurement of a metric.
#[derive(Debug)]
pub struct DataPoint {
    pub attributes: Vec<KeyValue>,
    pub start_time: Option<std::time::SystemTime>,
    pub time: Option<std::time::SystemTime>,
    pub value: i64,
}

/// The mathematical content of a data point.
pub struct PointView {
    pub attributes: Seq<(Seq<char>, ValueView)>,
    pub start_time: Option<std::time::SystemTime>,
    pub time: Option<std::time::SystemTime>,
    pub value: i64,
}

impl View for DataPoint {
    type V = PointView;

    open spec fn view(&self) -> PointView {
        PointView {
            attributes: attributes_view(self.attributes@),
            start_time: self.start_time,
            time: self.time,
            value: self.value,
        }
    }
}

/// The point that a recorder adds for `value`, stamped with the times of `config`.
pub open spec fn point_at(value: i64, config: Config, attributes: Seq<(Seq<char>, ValueView)>) -> PointView {
    PointView {
        attributes,
        start_time: Some(config.start_time),
        time: Some(config.time),
        value,
    }
}

/// A data point for `value`, stamped with the times of `config`.
pub fn datapoint(value: i64, config: &Config, attributes: Vec<KeyValue>) -> (r: DataPoint)
    ensures
        r@ == point_at(value, *config, attributes_view(attributes@)),
{
    DataPoint { attributes, start_time: Some(config.start_time), time: Some(config.time), value }
}

/// Whether the values of a sum are reported as totals since the start or as changes.
#[derive(Debug, Copy, Clone, PartialEq, Eq)]
pub enum Temporality {
    Cumulative,
    Delta,
}

/// A metric whose points add up.
#[derive(Debug)]
pub struct Sum {
    pub data_points: Vec<DataPoint>,
    pub is_monotonic: bool,
    pub temporality: Temporality,
}

/// A metric whose points are current values.
#[derive(Debug)]
pub struct Gauge {
    pub data_points: Vec<DataPoint>,
}

/// The data of a metric.
#[derive(Debug)]
pub enum MetricData {
    Sum(Sum),
    Gauge(Gauge),
}

impl MetricData {
    /// The points, as their views.
    pub open spec fn points(self) -> Seq<PointView> {
        match self {
            MetricData::Sum(s) => s.data_points@.map_values(|p: DataPoint| p@),
            MetricData::Gauge(g) => g.data_points@.map_values(|p: DataPoint| p@),
        }
    }

    /// Two data of the same kind, with the same flags.
    pub open spec fn same_kind(self, other: MetricData) -> bool {
        match (self, other) {
            (MetricData::Sum(a), MetricData::Sum(b)) => a.is_monotonic == b.is_monotonic
                && a.temporality == b.temporality,
            (MetricData::Gauge(_), MetricData::Gauge(_)) => true,
            _ => false,
        }
    }

    /// Adds a point at the end.
    pub fn push(&mut self, point: DataPoint)
        ensures
            final(self).points() == old(self).points().push(point@),
            final(self).same_kind(*old(self)),
    {
        match self {
            MetricData::Sum(s) => {
                proof {
                    assert(s.data_points@.push(point).map_values(|p: DataPoint| p@) =~= s.data_points@.map_values(
                        |p: DataPoint| p@,
                    ).push(point@));
                }
                s.data_points.push(point);
            },
            MetricData::Gauge(g) => {
                proof {
                    assert(g.data_points@.push(point).map_values(|p: DataPoint| p@) =~= g.data_points@.map_values(
                        |p: DataPoint| p@,
                    ).push(point@));
                }
                g.data_points.push(point);
            },
        }
    }

    /// Takes the points out, leaving none; the data returned has the same kind and flags.
    pub fn take(&mut self) -> (r: MetricData)
        ensures
            r.points() == old(self).points(),
            r.same_kind(*old(self)),
            final(self).points() == Seq::<PointView>::empty(),
            final(self).same_kind(*old(self)),
    {
        match self {
            MetricData::Sum(s) => {
                let mut points: Vec<DataPoint> = Vec::new();
                std::mem::swap(&mut points, &mut s.data_points);
                proof {
                    assert(s.data_points@.map_values(|p: DataPoint| p@) =~= Seq::<PointView>::empty());
                }
                MetricData::Sum(
                    Sum { data_points: points, is_monotonic: s.is_monotonic, temporality: s.temporality },
                )
            },
            MetricData::Gauge(g) => {
                let mut points: Vec<DataPoint> = Vec::new();
                std::mem::swap(&mut points, &mut g.data_points);
                proof {
                    assert(g.data_points@.map_values(|p: DataPoint| p@) =~= Seq::<PointView>::empty());
                }
                MetricData::Gauge(Gauge { data_points: points })
            },
        }
    }
}

/// A metric as it is emitted: its name, description, unit and data.
#[derive(Debug)]
pub struct Metric {
    pub name: String,
    pub description: String,
    pub unit: String,
    pub data: MetricData,
}

/// Counting the data points of a metric.
pub trait NumDatapoints {
    fn num_datapoints(&self) -> Option<usize>;
}

impl NumDatapoints for Metric {
    fn num_datapoints(&self) -> (r: Option<usize>)
        ensures
            r == Some(self.data.points().len() as usize),
    {
        match &self.data {
            MetricData::Sum(s) => Some(s.data_points.len()),
            MetricData::Gauge(g) => Some(g.data_points.len()),
        }
    }
}

/// The attributes of the data points of a metric.
pub trait MetricAttributes {
    fn attributes(&self) -> Vec<&Vec<KeyValue>>;
}

impl MetricAttributes for Metric {
    fn attributes(&self) -> (r: Vec<&Vec<KeyValue>>)
        ensures
            r@.len() == self.data.points().len(),
            forall|i: int| 0 <= i < r@.len() ==> attributes_view((#[trigger] r@[i])@) == self.data.points()[i].attributes,
    {
        let points = match &self.data {
            MetricData::Sum(s) => &s.data_points,
            MetricData::Gauge(g) => &g.data_points,
        };
        let mut r: Vec<&Vec<KeyValue>> = Vec::new();
        let mut i: usize = 0;
        while i < points.len()
            invariant
                i <= points@.len(),
                points@.map_values(|p: DataPoint| p@) == self.data.points(),
                r@.len() == i,
                forall|k: int| 0 <= k < i ==> attributes_view((#[trigger] r@[k])@) == points@[k]@.attributes,
            decreases points@.len() - i,
        {
            r.push(&points[i].attributes);
            i = i + 1;
        }
        r
    }
}

/// The name, description and unit of a metric.
#[derive(Debug)]
pub struct Descriptor {
    /// The name of the instrument that created this data.
    pub name: &'static str,
    /// The description of the instrument, which can be used in documentation.
    pub description: &'static str,
    /// The unit in which the instrument reports.
    pub unit: &'static str,
}

/// A metric being recorded: its descriptor and the points recorded so far.
#[derive(Debug)]
pub struct MongoMetric {
    pub descriptor: Descriptor,
    pub data: MetricData,
}

impl MongoMetric {
    /// An empty, non-monotonic, cumulative sum.
    pub fn sum(descriptor: Descriptor) -> (r: MongoMetric)
        ensures
            r.descriptor == descriptor,
            r.data matches MetricData::Sum(s) && !s.is_monotonic && s.temporality
                == Temporality::Cumulative,
            r.data.points() == Seq::<PointView>::empty(),
    {
        let r = MongoMetric {
            descriptor,
            data: MetricData::Sum(
                Sum { data_points: Vec::new(), is_monotonic: false, temporality: Temporality::Cumulative },
            ),
        };
        assert(r.data.points() =~= Seq::<PointView>::empty());
        r
    }

    /// An empty gauge.
    pub fn gauge(descriptor: Descriptor) -> (r: MongoMetric)
        ensures
            r.descriptor == descriptor,
            r.data is Gauge,
            r.data.points() == Seq::<PointView>::empty(),
    {
        let r = MongoMetric { descriptor, data: MetricData::Gauge(Gauge { data_points: Vec::new() }) };
        assert(r.data.points() =~= Seq::<PointView>::empty());
        r
    }

    /// Emits the points recorded so far as a metric, and starts over with none.
    pub fn emit(&mut self) -> (r: Metric)
        ensures
            r.name@ == old(self).descriptor.name@,
            r.description@ == old(self).descriptor.description@,
            r.unit@ == old(self).descriptor.unit@,
            r.data.points() == old(self).data.points(),
            r.data.same_kind(old(self).data),
            final(self).descriptor == old(self).descriptor,
            final(self).data.points() == Seq::<PointView>::empty(),
            final(self).data.same_kind(old(self).data),
    {
        Metric {
            name: String::from_str(self.descriptor.name),
            description: String::from_str(self.descriptor.description),
            unit: String::from_str(self.descriptor.unit),
            data: self.data.take(),
        }
    }
}


/// An integer to read at a path of a document, with the attributes of the point it gives.
pub struct Reading<'a> {
    pub path: Vec<BsonKey<'a>>,
    pub attributes: Vec<(&'a str, &'a str)>,
}

/// The text attributes as their views.
pub open spec fn text_attributes<'a>(attributes: Seq<(&'a str, &'a str)>) -> Seq<(Seq<char>, ValueView)> {
    attributes.map_values(|a: (&'a str, &'a str)| (a.0@, ValueView::String(a.1@)))
}

impl<'a> View for Reading<'a> {
    type V = (Seq<KeyView>, Seq<(Seq<char>, ValueView)>);

    open spec fn view(&self) -> (Seq<KeyView>, Seq<(Seq<char>, ValueView)>) {
        (keys_view(self.path@), text_attributes(self.attributes@))
    }
}

/// The readings as their views.
pub open spec fn readings_view<'a>(readings: Seq<Reading<'a>>) -> Seq<(Seq<KeyView>, Seq<(Seq<char>, ValueView)>)> {
    readings.map_values(|r: Reading<'a>| r@)
}

/// The points that the readings give: one for each reading whose path leads to an
/// integer, in order, with that integer times `factor`.
pub open spec fn read_points(
    doc: Bson,
    readings: Seq<(Seq<KeyView>, Seq<(Seq<char>, ValueView)>)>,
    factor: int,
    config: Config,
) -> Seq<PointView>
    decreases readings.len(),
{
    if readings.len() == 0 {
        Seq::empty()
    } else {
        let r = readings.last();
        read_points(doc, readings.drop_last(), factor, config) + match integer_at(doc, r.0) {
            Some(v) => seq![point_at((v * factor) as i64, config, r.1)],
            None => Seq::empty(),
        }
    }
}

/// The paths of the readings that fail and are reported, in order: those that do not
/// lead to an integer, leaving out those not found at all when `skip_missing` holds.
pub open spec fn read_failures(
    doc: Bson,
    readings: Seq<(Seq<KeyView>, Seq<(Seq<char>, ValueView)>)>,
    skip_missing: bool,
) -> Seq<Seq<KeyView>>
    decreases readings.len(),
{
    if readings.len() == 0 {
        Seq::empty()
    } else {
        let r = readings.last();
        read_failures(doc, readings.drop_last(), skip_missing) + if integer_at(doc, r.0) is None && (
        !skip_missing || lookup(doc, r.0) is Some) {
            seq![r.0]
        } else {
            Seq::empty()
        }
    }
}

/// Every integer that the readings find, times `factor`, fits in an `i64`.
pub open spec fn readings_fit(
    doc: Bson,
    readings: Seq<(Seq<KeyView>, Seq<(Seq<char>, ValueView)>)>,
    factor: int,
) -> bool {
    forall|i: int|
        #![trigger readings[i]]
        0 <= i < readings.len() ==> match integer_at(doc, readings[i].0) {
            Some(v) => i64::MIN <= v * factor <= i64::MAX,
            None => true,
        }
}

/// `e` says that `metric` could not be collected from the integer at `path` of `doc`.
pub open spec fn is_collect_error(e: Error, metric: Seq<char>, doc: Bson, path: Seq<KeyView>) -> bool {
    &&& e matches Error::CollectMetric { metric: name, source }
    &&& name@ == metric
    &&& is_integer_error(doc, path, source)
}

/// `new` is `old` followed by one collect error of `metric` for each failing path, in order.
pub open spec fn errors_recorded(
    old: Seq<Error>,
    new: Seq<Error>,
    metric: Seq<char>,
    doc: Bson,
    failures: Seq<Seq<KeyView>>,
) -> bool {
    &&& new.len() == old.len() + failures.len()
    &&& new.take(old.len() as int) == old
    &&& forall|j: int|
        #![trigger failures[j]]
        0 <= j < failures.len() ==> is_collect_error(new[old.len() + j], metric, doc, failures[j])
}

/// Attributes with text values.
pub fn text_attribute_values(attributes: &Vec<(&str, &str)>) -> (r: Vec<KeyValue>)
    ensures
        attributes_view(r@) == text_attributes(attributes@),
{
    let mut r: Vec<KeyValue> = Vec::new();
    let mut i: usize = 0;
    while i < attributes.len()
        invariant
            i <= attributes@.len(),
            attributes_view(r@) == text_attributes(attributes@.take(i as int)),
        decreases attributes@.len() - i,
    {
        let kv = KeyValue::new(attributes[i].0, attributes[i].1);
        proof {
            assert(r@.push(kv).map_values(|a: KeyValue| a@) =~= r@.map_values(|a: KeyValue| a@).push(kv@));
            assert(attributes@.take(i + 1) =~= attributes@.take(i as int).push(attributes@[i as int]));
            assert(text_attributes(attributes@.take(i + 1)) =~= text_attributes(attributes@.take(i as int)).push(
                (attributes@[i as int].0@, ValueView::String(attributes@[i as int].1@)),
            ));
        }
        r.push(kv);
        i = i + 1;
    }
    assert(attributes@.take(attributes@.len() as int) =~= attributes@);
    r
}

impl MongoMetric {
    /// Reads each reading in turn: a point for each integer found, times `factor`; a
    /// collect error for each path that fails, except paths not found at all when
    /// `skip_missing` holds.
    pub fn record_readings(
        &mut self,
        doc: &Bson,
        readings: &Vec<Reading>,
        factor: i64,
        skip_missing: bool,
        config: &Config,
        errors: &mut Vec<Error>,
    )
        requires
            readings_fit(*doc, readings_view(readings@), factor as int),
        ensures
            final(self).descriptor == old(self).descriptor,
            final(self).data.same_kind(old(self).data),
            final(self).data.points() == old(self).data.points() + read_points(
                *doc,
                readings_view(readings@),
                factor as int,
                *config,
            ),
            errors_recorded(
                old(errors)@,
                final(errors)@,
                old(self).descriptor.name@,
                *doc,
                read_failures(*doc, readings_view(readings@), skip_missing),
            ),
    {
        let ghost rv = readings_view(readings@);
        let ghost old_points = self.data.points();
        let ghost old_errors = errors@;
        let ghost old_data = self.data;
        let mut i: usize = 0;
        proof {
            assert(rv.take(0) =~= Seq::<(Seq<KeyView>, Seq<(Seq<char>, ValueView)>)>::empty());
            assert(errors@.take(old_errors.len() as int) =~= old_errors);
        }
        while i < readings.len()
            invariant
                rv == readings_view(readings@),
                readings_fit(*doc, rv, factor as int),
                i <= readings@.len(),
                self.descriptor == old(self).descriptor,
                self.data.same_kind(old_data),
                old_data == old(self).data,
                old_points == old_data.points(),
                old_errors == old(errors)@,
                self.data.points() == old_points + read_points(*doc, rv.take(i as int), factor as int, *config),
                errors_recorded(
                    old_errors,
                    errors@,
                    self.descriptor.name@,
                    *doc,
                    read_failures(*doc, rv.take(i as int), skip_missing),
                ),
            decreases readings@.len() - i,
        {
            let ghost prev_errors = errors@;
            let ghost prev_points = self.data.points();
            proof {
                assert(rv.take(i + 1).drop_last() =~= rv.take(i as int));
                assert(rv.take(i + 1).last() == rv[i as int]);
                assert(rv[i as int] == readings@[i as int]@);
            }
            let reading = &readings[i];
            match doc::get_i64(doc, reading.path.as_slice()) {
                Ok(v) => {
                    proof {
                        assert(readings_fit(*doc, rv, factor as int));
                        assert(rv[i as int].0 == keys_view(reading.path@));
                    }
                    let attributes = text_attribute_values(&reading.attributes);
                    let point = datapoint(v * factor, config, attributes);
                    self.data.push(point);
                    proof {
                        assert(self.data.points() =~= old_points + read_points(
                            *doc,
                            rv.take(i + 1),
                            factor as int,
                            *config,
                        ));
                        assert(read_failures(*doc, rv.take(i + 1), skip_missing) =~= read_failures(
                            *doc,
                            rv.take(i as int),
                            skip_missing,
                        ));
                    }
                },
                Err(e) => {
                    let skip = skip_missing && match &e.source {
                        doc::QueryError::NotFound { .. } => true,
                        doc::QueryError::InvalidType(_) => false,
                    };
                    if !skip {
                        errors.push(Error::CollectMetric { metric: self.descriptor.name, source: e });
                        proof {
                            let f = read_failures(*doc, rv.take(i + 1), skip_missing);
                            let f0 = read_failures(*doc, rv.take(i as int), skip_missing);
                            assert(f =~= f0.push(keys_view(reading.path@)));
                            assert(errors@.take(old_errors.len() as int) =~= prev_errors.take(
                                old_errors.len() as int,
                            ));
                            assert forall|j: int| #![trigger f[j]] 0 <= j < f.len() implies is_collect_error(
                                errors@[old_errors.len() + j],
                                self.descriptor.name@,
                                *doc,
                                f[j],
                            ) by {
                                if j < f0.len() {
                                    assert(f[j] == f0[j]);
                                    assert(errors@[old_errors.len() + j] == prev_errors[old_errors.len() + j]);
                                }
                            }
                        }
                    } else {
                        proof {
                            assert(read_failures(*doc, rv.take(i + 1), skip_missing) =~= read_failures(
                                *doc,
                                rv.take(i as int),
                                skip_missing,
                            ));
                        }
                    }
                    proof {
                        assert(self.data.points() =~= old_points + read_points(
                            *doc,
                            rv.take(i + 1),
                            factor as int,
                            *config,
                        ));
                    }
                },
            }
            i = i + 1;
        }
        assert(rv.take(readings@.len() as int) =~= rv);
    }
}


/// The content of a reading: its path and the attributes of its point.
pub type ReadingView = (Seq<KeyView>, Seq<(Seq<char>, ValueView)>);

/// `m` is a new, empty sum with this descriptor, monotonic or not, cumulative.
pub open spec fn is_new_sum(
    m: MongoMetric,
    name: Seq<char>,
    description: Seq<char>,
    unit: Seq<char>,
    monotonic: bool,
) -> bool {
    &&& m.descriptor.name@ == name
    &&& m.descriptor.description@ == description
    &&& m.descriptor.unit@ == unit
    &&& m.data matches MetricData::Sum(s) && s.is_monotonic == monotonic && s.temporality
        == Temporality::Cumulative
    &&& m.data.points() == Seq::<PointView>::empty()
}

/// `m` is a new, empty gauge with this descriptor.
pub open spec fn is_new_gauge(m: MongoMetric, name: Seq<char>, description: Seq<char>, unit: Seq<char>) -> bool {
    &&& m.descriptor.name@ == name
    &&& m.descriptor.description@ == description
    &&& m.descriptor.unit@ == unit
    &&& m.data is Gauge
    &&& m.data.points() == Seq::<PointView>::empty()
}

/// `r` is the metric emitted from `old`, which is left as `new`: same descriptor and
/// kind, no points.
pub open spec fn emitted(old: MongoMetric, new: MongoMetric, r: Metric) -> bool {
    &&& r.name@ == old.descriptor.name@
    &&& r.description@ == old.descriptor.description@
    &&& r.unit@ == old.descriptor.unit@
    &&& r.data.points() == old.data.points()
    &&& r.data.same_kind(old.data)
    &&& new.descriptor == old.descriptor
    &&& new.data.points() == Seq::<PointView>::empty()
    &&& new.data.same_kind(old.data)
}

/// Emitting hands out every point recorded since the last emission, once: a metric emitted
/// twice in a row gives no point the second time, and keeps its name and kind.
pub proof fn emit_hands_out_points_once(m0: MongoMetric, m1: MongoMetric, m2: MongoMetric, r1: Metric, r2: Metric)
    requires
        emitted(m0, m1, r1),
        emitted(m1, m2, r2),
    ensures
        r1.data.points() == m0.data.points(),
        r2.data.points() == Seq::<PointView>::empty(),
        r2.name@ == r1.name@,
        m2.descriptor == m0.descriptor,
{
}

/// Recording the readings from `doc` took `old` to `new`: the points of the readings that
/// succeed were added in order, and one error was added for each reported failure.
pub open spec fn recorded(
    old: MongoMetric,
    new: MongoMetric,
    old_errors: Seq<Error>,
    new_errors: Seq<Error>,
    doc: Bson,
    readings: Seq<ReadingView>,
    factor: int,
    skip_missing: bool,
    config: Config,
) -> bool {
    &&& new.descriptor == old.descriptor
    &&& new.data.same_kind(old.data)
    &&& new.data.points() == old.data.points() + read_points(doc, readings, factor, config)
    &&& errors_recorded(
        old_errors,
        new_errors,
        old.descriptor.name@,
        doc,
        read_failures(doc, readings, skip_missing),
    )
}

/// Nothing was recorded: the metric and the errors are as they were.
pub open spec fn unchanged(old: MongoMetric, new: MongoMetric, old_errors: Seq<Error>, new_errors: Seq<Error>) -> bool {
    &&& new.descriptor == old.descriptor
    &&& new.data.same_kind(old.data)
    &&& new.data.points() == old.data.points()
    &&& new_errors == old_errors
}

impl MetricData {
    /// Marks a sum as monotonic or not; a gauge has no such flag.
    pub fn set_monotonic(&mut self, monotonic: bool)
        ensures
            final(self).points() == old(self).points(),
            match (*old(self), *final(self)) {
                (MetricData::Sum(a), MetricData::Sum(b)) => b.is_monotonic == monotonic
                    && b.temporality == a.temporality,
                (MetricData::Gauge(_), MetricData::Gauge(_)) => true,
                _ => false,
            },
    {
        match self {
            MetricData::Sum(s) => {
                s.is_monotonic = monotonic;
            },
            MetricData::Gauge(_) => {},
        }
    }
}

/// Recording a metric from a server document.
pub trait Record: EmitMetric {
    fn record(&mut self, server_status: &Bson, config: &Config, errors: &mut Vec<Error>);
}

/// Emitting the points recorded so far.
pub trait EmitMetric {
    fn emit(&mut self) -> Metric;
}

/// The reading of a lock metric for one lock type and mode.
pub open spec fn lock_reading(t: LockType, m: LockMode, key: Seq<char>) -> ReadingView {
    (
        seq![KeyView::Key("locks"@), KeyView::Key(t.spec_name()), KeyView::Key(key), KeyView::Key(m.spec_name())],
        seq![
            ("lock_type"@, ValueView::String(t.spec_attribute().spec_name())),
            ("lock_mode"@, ValueView::String(m.spec_attribute().spec_name())),
        ],
    )
}

/// The readings of a lock metric for one lock type: one per mode.
pub open spec fn lock_mode_readings(t: LockType, key: Seq<char>) -> Seq<ReadingView> {
    LockMode::all().map_values(|m: LockMode| lock_reading(t, m, key))
}

/// The readings of a lock metric: for each lock type that `version` supports, in order,
/// one per mode.
pub open spec fn lock_readings(types: Seq<LockType>, key: Seq<char>, version: Version) -> Seq<ReadingView>
    decreases types.len(),
{
    if types.len() == 0 {
        Seq::empty()
    } else {
        lock_readings(types.drop_last(), key, version) + if types.last().spec_supported(version) {
            lock_mode_readings(types.last(), key)
        } else {
            Seq::empty()
        }
    }
}

/// Recording a lock metric: nothing before version 3.2.0; otherwise its readings, where a
/// lock that the server does not report is no error.
pub open spec fn lock_recorded(
    old: MongoMetric,
    new: MongoMetric,
    old_errors: Seq<Error>,
    new_errors: Seq<Error>,
    doc: Bson,
    key: Seq<char>,
    config: Config,
) -> bool {
    if config.version.below(3, 2, 0) {
        unchanged(old, new, old_errors, new_errors)
    } else {
        recorded(
            old,
            new,
            old_errors,
            new_errors,
            doc,
            lock_readings(LockType::all(), key, config.version),
            1,
            true,
            config,
        )
    }
}

fn lock_reading_list<'a>(key: &'a str, version: &Version) -> (r: Vec<Reading<'a>>)
    ensures
        readings_view(r@) == lock_readings(LockType::all(), key@, *version),
{
    let types = LockType::iter();
    let modes = LockMode::iter();
    let mut r: Vec<Reading<'a>> = Vec::new();
    let mut i: usize = 0;
    assert(types@.take(0) =~= Seq::<LockType>::empty());
    while i < types.len()
        invariant
            types@ == LockType::all(),
            modes@ == LockMode::all(),
            i <= types@.len(),
            readings_view(r@) == lock_readings(types@.take(i as int), key@, *version),
        decreases types@.len() - i,
    {
        let t = types[i];
        proof {
            assert(types@.take(i + 1).drop_last() =~= types@.take(i as int));
            assert(types@.take(i + 1).last() == t);
        }
        if t.supported(version) {
            let ghost base = readings_view(r@);
            let mut j: usize = 0;
            while j < modes.len()
                invariant
                    modes@ == LockMode::all(),
                    j <= modes@.len(),
                    readings_view(r@) == base + modes@.take(j as int).map_values(
                        |m: LockMode| lock_reading(t, m, key@),
                    ),
                decreases modes@.len() - j,
            {
                let m = modes[j];
                let reading = Reading {
                    path: vec![
                        BsonKey::KeyStr("locks"),
                        BsonKey::KeyStr(t.as_str()),
                        BsonKey::KeyStr(key),
                        BsonKey::KeyStr(m.as_str()),
                    ],
                    attributes: vec![("lock_type", t.attribute().as_str()), ("lock_mode", m.attribute().as_str())],
                };
                proof {
                    assert(keys_view(reading.path@) =~= lock_reading(t, m, key@).0);
                    assert(text_attributes(reading.attributes@) =~= lock_reading(t, m, key@).1);
                    assert(readings_view(r@.push(reading)) =~= readings_view(r@).push(reading@));
                    assert(modes@.take(j + 1) =~= modes@.take(j as int).push(m));
                    assert(modes@.take(j + 1).map_values(|m: LockMode| lock_reading(t, m, key@))
                        =~= modes@.take(j as int).map_values(|m: LockMode| lock_reading(t, m, key@)).push(
                        lock_reading(t, m, key@),
                    ));
                }
                r.push(reading);
                j = j + 1;
            }
            assert(modes@.take(modes@.len() as int) =~= modes@);
        } else {
            assert(readings_view(r@) =~= lock_readings(types@.take(i + 1), key@, *version));
        }
        i = i + 1;
    }
    assert(types@.take(types@.len() as int) =~= types@);
    r
}

/// Records a lock metric under `key`: nothing before version 3.2.0; otherwise one point
/// per supported lock type and mode that the server reports.
fn record_lock_metric(stats: &Bson, key: &str, config: &Config, metric: &mut MongoMetric, errors: &mut Vec<Error>)
    ensures
        lock_recorded(*old(metric), *final(metric), old(errors)@, final(errors)@, *stats, key@, *config),
{
    if config.version.is_below(3, 2, 0) {
        // lock metrics are only reported from version 3.2 on
        return;
    }
    let readings = lock_reading_list(key, &config.version);
    metric.record_readings(stats, &readings, 1, true, config, errors);
}
/// The kinds of connection the server reports.
#[derive(Debug, Copy, Clone, Hash, PartialEq, Eq, PartialOrd, Ord)]
pub enum ConnectionType {
    Active,
    Available,
    Current,
}

impl ConnectionType {
    /// Every value, in declaration order.
    pub open spec fn all() -> Seq<ConnectionType> {
        seq![ConnectionType::Active, ConnectionType::Available, ConnectionType::Current]
    }

    /// Every value, in declaration order.
    pub fn iter() -> (r: Vec<ConnectionType>)
        ensures
            r@ == ConnectionType::all(),
    {
        let mut r: Vec<ConnectionType> = Vec::new();
        r.push(ConnectionType::Active);
        r.push(ConnectionType::Available);
        r.push(ConnectionType::Current);
        assert(r@ =~= ConnectionType::all());
        r
    }

    /// The key under which the server reports the value.
    pub open spec fn spec_name(self) -> Seq<char> {
        match self {
            ConnectionType::Active => "active"@,
            ConnectionType::Available => "available"@,
            ConnectionType::Current => "current"@,
        }
    }

    /// The key under which the server reports the value.
    pub fn as_str(&self) -> (r: &'static str)
        ensures
            r@ == self.spec_name(),
    {
        match self {
            ConnectionType::Active => "active",
            ConnectionType::Available => "available",
            ConnectionType::Current => "current",
        }
    }

    /// The attribute value that stands for this value on a metric.
    pub open spec fn spec_attribute(self) -> attributes::ConnectionType {
        match self {
            ConnectionType::Active => attributes::ConnectionType::Active,
            ConnectionType::Available => attributes::ConnectionType::Available,
            ConnectionType::Current => attributes::ConnectionType::Current,
        }
    }

    /// The attribute value that stands for this value on a metric.
    pub fn attribute(&self) -> (r: attributes::ConnectionType)
        ensures
            r == self.spec_attribute(),
    {
        match self {
            ConnectionType::Active => attributes::ConnectionType::Active,
            ConnectionType::Available => attributes::ConnectionType::Available,
            ConnectionType::Current => attributes::ConnectionType::Current,
        }
    }
}

/// The kinds of operation the server counts.
#[derive(Debug, Copy, Clone, Hash, PartialEq, Eq, PartialOrd, Ord)]
pub enum Operation {
    Insert,
    Query,
    Update,
    Delete,
    Getmore,
    Command,
}

impl Operation {
    /// Every value, in declaration order.
    pub open spec fn all() -> Seq<Operation> {
        seq![Operation::Insert, Operation::Query, Operation::Update, Operation::Delete, Operation::Getmore, Operation::Command]
    }

    /// Every value, in declaration order.
    pub fn iter() -> (r: Vec<Operation>)
        ensures
            r@ == Operation::all(),
    {
        let mut r: Vec<Operation> = Vec::new();
        r.push(Operation::Insert);
        r.push(Operation::Query);
        r.push(Operation::Update);
        r.push(Operation::Delete);
        r.push(Operation::Getmore);
        r.push(Operation::Command);
        assert(r@ =~= Operation::all());
        r
    }

    /// The key under which the server reports the value.
    pub open spec fn spec_name(self) -> Seq<char> {
        match self {
            Operation::Insert => "insert"@,
            Operation::Query => "query"@,
            Operation::Update => "update"@,
            Operation::Delete => "delete"@,
            Operation::Getmore => "getmore"@,
            Operation::Command => "command"@,
        }
    }

    /// The key under which the server reports the value.
    pub fn as_str(&self) -> (r: &'static str)
        ensures
            r@ == self.spec_name(),
    {
        match self {
            Operation::Insert => "insert",
            Operation::Query => "query",
            Operation::Update => "update",
            Operation::Delete => "delete",
            Operation::Getmore => "getmore",
            Operation::Command => "command",
        }
    }

    /// The attribute value that stands for this value on a metric.
    pub open spec fn spec_attribute(self) -> attributes::Operation {
        match self {
            Operation::Insert => attributes::Operation::Insert,
            Operation::Query => attributes::Operation::Query,
            Operation::Update => attributes::Operation::Update,
            Operation::Delete => attributes::Operation::Delete,
            Operation::Getmore => attributes::Operation::Getmore,
            Operation::Command => attributes::Operation::Command,
        }
    }

    /// The attribute value that stands for this value on a metric.
    pub fn attribute(&self) -> (r: attributes::Operation)
        ensures
            r == self.spec_attribute(),
    {
        match self {
            Operation::Insert => attributes::Operation::Insert,
            Operation::Query => attributes::Operation::Query,
            Operation::Update => attributes::Operation::Update,
            Operation::Delete => attributes::Operation::Delete,
            Operation::Getmore => attributes::Operation::Getmore,
            Operation::Command => attributes::Operation::Command,
        }
    }
}

/// The lock modes, by the keys under which the server reports them.
#[derive(Debug, Copy, Clone, Hash, PartialEq, Eq, PartialOrd, Ord)]
pub enum LockMode {
    Shared,
    Exclusive,
    IntentShared,
    IntentExclusive,
}

impl LockMode {
    /// Every value, in declaration order.
    pub open spec fn all() -> Seq<LockMode> {
        seq![LockMode::Shared, LockMode::Exclusive, LockMode::IntentShared, LockMode::IntentExclusive]
    }

    /// Every value, in declaration order.
    pub fn iter() -> (r: Vec<LockMode>)
        ensures
            r@ == LockMode::all(),
    {
        let mut r: Vec<LockMode> = Vec::new();
        r.push(LockMode::Shared);
        r.push(LockMode::Exclusive);
        r.push(LockMode::IntentShared);
        r.push(LockMode::IntentExclusive);
        assert(r@ =~= LockMode::all());
        r
    }

    /// The key under which the server reports the value.
    pub open spec fn spec_name(self) -> Seq<char> {
        match self {
            LockMode::Shared => "R"@,
            LockMode::Exclusive => "W"@,
            LockMode::IntentShared => "r"@,
            LockMode::IntentExclusive => "w"@,
        }
    }

    /// The key under which the server reports the value.
    pub fn as_str(&self) -> (r: &'static str)
        ensures
            r@ == self.spec_name(),
    {
        match self {
            LockMode::Shared => "R",
            LockMode::Exclusive => "W",
            LockMode::IntentShared => "r",
            LockMode::IntentExclusive => "w",
        }
    }

    /// The attribute value that stands for this value on a metric.
    pub open spec fn spec_attribute(self) -> attributes::LockMode {
        match self {
            LockMode::Shared => attributes::LockMode::Shared,
            LockMode::Exclusive => attributes::LockMode::Exclusive,
            LockMode::IntentShared => attributes::LockMode::IntentShared,
            LockMode::IntentExclusive => attributes::LockMode::IntentExclusive,
        }
    }

    /// The attribute value that stands for this value on a metric.
    pub fn attribute(&self) -> (r: attributes::LockMode)
        ensures
            r == self.spec_attribute(),
    {
        match self {
            LockMode::Shared => attributes::LockMode::Shared,
            LockMode::Exclusive => attributes::LockMode::Exclusive,
            LockMode::IntentShared => attributes::LockMode::IntentShared,
            LockMode::IntentExclusive => attributes::LockMode::IntentExclusive,
        }
    }
}

/// The lock types, by the keys under which the server reports them.
#[derive(Debug, Copy, Clone, Hash, PartialEq, Eq, PartialOrd, Ord)]
pub enum LockType {
    ParallelBatchWriteMode,
    ReplicationStateTransition,
    Global,
    Database,
    Collection,
    Mutex,
    Metadata,
    Oplog,
}

impl LockType {
    /// Every value, in declaration order.
    pub open spec fn all() -> Seq<LockType> {
        seq![LockType::ParallelBatchWriteMode, LockType::ReplicationStateTransition, LockType::Global, LockType::Database, LockType::Collection, LockType::Mutex, LockType::Metadata, LockType::Oplog]
    }

    /// Every value, in declaration order.
    pub fn iter() -> (r: Vec<LockType>)
        ensures
            r@ == LockType::all(),
    {
        let mut r: Vec<LockType> = Vec::new();
        r.push(LockType::ParallelBatchWriteMode);
        r.push(LockType::ReplicationStateTransition);
        r.push(LockType::Global);
        r.push(LockType::Database);
        r.push(LockType::Collection);
        r.push(LockType::Mutex);
        r.push(LockType::Metadata);
        r.push(LockType::Oplog);
        assert(r@ =~= LockType::all());
        r
    }

    /// The key under which the server reports the value.
    pub open spec fn spec_name(self) -> Seq<char> {
        match self {
            LockType::ParallelBatchWriteMode => "ParallelBatchWriterMode"@,
            LockType::ReplicationStateTransition => "ReplicationStateTransition"@,
            LockType::Global => "Global"@,
            LockType::Database => "Database"@,
            LockType::Collection => "Collection"@,
            LockType::Mutex => "Mutex"@,
            LockType::Metadata => "Metadata"@,
            LockType::Oplog => "oplog"@,
        }
    }

    /// The key under which the server reports the value.
    pub fn as_str(&self) -> (r: &'static str)
        ensures
            r@ == self.spec_name(),
    {
        match self {
            LockType::ParallelBatchWriteMode => "ParallelBatchWriterMode",
            LockType::ReplicationStateTransition => "ReplicationStateTransition",
            LockType::Global => "Global",
            LockType::Database => "Database",
            LockType::Collection => "Collection",
            LockType::Mutex => "Mutex",
            LockType::Metadata => "Metadata",
            LockType::Oplog => "oplog",
        }
    }

    /// The attribute value that stands for this value on a metric.
    pub open spec fn spec_attribute(self) -> attributes::LockType {
        match self {
            LockType::ParallelBatchWriteMode => attributes::LockType::ParallelBatchWriteMode,
            LockType::ReplicationStateTransition => attributes::LockType::ReplicationStateTransition,
            LockType::Global => attributes::LockType::Global,
            LockType::Database => attributes::LockType::Database,
            LockType::Collection => attributes::LockType::Collection,
            LockType::Mutex => attributes::LockType::Mutex,
            LockType::Metadata => attributes::LockType::Metadata,
            LockType::Oplog => attributes::LockType::Oplog,
        }
    }

    /// The attribute value that stands for this value on a metric.
    pub fn attribute(&self) -> (r: attributes::LockType)
        ensures
            r == self.spec_attribute(),
    {
        match self {
            LockType::ParallelBatchWriteMode => attributes::LockType::ParallelBatchWriteMode,
            LockType::ReplicationStateTransition => attributes::LockType::ReplicationStateTransition,
            LockType::Global => attributes::LockType::Global,
            LockType::Database => attributes::LockType::Database,
            LockType::Collection => attributes::LockType::Collection,
            LockType::Mutex => attributes::LockType::Mutex,
            LockType::Metadata => attributes::LockType::Metadata,
            LockType::Oplog => attributes::LockType::Oplog,
        }
    }

    /// Whether the server reports this lock: the parallel batch writer mode and the
    /// replication state transition locks exist from version 4.2.0 on.
    pub open spec fn spec_supported(self, version: Version) -> bool {
        !((self == LockType::ParallelBatchWriteMode || self == LockType::ReplicationStateTransition)
            && version.below(4, 2, 0))
    }

    /// Whether the server reports this lock.
    pub fn supported(&self, version: &Version) -> (r: bool)
        ensures
            r == self.spec_supported(*version),
    {
        match self {
            LockType::ParallelBatchWriteMode | LockType::ReplicationStateTransition => !version.is_below(4, 2, 0),
            _ => true,
        }
    }
}

/// The kinds of memory the server reports.
#[derive(Debug, Copy, Clone, Hash, PartialEq, Eq, PartialOrd, Ord)]
pub enum MemoryType {
    Resident,
    Virtual,
}

impl MemoryType {
    /// Every value, in declaration order.
    pub open spec fn all() -> Seq<MemoryType> {
        seq![MemoryType::Resident, MemoryType::Virtual]
    }

    /// Every value, in declaration order.
    pub fn iter() -> (r: Vec<MemoryType>)
        ensures
            r@ == MemoryType::all(),
    {
        let mut r: Vec<MemoryType> = Vec::new();
        r.push(MemoryType::Resident);
        r.push(MemoryType::Virtual);
        assert(r@ =~= MemoryType::all());
        r
    }

    /// The key under which the server reports the value.
    pub open spec fn spec_name(self) -> Seq<char> {
        match self {
            MemoryType::Resident => "resident"@,
            MemoryType::Virtual => "virtual"@,
        }
    }

    /// The key under which the server reports the value.
    pub fn as_str(&self) -> (r: &'static str)
        ensures
            r@ == self.spec_name(),
    {
        match self {
            MemoryType::Resident => "resident",
            MemoryType::Virtual => "virtual",
        }
    }

    /// The attribute value that stands for this value on a metric.
    pub open spec fn spec_attribute(self) -> attributes::MemoryType {
        match self {
            MemoryType::Resident => attributes::MemoryType::Resident,
            MemoryType::Virtual => attributes::MemoryType::Virtual,
        }
    }

    /// The attribute value that stands for this value on a metric.
    pub fn attribute(&self) -> (r: attributes::MemoryType)
        ensures
            r == self.spec_attribute(),
    {
        match self {
            MemoryType::Resident => attributes::MemoryType::Resident,
            MemoryType::Virtual => attributes::MemoryType::Virtual,
        }
    }
}

/// The kinds of operation whose latency the server reports.
#[derive(Debug, Copy, Clone, Hash, PartialEq, Eq, PartialOrd, Ord)]
pub enum OperationLatency {
    Read,
    Write,
    Command,
}

impl OperationLatency {
    /// Every value, in declaration order.
    pub open spec fn all() -> Seq<OperationLatency> {
        seq![OperationLatency::Read, OperationLatency::Write, OperationLatency::Command]
    }

    /// Every value, in declaration order.
    pub fn iter() -> (r: Vec<OperationLatency>)
        ensures
            r@ == OperationLatency::all(),
    {
        let mut r: Vec<OperationLatency> = Vec::new();
        r.push(OperationLatency::Read);
        r.push(OperationLatency::Write);
        r.push(OperationLatency::Command);
        assert(r@ =~= OperationLatency::all());
        r
    }

    /// The key under which the server reports the value.
    pub open spec fn spec_name(self) -> Seq<char> {
        match self {
            OperationLatency::Read => "reads"@,
            OperationLatency::Write => "writes"@,
            OperationLatency::Command => "commands"@,
        }
    }

    /// The key under which the server reports the value.
    pub fn as_str(&self) -> (r: &'static str)
        ensures
            r@ == self.spec_name(),
    {
        match self {
            OperationLatency::Read => "reads",
            OperationLatency::Write => "writes",
            OperationLatency::Command => "commands",
        }
    }

    /// The attribute value that stands for this value on a metric.
    pub open spec fn spec_attribute(self) -> attributes::OperationLatency {
        match self {
            OperationLatency::Read => attributes::OperationLatency::Read,
            OperationLatency::Write => attributes::OperationLatency::Write,
            OperationLatency::Command => attributes::OperationLatency::Command,
        }
    }

    /// The attribute value that stands for this value on a metric.
    pub fn attribute(&self) -> (r: attributes::OperationLatency)
        ensures
            r == self.spec_attribute(),
    {
        match self {
            OperationLatency::Read => attributes::OperationLatency::Read,
            OperationLatency::Write => attributes::OperationLatency::Write,
            OperationLatency::Command => attributes::OperationLatency::Command,
        }
    }
}


/// The number of collections.
#[derive(Debug)]
pub struct CollectionCount(pub MongoMetric);

impl Default for CollectionCount {
    fn default() -> (r: CollectionCount)
        ensures
            is_new_sum(r.0, "mongodb.collection.count"@, "The number of collections."@, "{collections}"@, false),
    {
        let mut metric = MongoMetric::sum(
            Descriptor {
                name: "mongodb.collection.count",
                description: "The number of collections.",
                unit: "{collections}",
            },
        );
        CollectionCount(metric)
    }
}

impl EmitMetric for CollectionCount {
    fn emit(&mut self) -> (r: Metric)
        ensures
            emitted(old(self).0, final(self).0, r),
    {
        self.0.emit()
    }
}

/// The readings of [`CollectionCount`].
pub open spec fn collection_count_readings() -> Seq<ReadingView> {
    seq![(seq![KeyView::Key("collections"@)], Seq::empty())]
}

fn collection_count_reading_list() -> (r: Vec<Reading<'static>>)
    ensures
        readings_view(r@) == collection_count_readings(),
{
    let reading = Reading { path: vec![BsonKey::KeyStr("collections")], attributes: Vec::new() };
    proof {
        assert(keys_view(reading.path@) =~= seq![KeyView::Key("collections"@)]);
        assert(text_attributes(reading.attributes@) =~= Seq::empty());
    }
    let mut r: Vec<Reading<'static>> = Vec::new();
    r.push(reading);
    assert(readings_view(r@) =~= collection_count_readings());
    r
}

impl Record for CollectionCount {
    fn record(&mut self, stats: &Bson, config: &Config, errors: &mut Vec<Error>)
        ensures
            recorded(old(self).0, final(self).0, old(errors)@, final(errors)@, *stats, collection_count_readings(), 1, false, *config),
    {
        let readings = collection_count_reading_list();
        self.0.record_readings(stats, &readings, 1, false, config, errors);
    }
}


/// The size of the collection. Data compression does not affect this value.
#[derive(Debug)]
pub struct DataSize(pub MongoMetric);

impl Default for DataSize {
    fn default() -> (r: DataSize)
        ensures
            is_new_sum(r.0, "mongodb.data.size"@, "The size of the collection. Data compression does not affect this value."@, "By"@, false),
    {
        let mut metric = MongoMetric::sum(
            Descriptor {
                name: "mongodb.data.size",
                description: "The size of the collection. Data compression does not affect this value.",
                unit: "By",
            },
        );
        DataSize(metric)
    }
}

impl EmitMetric for DataSize {
    fn emit(&mut self) -> (r: Metric)
        ensures
            emitted(old(self).0, final(self).0, r),
    {
        self.0.emit()
    }
}

/// The readings of [`DataSize`].
pub open spec fn data_size_readings() -> Seq<ReadingView> {
    seq![(seq![KeyView::Key("mongodb"@), KeyView::Key("data"@), KeyView::Key("size"@)], Seq::empty())]
}

fn data_size_reading_list() -> (r: Vec<Reading<'static>>)
    ensures
        readings_view(r@) == data_size_readings(),
{
    let reading = Reading { path: vec![BsonKey::KeyStr("mongodb"), BsonKey::KeyStr("data"), BsonKey::KeyStr("size")], attributes: Vec::new() };
    proof {
        assert(keys_view(reading.path@) =~= seq![KeyView::Key("mongodb"@), KeyView::Key("data"@), KeyView::Key("size"@)]);
        assert(text_attributes(reading.attributes@) =~= Seq::empty());
    }
    let mut r: Vec<Reading<'static>> = Vec::new();
    r.push(reading);
    assert(readings_view(r@) =~= data_size_readings());
    r
}

impl Record for DataSize {
    fn record(&mut self, stats: &Bson, config: &Config, errors: &mut Vec<Error>)
        ensures
            recorded(old(self).0, final(self).0, old(errors)@, final(errors)@, *stats, data_size_readings(), 1, false, *config),
    {
        let readings = data_size_reading_list();
        self.0.record_readings(stats, &readings, 1, false, config, errors);
    }
}


/// The number of open cursors maintained for clients.
#[derive(Debug)]
pub struct CursorCount(pub MongoMetric);

impl Default for CursorCount {
    fn default() -> (r: CursorCount)
        ensures
            is_new_sum(r.0, "mongodb.cursor.count"@, "The number of open cursors maintained for clients."@, "{cursors}"@, false),
    {
        let mut metric = MongoMetric::sum(
            Descriptor {
                name: "mongodb.cursor.count",
                description: "The number of open cursors maintained for clients.",
                unit: "{cursors}",
            },
        );
        CursorCount(metric)
    }
}

impl EmitMetric for CursorCount {
    fn emit(&mut self) -> (r: Metric)
        ensures
            emitted(old(self).0, final(self).0, r),
    {
        self.0.emit()
    }
}

/// The readings of [`CursorCount`].
pub open spec fn cursor_count_readings() -> Seq<ReadingView> {
    seq![(seq![KeyView::Key("metrics"@), KeyView::Key("cursor"@), KeyView::Key("open"@), KeyView::Key("total"@)], Seq::empty())]
}

fn cursor_count_reading_list() -> (r: Vec<Reading<'static>>)
    ensures
        readings_view(r@) == cursor_count_readings(),
{
    let reading = Reading { path: vec![BsonKey::KeyStr("metrics"), BsonKey::KeyStr("cursor"), BsonKey::KeyStr("open"), BsonKey::KeyStr("total")], attributes: Vec::new() };
    proof {
        assert(keys_view(reading.path@) =~= seq![KeyView::Key("metrics"@), KeyView::Key("cursor"@), KeyView::Key("open"@), KeyView::Key("total"@)]);
        assert(text_attributes(reading.attributes@) =~= Seq::empty());
    }
    let mut r: Vec<Reading<'static>> = Vec::new();
    r.push(reading);
    assert(readings_view(r@) =~= cursor_count_readings());
    r
}

impl Record for CursorCount {
    fn record(&mut self, stats: &Bson, config: &Config, errors: &mut Vec<Error>)
        ensures
            recorded(old(self).0, final(self).0, old(errors)@, final(errors)@, *stats, cursor_count_readings(), 1, false, *config),
    {
        let readings = cursor_count_reading_list();
        self.0.record_readings(stats, &readings, 1, false, config, errors);
    }
}


/// The number of cursors that have timed out.
#[derive(Debug)]
pub struct CursorTimeouts(pub MongoMetric);

impl Default for CursorTimeouts {
    fn default() -> (r: CursorTimeouts)
        ensures
            is_new_sum(r.0, "mongodb.cursor.timeout.count"@, "The number of cursors that have timed out."@, "{cursors}"@, false),
    {
        let mut metric = MongoMetric::sum(
            Descriptor {
                name: "mongodb.cursor.timeout.count",
                description: "The number of cursors that have timed out.",
                unit: "{cursors}",
            },
        );
        CursorTimeouts(metric)
    }
}

impl EmitMetric for CursorTimeouts {
    fn emit(&mut self) -> (r: Metric)
        ensures
            emitted(old(self).0, final(self).0, r),
    {
        self.0.emit()
    }
}

/// The readings of [`CursorTimeouts`].
pub open spec fn cursor_timeouts_readings() -> Seq<ReadingView> {
    seq![(seq![KeyView::Key("metrics"@), KeyView::Key("cursor"@), KeyView::Key("timedOut"@)], Seq::empty())]
}

fn cursor_timeouts_reading_list() -> (r: Vec<Reading<'static>>)
    ensures
        readings_view(r@) == cursor_timeouts_readings(),
{
    let reading = Reading { path: vec![BsonKey::KeyStr("metrics"), BsonKey::KeyStr("cursor"), BsonKey::KeyStr("timedOut")], attributes: Vec::new() };
    proof {
        assert(keys_view(reading.path@) =~= seq![KeyView::Key("metrics"@), KeyView::Key("cursor"@), KeyView::Key("timedOut"@)]);
        assert(text_attributes(reading.attributes@) =~= Seq::empty());
    }
    let mut r: Vec<Reading<'static>> = Vec::new();
    r.push(reading);
    assert(readings_view(r@) =~= cursor_timeouts_readings());
    r
}

impl Record for CursorTimeouts {
    fn record(&mut self, stats: &Bson, config: &Config, errors: &mut Vec<Error>)
        ensures
            recorded(old(self).0, final(self).0, old(errors)@, final(errors)@, *stats, cursor_timeouts_readings(), 1, false, *config),
    {
        let readings = cursor_timeouts_reading_list();
        self.0.record_readings(stats, &readings, 1, false, config, errors);
    }
}


/// The number of extents.
#[derive(Debug)]
pub struct Extent(pub MongoMetric);

impl Default for Extent {
    fn default() -> (r: Extent)
        ensures
            is_new_sum(r.0, "mongodb.extent.count"@, "The number of extents."@, "{extents}"@, false),
    {
        let mut metric = MongoMetric::sum(
            Descriptor {
                name: "mongodb.extent.count",
                description: "The number of extents.",
                unit: "{extents}",
            },
        );
        Extent(metric)
    }
}

impl EmitMetric for Extent {
    fn emit(&mut self) -> (r: Metric)
        ensures
            emitted(old(self).0, final(self).0, r),
    {
        self.0.emit()
    }
}

/// The readings of [`Extent`].
pub open spec fn extent_readings() -> Seq<ReadingView> {
    seq![(seq![KeyView::Key("numExtents"@)], Seq::empty())]
}

fn extent_reading_list() -> (r: Vec<Reading<'static>>)
    ensures
        readings_view(r@) == extent_readings(),
{
    let reading = Reading { path: vec![BsonKey::KeyStr("numExtents")], attributes: Vec::new() };
    proof {
        assert(keys_view(reading.path@) =~= seq![KeyView::Key("numExtents"@)]);
        assert(text_attributes(reading.attributes@) =~= Seq::empty());
    }
    let mut r: Vec<Reading<'static>> = Vec::new();
    r.push(reading);
    assert(readings_view(r@) =~= extent_readings());
    r
}

impl Record for Extent {
    fn record(&mut self, stats: &Bson, config: &Config, errors: &mut Vec<Error>)
        ensures
            if config.version.below(4, 4, 0) { recorded(old(self).0, final(self).0, old(errors)@, final(errors)@, *stats, extent_readings(), 1, false, *config) } else { unchanged(old(self).0, final(self).0, old(errors)@, final(errors)@) },
    {
        if !config.version.is_below(4, 4, 0) {
            // servers from 4.4 on no longer report extents
            return;
        }
        let readings = extent_reading_list();
        self.0.record_readings(stats, &readings, 1, false, config, errors);
    }
}


/// The health status of the server.
#[derive(Debug)]
pub struct Health(pub MongoMetric);

impl Default for Health {
    fn default() -> (r: Health)
        ensures
            is_new_gauge(r.0, "mongodb.health"@, "The health status of the server."@, "1"@),
    {
        let mut metric = MongoMetric::gauge(
            Descriptor {
                name: "mongodb.health",
                description: "The health status of the server.",
                unit: "1",
            },
        );
        Health(metric)
    }
}

impl EmitMetric for Health {
    fn emit(&mut self) -> (r: Metric)
        ensures
            emitted(old(self).0, final(self).0, r),
    {
        self.0.emit()
    }
}

/// The readings of [`Health`].
pub open spec fn health_readings() -> Seq<ReadingView> {
    seq![(seq![KeyView::Key("ok"@)], Seq::empty())]
}

fn health_reading_list() -> (r: Vec<Reading<'static>>)
    ensures
        readings_view(r@) == health_readings(),
{
    let reading = Reading { path: vec![BsonKey::KeyStr("ok")], attributes: Vec::new() };
    proof {
        assert(keys_view(reading.path@) =~= seq![KeyView::Key("ok"@)]);
        assert(text_attributes(reading.attributes@) =~= Seq::empty());
    }
    let mut r: Vec<Reading<'static>> = Vec::new();
    r.push(reading);
    assert(readings_view(r@) =~= health_readings());
    r
}

impl Record for Health {
    fn record(&mut self, stats: &Bson, config: &Config, errors: &mut Vec<Error>)
        ensures
            recorded(old(self).0, final(self).0, old(errors)@, final(errors)@, *stats, health_readings(), 1, false, *config),
    {
        let readings = health_reading_list();
        self.0.record_readings(stats, &readings, 1, false, config, errors);
    }
}


/// The number of indexes.
#[derive(Debug)]
pub struct IndexCount(pub MongoMetric);

impl Default for IndexCount {
    fn default() -> (r: IndexCount)
        ensures
            is_new_sum(r.0, "mongodb.index.count"@, "The number of indexes."@, "{indexes}"@, false),
    {
        let mut metric = MongoMetric::sum(
            Descriptor {
                name: "mongodb.index.count",
                description: "The number of indexes.",
                unit: "{indexes}",
            },
        );
        IndexCount(metric)
    }
}

impl EmitMetric for IndexCount {
    fn emit(&mut self) -> (r: Metric)
        ensures
            emitted(old(self).0, final(self).0, r),
    {
        self.0.emit()
    }
}

/// The readings of [`IndexCount`].
pub open spec fn index_count_readings() -> Seq<ReadingView> {
    seq![(seq![KeyView::Key("indexes"@)], Seq::empty())]
}

fn index_count_reading_list() -> (r: Vec<Reading<'static>>)
    ensures
        readings_view(r@) == index_count_readings(),
{
    let reading = Reading { path: vec![BsonKey::KeyStr("indexes")], attributes: Vec::new() };
    proof {
        assert(keys_view(reading.path@) =~= seq![KeyView::Key("indexes"@)]);
        assert(text_attributes(reading.attributes@) =~= Seq::empty());
    }
    let mut r: Vec<Reading<'static>> = Vec::new();
    r.push(reading);
    assert(readings_view(r@) =~= index_count_readings());
    r
}

impl Record for IndexCount {
    fn record(&mut self, stats: &Bson, config: &Config, errors: &mut Vec<Error>)
        ensures
            recorded(old(self).0, final(self).0, old(errors)@, final(errors)@, *stats, index_count_readings(), 1, false, *config),
    {
        let readings = index_count_reading_list();
        self.0.record_readings(stats, &readings, 1, false, config, errors);
    }
}


/// Sum of the space allocated to all indexes in the database, including free index space.
#[derive(Debug)]
pub struct IndexSize(pub MongoMetric);

impl Default for IndexSize {
    fn default() -> (r: IndexSize)
        ensures
            is_new_sum(r.0, "mongodb.index.size"@, "Sum of the space allocated to all indexes in the database, including free index space."@, "By"@, false),
    {
        let mut metric = MongoMetric::sum(
            Descriptor {
                name: "mongodb.index.size",
                description: "Sum of the space allocated to all indexes in the database, including free index space.",
                unit: "By",
            },
        );
        IndexSize(metric)
    }
}

impl EmitMetric for IndexSize {
    fn emit(&mut self) -> (r: Metric)
        ensures
            emitted(old(self).0, final(self).0, r),
    {
        self.0.emit()
    }
}

/// The readings of [`IndexSize`].
pub open spec fn index_size_readings() -> Seq<ReadingView> {
    seq![(seq![KeyView::Key("indexSize"@)], Seq::empty())]
}

fn index_size_reading_list() -> (r: Vec<Reading<'static>>)
    ensures
        readings_view(r@) == index_size_readings(),
{
    let reading = Reading { path: vec![BsonKey::KeyStr("indexSize")], attributes: Vec::new() };
    proof {
        assert(keys_view(reading.path@) =~= seq![KeyView::Key("indexSize"@)]);
        assert(text_attributes(reading.attributes@) =~= Seq::empty());
    }
    let mut r: Vec<Reading<'static>> = Vec::new();
    r.push(reading);
    assert(readings_view(r@) =~= index_size_readings());
    r
}

impl Record for IndexSize {
    fn record(&mut self, stats: &Bson, config: &Config, errors: &mut Vec<Error>)
        ensures
            recorded(old(self).0, final(self).0, old(errors)@, final(errors)@, *stats, index_size_readings(), 1, false, *config),
    {
        let readings = index_size_reading_list();
        self.0.record_readings(stats, &readings, 1, false, config, errors);
    }
}


/// The number of bytes received.
#[derive(Debug)]
pub struct NetworkIn(pub MongoMetric);

impl Default for NetworkIn {
    fn default() -> (r: NetworkIn)
        ensures
            is_new_sum(r.0, "mongodb.network.io.receive"@, "The number of bytes received."@, "By"@, false),
    {
        let mut metric = MongoMetric::sum(
            Descriptor {
                name: "mongodb.network.io.receive",
                description: "The number of bytes received.",
                unit: "By",
            },
        );
        NetworkIn(metric)
    }
}

impl EmitMetric for NetworkIn {
    fn emit(&mut self) -> (r: Metric)
        ensures
            emitted(old(self).0, final(self).0, r),
    {
        self.0.emit()
    }
}

/// The readings of [`NetworkIn`].
pub open spec fn network_in_readings() -> Seq<ReadingView> {
    seq![(seq![KeyView::Key("network"@), KeyView::Key("bytesIn"@)], Seq::empty())]
}

fn network_in_reading_list() -> (r: Vec<Reading<'static>>)
    ensures
        readings_view(r@) == network_in_readings(),
{
    let reading = Reading { path: vec![BsonKey::KeyStr("network"), BsonKey::KeyStr("bytesIn")], attributes: Vec::new() };
    proof {
        assert(keys_view(reading.path@) =~= seq![KeyView::Key("network"@), KeyView::Key("bytesIn"@)]);
        assert(text_attributes(reading.attributes@) =~= Seq::empty());
    }
    let mut r: Vec<Reading<'static>> = Vec::new();
    r.push(reading);
    assert(readings_view(r@) =~= network_in_readings());
    r
}

impl Record for NetworkIn {
    fn record(&mut self, stats: &Bson, config: &Config, errors: &mut Vec<Error>)
        ensures
            recorded(old(self).0, final(self).0, old(errors)@, final(errors)@, *stats, network_in_readings(), 1, false, *config),
    {
        let readings = network_in_reading_list();
        self.0.record_readings(stats, &readings, 1, false, config, errors);
    }
}


/// The number of by transmitted.
#[derive(Debug)]
pub struct NetworkOut(pub MongoMetric);

impl Default for NetworkOut {
    fn default() -> (r: NetworkOut)
        ensures
            is_new_sum(r.0, "mongodb.network.io.transmit"@, "The number of by transmitted."@, "By"@, false),
    {
        let mut metric = MongoMetric::sum(
            Descriptor {
                name: "mongodb.network.io.transmit",
                description: "The number of by transmitted.",
                unit: "By",
            },
        );
        NetworkOut(metric)
    }
}

impl EmitMetric for NetworkOut {
    fn emit(&mut self) -> (r: Metric)
        ensures
            emitted(old(self).0, final(self).0, r),
    {
        self.0.emit()
    }
}

/// The readings of [`NetworkOut`].
pub open spec fn network_out_readings() -> Seq<ReadingView> {
    seq![(seq![KeyView::Key("network"@), KeyView::Key("bytesOut"@)], Seq::empty())]
}

fn network_out_reading_list() -> (r: Vec<Reading<'static>>)
    ensures
        readings_view(r@) == network_out_readings(),
{
    let reading = Reading { path: vec![BsonKey::KeyStr("network"), BsonKey::KeyStr("bytesOut")], attributes: Vec::new() };
    proof {
        assert(keys_view(reading.path@) =~= seq![KeyView::Key("network"@), KeyView::Key("bytesOut"@)]);
        assert(text_attributes(reading.attributes@) =~= Seq::empty());
    }
    let mut r: Vec<Reading<'static>> = Vec::new();
    r.push(reading);
    assert(readings_view(r@) =~= network_out_readings());
    r
}

impl Record for NetworkOut {
    fn record(&mut self, stats: &Bson, config: &Config, errors: &mut Vec<Error>)
        ensures
            recorded(old(self).0, final(self).0, old(errors)@, final(errors)@, *stats, network_out_readings(), 1, false, *config),
    {
        let readings = network_out_reading_list();
        self.0.record_readings(stats, &readings, 1, false, config, errors);
    }
}


/// The number of requests received by the server.
#[derive(Debug)]
pub struct NetworkRequestCount(pub MongoMetric);

impl Default for NetworkRequestCount {
    fn default() -> (r: NetworkRequestCount)
        ensures
            is_new_sum(r.0, "mongodb.network.request.count"@, "The number of requests received by the server."@, "{requests}"@, false),
    {
        let mut metric = MongoMetric::sum(
            Descriptor {
                name: "mongodb.network.request.count",
                description: "The number of requests received by the server.",
                unit: "{requests}",
            },
        );
        NetworkRequestCount(metric)
    }
}

impl EmitMetric for NetworkRequestCount {
    fn emit(&mut self) -> (r: Metric)
        ensures
            emitted(old(self).0, final(self).0, r),
    {
        self.0.emit()
    }
}

/// The readings of [`NetworkRequestCount`].
pub open spec fn network_request_count_readings() -> Seq<ReadingView> {
    seq![(seq![KeyView::Key("network"@), KeyView::Key("numRequests"@)], Seq::empty())]
}

fn network_request_count_reading_list() -> (r: Vec<Reading<'static>>)
    ensures
        readings_view(r@) == network_request_count_readings(),
{
    let reading = Reading { path: vec![BsonKey::KeyStr("network"), BsonKey::KeyStr("numRequests")], attributes: Vec::new() };
    proof {
        assert(keys_view(reading.path@) =~= seq![KeyView::Key("network"@), KeyView::Key("numRequests"@)]);
        assert(text_attributes(reading.attributes@) =~= Seq::empty());
    }
    let mut r: Vec<Reading<'static>> = Vec::new();
    r.push(reading);
    assert(readings_view(r@) =~= network_request_count_readings());
    r
}

impl Record for NetworkRequestCount {
    fn record(&mut self, stats: &Bson, config: &Config, errors: &mut Vec<Error>)
        ensures
            recorded(old(self).0, final(self).0, old(errors)@, final(errors)@, *stats, network_request_count_readings(), 1, false, *config),
    {
        let readings = network_request_count_reading_list();
        self.0.record_readings(stats, &readings, 1, false, config, errors);
    }
}


/// The number of objects.
#[derive(Debug)]
pub struct ObjectCount(pub MongoMetric);

impl Default for ObjectCount {
    fn default() -> (r: ObjectCount)
        ensures
            is_new_sum(r.0, "mongodb.object.count"@, "The number of objects."@, "{objects}"@, false),
    {
        let mut metric = MongoMetric::sum(
            Descriptor {
                name: "mongodb.object.count",
                description: "The number of objects.",
                unit: "{objects}",
            },
        );
        ObjectCount(metric)
    }
}

impl EmitMetric for ObjectCount {
    fn emit(&mut self) -> (r: Metric)
        ensures
            emitted(old(self).0, final(self).0, r),
    {
        self.0.emit()
    }
}

/// The readings of [`ObjectCount`].
pub open spec fn object_count_readings() -> Seq<ReadingView> {
    seq![(seq![KeyView::Key("objects"@)], Seq::empty())]
}

fn object_count_reading_list() -> (r: Vec<Reading<'static>>)
    ensures
        readings_view(r@) == object_count_readings(),
{
    let reading = Reading { path: vec![BsonKey::KeyStr("objects")], attributes: Vec::new() };
    proof {
        assert(keys_view(reading.path@) =~= seq![KeyView::Key("objects"@)]);
        assert(text_attributes(reading.attributes@) =~= Seq::empty());
    }
    let mut r: Vec<Reading<'static>> = Vec::new();
    r.push(reading);
    assert(readings_view(r@) =~= object_count_readings());
    r
}

impl Record for ObjectCount {
    fn record(&mut self, stats: &Bson, config: &Config, errors: &mut Vec<Error>)
        ensures
            recorded(old(self).0, final(self).0, old(errors)@, final(errors)@, *stats, object_count_readings(), 1, false, *config),
    {
        let readings = object_count_reading_list();
        self.0.record_readings(stats, &readings, 1, false, config, errors);
    }
}


/// The total number of active sessions.
#[derive(Debug)]
pub struct SessionCount(pub MongoMetric);

impl Default for SessionCount {
    fn default() -> (r: SessionCount)
        ensures
            is_new_sum(r.0, "mongodb.session.count"@, "The total number of active sessions."@, "{sessions}"@, false),
    {
        let mut metric = MongoMetric::sum(
            Descriptor {
                name: "mongodb.session.count",
                description: "The total number of active sessions.",
                unit: "{sessions}",
            },
        );
        SessionCount(metric)
    }
}

impl EmitMetric for SessionCount {
    fn emit(&mut self) -> (r: Metric)
        ensures
            emitted(old(self).0, final(self).0, r),
    {
        self.0.emit()
    }
}

/// The readings of [`SessionCount`].
pub open spec fn session_count_readings() -> Seq<ReadingView> {
    seq![(seq![KeyView::Key("wiredTiger"@), KeyView::Key("session"@), KeyView::Key("open session count"@)], Seq::empty())]
}

fn session_count_reading_list() -> (r: Vec<Reading<'static>>)
    ensures
        readings_view(r@) == session_count_readings(),
{
    let reading = Reading { path: vec![BsonKey::KeyStr("wiredTiger"), BsonKey::KeyStr("session"), BsonKey::KeyStr("open session count")], attributes: Vec::new() };
    proof {
        assert(keys_view(reading.path@) =~= seq![KeyView::Key("wiredTiger"@), KeyView::Key("session"@), KeyView::Key("open session count"@)]);
        assert(text_attributes(reading.attributes@) =~= Seq::empty());
    }
    let mut r: Vec<Reading<'static>> = Vec::new();
    r.push(reading);
    assert(readings_view(r@) =~= session_count_readings());
    r
}

impl Record for SessionCount {
    fn record(&mut self, stats: &Bson, config: &Config, errors: &mut Vec<Error>)
        ensures
            if config.storage_engine matches Some(StorageEngine::WiredTiger) { recorded(old(self).0, final(self).0, old(errors)@, final(errors)@, *stats, session_count_readings(), 1, false, *config) } else { unchanged(old(self).0, final(self).0, old(errors)@, final(errors)@) },
    {
        match config.storage_engine {
            Some(StorageEngine::WiredTiger) => {},
            _ => {
                // the metric is only reported by the WiredTiger storage engine
                return;
            },
        }
        let readings = session_count_reading_list();
        self.0.record_readings(stats, &readings, 1, false, config, errors);
    }
}


/// The total amount of storage allocated to this collection.
#[derive(Debug)]
pub struct StorageSize(pub MongoMetric);

impl Default for StorageSize {
    fn default() -> (r: StorageSize)
        ensures
            is_new_sum(r.0, "mongodb.storage.size"@, "The total amount of storage allocated to this collection."@, "By"@, true),
    {
        let mut metric = MongoMetric::sum(
            Descriptor {
                name: "mongodb.storage.size",
                description: "The total amount of storage allocated to this collection.",
                unit: "By",
            },
        );
        metric.data.set_monotonic(true);
        StorageSize(metric)
    }
}

impl EmitMetric for StorageSize {
    fn emit(&mut self) -> (r: Metric)
        ensures
            emitted(old(self).0, final(self).0, r),
    {
        self.0.emit()
    }
}

/// The readings of [`StorageSize`].
pub open spec fn storage_size_readings() -> Seq<ReadingView> {
    seq![(seq![KeyView::Key("storageSize"@)], Seq::empty())]
}

fn storage_size_reading_list() -> (r: Vec<Reading<'static>>)
    ensures
        readings_view(r@) == storage_size_readings(),
{
    let reading = Reading { path: vec![BsonKey::KeyStr("storageSize")], attributes: Vec::new() };
    proof {
        assert(keys_view(reading.path@) =~= seq![KeyView::Key("storageSize"@)]);
        assert(text_attributes(reading.attributes@) =~= Seq::empty());
    }
    let mut r: Vec<Reading<'static>> = Vec::new();
    r.push(reading);
    assert(readings_view(r@) =~= storage_size_readings());
    r
}

impl Record for StorageSize {
    fn record(&mut self, stats: &Bson, config: &Config, errors: &mut Vec<Error>)
        ensures
            recorded(old(self).0, final(self).0, old(errors)@, final(errors)@, *stats, storage_size_readings(), 1, false, *config),
    {
        let readings = storage_size_reading_list();
        self.0.record_readings(stats, &readings, 1, false, config, errors);
    }
}


/// The amount of time that the server has been running.
#[derive(Debug)]
pub struct Uptime(pub MongoMetric);

impl Default for Uptime {
    fn default() -> (r: Uptime)
        ensures
            is_new_sum(r.0, "mongodb.uptime"@, "The amount of time that the server has been running."@, "ms"@, true),
    {
        let mut metric = MongoMetric::sum(
            Descriptor {
                name: "mongodb.uptime",
                description: "The amount of time that the server has been running.",
                unit: "ms",
            },
        );
        metric.data.set_monotonic(true);
        Uptime(metric)
    }
}

impl EmitMetric for Uptime {
    fn emit(&mut self) -> (r: Metric)
        ensures
            emitted(old(self).0, final(self).0, r),
    {
        self.0.emit()
    }
}

/// The readings of [`Uptime`].
pub open spec fn uptime_readings() -> Seq<ReadingView> {
    seq![(seq![KeyView::Key("uptimeMillis"@)], Seq::empty())]
}

fn uptime_reading_list() -> (r: Vec<Reading<'static>>)
    ensures
        readings_view(r@) == uptime_readings(),
{
    let reading = Reading { path: vec![BsonKey::KeyStr("uptimeMillis")], attributes: Vec::new() };
    proof {
        assert(keys_view(reading.path@) =~= seq![KeyView::Key("uptimeMillis"@)]);
        assert(text_attributes(reading.attributes@) =~= Seq::empty());
    }
    let mut r: Vec<Reading<'static>> = Vec::new();
    r.push(reading);
    assert(readings_view(r@) =~= uptime_readings());
    r
}

impl Record for Uptime {
    fn record(&mut self, stats: &Bson, config: &Config, errors: &mut Vec<Error>)
        ensures
            recorded(old(self).0, final(self).0, old(errors)@, final(errors)@, *stats, uptime_readings(), 1, false, *config),
    {
        let readings = uptime_reading_list();
        self.0.record_readings(stats, &readings, 1, false, config, errors);
    }
}


/// The number of connections.
#[derive(Debug)]
pub struct ConnectionCount(pub MongoMetric);

impl Default for ConnectionCount {
    fn default() -> (r: ConnectionCount)
        ensures
            is_new_sum(r.0, "mongodb.connection.count"@, "The number of connections."@, "{connections}"@, false),
    {
        let mut metric = MongoMetric::sum(
            Descriptor {
                name: "mongodb.connection.count",
                description: "The number of connections.",
                unit: "{connections}",
            },
        );
        ConnectionCount(metric)
    }
}

impl EmitMetric for ConnectionCount {
    fn emit(&mut self) -> (r: Metric)
        ensures
            emitted(old(self).0, final(self).0, r),
    {
        self.0.emit()
    }
}

/// The reading of [`ConnectionCount`] for one value.
pub open spec fn connection_count_reading(v: ConnectionType) -> ReadingView {
    (seq![KeyView::Key("connections"@), KeyView::Key(v.spec_name())], seq![("type"@, ValueView::String(v.spec_attribute().spec_name()))])
}

/// The readings of [`ConnectionCount`]: one per value, in declaration order.
pub open spec fn connection_count_readings() -> Seq<ReadingView> {
    ConnectionType::all().map_values(|v: ConnectionType| connection_count_reading(v))
}

fn connection_count_reading_list() -> (r: Vec<Reading<'static>>)
    ensures
        readings_view(r@) == connection_count_readings(),
{
    let all = ConnectionType::iter();
    let mut r: Vec<Reading<'static>> = Vec::new();
    let mut i: usize = 0;
    while i < all.len()
        invariant
            all@ == ConnectionType::all(),
            i <= all@.len(),
            readings_view(r@) == all@.take(i as int).map_values(|v: ConnectionType| connection_count_reading(v)),
        decreases all@.len() - i,
    {
        let v = all[i];
        let reading = Reading {
            path: vec![BsonKey::KeyStr("connections"), BsonKey::KeyStr(v.as_str())],
            attributes: vec![("type", v.attribute().as_str())],
        };
        proof {
            assert(keys_view(reading.path@) =~= seq![KeyView::Key("connections"@), KeyView::Key(v.spec_name())]);
            assert(text_attributes(reading.attributes@) =~= seq![("type"@, ValueView::String(v.spec_attribute().spec_name()))]);
            assert(readings_view(r@.push(reading)) =~= readings_view(r@).push(reading@));
            assert(all@.take(i + 1) =~= all@.take(i as int).push(v));
            assert(all@.take(i + 1).map_values(|v: ConnectionType| connection_count_reading(v)) =~= all@.take(i as int).map_values(|v: ConnectionType| connection_count_reading(v)).push(connection_count_reading(v)));
        }
        r.push(reading);
        i = i + 1;
    }
    assert(all@.take(all@.len() as int) =~= all@);
    r
}

impl ConnectionCount {
    /// Records one point per value, read under its key.
    pub fn record(&mut self, stats: &Bson, config: &Config, errors: &mut Vec<Error>)
        ensures
            recorded(old(self).0, final(self).0, old(errors)@, final(errors)@, *stats, connection_count_readings(), 1, false, *config),
    {
        let readings = connection_count_reading_list();
        self.0.record_readings(stats, &readings, 1, false, config, errors);
    }
}

impl Record for ConnectionCount {
    fn record(&mut self, stats: &Bson, config: &Config, errors: &mut Vec<Error>)
        ensures
            recorded(old(self).0, final(self).0, old(errors)@, final(errors)@, *stats, connection_count_readings(), 1, false, *config),
    {
        ConnectionCount::record(self, stats, config, errors)
    }
}


/// The number of document operations executed.
#[derive(Debug)]
pub struct DocumentOperations(pub MongoMetric);

impl Default for DocumentOperations {
    fn default() -> (r: DocumentOperations)
        ensures
            is_new_sum(r.0, "mongodb.document.operation.count"@, "The number of document operations executed."@, "{documents}"@, false),
    {
        let mut metric = MongoMetric::sum(
            Descriptor {
                name: "mongodb.document.operation.count",
                description: "The number of document operations executed.",
                unit: "{documents}",
            },
        );
        DocumentOperations(metric)
    }
}

impl EmitMetric for DocumentOperations {
    fn emit(&mut self) -> (r: Metric)
        ensures
            emitted(old(self).0, final(self).0, r),
    {
        self.0.emit()
    }
}

/// The reading of [`DocumentOperations`] for one value.
pub open spec fn document_operations_reading(v: Operation) -> ReadingView {
    (seq![KeyView::Key("metrics"@), KeyView::Key("document"@), KeyView::Key(v.spec_name())], seq![("operation"@, ValueView::String(v.spec_attribute().spec_name()))])
}

/// The readings of [`DocumentOperations`]: one per value, in declaration order.
pub open spec fn document_operations_readings() -> Seq<ReadingView> {
    Operation::all().map_values(|v: Operation| document_operations_reading(v))
}

fn document_operations_reading_list() -> (r: Vec<Reading<'static>>)
    ensures
        readings_view(r@) == document_operations_readings(),
{
    let all = Operation::iter();
    let mut r: Vec<Reading<'static>> = Vec::new();
    let mut i: usize = 0;
    while i < all.len()
        invariant
            all@ == Operation::all(),
            i <= all@.len(),
            readings_view(r@) == all@.take(i as int).map_values(|v: Operation| document_operations_reading(v)),
        decreases all@.len() - i,
    {
        let v = all[i];
        let reading = Reading {
            path: vec![BsonKey::KeyStr("metrics"), BsonKey::KeyStr("document"), BsonKey::KeyStr(v.as_str())],
            attributes: vec![("operation", v.attribute().as_str())],
        };
        proof {
            assert(keys_view(reading.path@) =~= seq![KeyView::Key("metrics"@), KeyView::Key("document"@), KeyView::Key(v.spec_name())]);
            assert(text_attributes(reading.attributes@) =~= seq![("operation"@, ValueView::String(v.spec_attribute().spec_name()))]);
            assert(readings_view(r@.push(reading)) =~= readings_view(r@).push(reading@));
            assert(all@.take(i + 1) =~= all@.take(i as int).push(v));
            assert(all@.take(i + 1).map_values(|v: Operation| document_operations_reading(v)) =~= all@.take(i as int).map_values(|v: Operation| document_operations_reading(v)).push(document_operations_reading(v)));
        }
        r.push(reading);
        i = i + 1;
    }
    assert(all@.take(all@.len() as int) =~= all@);
    r
}

impl DocumentOperations {
    /// Records one point per value, read under its key.
    pub fn record(&mut self, stats: &Bson, config: &Config, errors: &mut Vec<Error>)
        ensures
            recorded(old(self).0, final(self).0, old(errors)@, final(errors)@, *stats, document_operations_readings(), 1, false, *config),
    {
        let readings = document_operations_reading_list();
        self.0.record_readings(stats, &readings, 1, false, config, errors);
    }
}

impl Record for DocumentOperations {
    fn record(&mut self, stats: &Bson, config: &Config, errors: &mut Vec<Error>)
        ensures
            recorded(old(self).0, final(self).0, old(errors)@, final(errors)@, *stats, document_operations_readings(), 1, false, *config),
    {
        DocumentOperations::record(self, stats, config, errors)
    }
}


/// The amount of memory used.
#[derive(Debug)]
pub struct MemoryUsage(pub MongoMetric);

impl Default for MemoryUsage {
    fn default() -> (r: MemoryUsage)
        ensures
            is_new_sum(r.0, "mongodb.memory.usage"@, "The amount of memory used."@, "By"@, false),
    {
        let mut metric = MongoMetric::sum(
            Descriptor {
                name: "mongodb.memory.usage",
                description: "The amount of memory used.",
                unit: "By",
            },
        );
        MemoryUsage(metric)
    }
}

impl EmitMetric for MemoryUsage {
    fn emit(&mut self) -> (r: Metric)
        ensures
            emitted(old(self).0, final(self).0, r),
    {
        self.0.emit()
    }
}

/// The reading of [`MemoryUsage`] for one value.
pub open spec fn memory_usage_reading(v: MemoryType) -> ReadingView {
    (seq![KeyView::Key("mem"@), KeyView::Key(v.spec_name())], seq![("type"@, ValueView::String(v.spec_attribute().spec_name()))])
}

/// The readings of [`MemoryUsage`]: one per value, in declaration order.
pub open spec fn memory_usage_readings() -> Seq<ReadingView> {
    MemoryType::all().map_values(|v: MemoryType| memory_usage_reading(v))
}

fn memory_usage_reading_list() -> (r: Vec<Reading<'static>>)
    ensures
        readings_view(r@) == memory_usage_readings(),
{
    let all = MemoryType::iter();
    let mut r: Vec<Reading<'static>> = Vec::new();
    let mut i: usize = 0;
    while i < all.len()
        invariant
            all@ == MemoryType::all(),
            i <= all@.len(),
            readings_view(r@) == all@.take(i as int).map_values(|v: MemoryType| memory_usage_reading(v)),
        decreases all@.len() - i,
    {
        let v = all[i];
        let reading = Reading {
            path: vec![BsonKey::KeyStr("mem"), BsonKey::KeyStr(v.as_str())],
            attributes: vec![("type", v.attribute().as_str())],
        };
        proof {
            assert(keys_view(reading.path@) =~= seq![KeyView::Key("mem"@), KeyView::Key(v.spec_name())]);
            assert(text_attributes(reading.attributes@) =~= seq![("type"@, ValueView::String(v.spec_attribute().spec_name()))]);
            assert(readings_view(r@.push(reading)) =~= readings_view(r@).push(reading@));
            assert(all@.take(i + 1) =~= all@.take(i as int).push(v));
            assert(all@.take(i + 1).map_values(|v: MemoryType| memory_usage_reading(v)) =~= all@.take(i as int).map_values(|v: MemoryType| memory_usage_reading(v)).push(memory_usage_reading(v)));
        }
        r.push(reading);
        i = i + 1;
    }
    assert(all@.take(all@.len() as int) =~= all@);
    r
}

impl MemoryUsage {
    /// Records one point per value, read under its key.
    pub fn record(&mut self, stats: &Bson, config: &Config, errors: &mut Vec<Error>)
        requires
            readings_fit(*stats, memory_usage_readings(), 1048576),
        ensures
            recorded(old(self).0, final(self).0, old(errors)@, final(errors)@, *stats, memory_usage_readings(), 1048576, false, *config),
    {
        let readings = memory_usage_reading_list();
        self.0.record_readings(stats, &readings, 1048576, false, config, errors);
    }
}


/// The number of operations executed.
#[derive(Debug)]
pub struct OperationCount(pub MongoMetric);

impl Default for OperationCount {
    fn default() -> (r: OperationCount)
        ensures
            is_new_sum(r.0, "mongodb.operation.count"@, "The number of operations executed."@, "{operations}"@, true),
    {
        let mut metric = MongoMetric::sum(
            Descriptor {
                name: "mongodb.operation.count",
                description: "The number of operations executed.",
                unit: "{operations}",
            },
        );
        metric.data.set_monotonic(true);
        OperationCount(metric)
    }
}

impl EmitMetric for OperationCount {
    fn emit(&mut self) -> (r: Metric)
        ensures
            emitted(old(self).0, final(self).0, r),
    {
        self.0.emit()
    }
}

/// The reading of [`OperationCount`] for one value.
pub open spec fn operation_count_reading(v: Operation) -> ReadingView {
    (seq![KeyView::Key("opcounters"@), KeyView::Key(v.spec_name())], seq![("operation"@, ValueView::String(v.spec_attribute().spec_name()))])
}

/// The readings of [`OperationCount`]: one per value, in declaration order.
pub open spec fn operation_count_readings() -> Seq<ReadingView> {
    Operation::all().map_values(|v: Operation| operation_count_reading(v))
}

fn operation_count_reading_list() -> (r: Vec<Reading<'static>>)
    ensures
        readings_view(r@) == operation_count_readings(),
{
    let all = Operation::iter();
    let mut r: Vec<Reading<'static>> = Vec::new();
    let mut i: usize = 0;
    while i < all.len()
        invariant
            all@ == Operation::all(),
            i <= all@.len(),
            readings_view(r@) == all@.take(i as int).map_values(|v: Operation| operation_count_reading(v)),
        decreases all@.len() - i,
    {
        let v = all[i];
        let reading = Reading {
            path: vec![BsonKey::KeyStr("opcounters"), BsonKey::KeyStr(v.as_str())],
            attributes: vec![("operation", v.attribute().as_str())],
        };
        proof {
            assert(keys_view(reading.path@) =~= seq![KeyView::Key("opcounters"@), KeyView::Key(v.spec_name())]);
            assert(text_attributes(reading.attributes@) =~= seq![("operation"@, ValueView::String(v.spec_attribute().spec_name()))]);
            assert(readings_view(r@.push(reading)) =~= readings_view(r@).push(reading@));
            assert(all@.take(i + 1) =~= all@.take(i as int).push(v));
            assert(all@.take(i + 1).map_values(|v: Operation| operation_count_reading(v)) =~= all@.take(i as int).map_values(|v: Operation| operation_count_reading(v)).push(operation_count_reading(v)));
        }
        r.push(reading);
        i = i + 1;
    }
    assert(all@.take(all@.len() as int) =~= all@);
    r
}

impl OperationCount {
    /// Records one point per value, read under its key.
    pub fn record(&mut self, stats: &Bson, config: &Config, errors: &mut Vec<Error>)
        ensures
            recorded(old(self).0, final(self).0, old(errors)@, final(errors)@, *stats, operation_count_readings(), 1, false, *config),
    {
        let readings = operation_count_reading_list();
        self.0.record_readings(stats, &readings, 1, false, config, errors);
    }
}

impl Record for OperationCount {
    fn record(&mut self, stats: &Bson, config: &Config, errors: &mut Vec<Error>)
        ensures
            recorded(old(self).0, final(self).0, old(errors)@, final(errors)@, *stats, operation_count_readings(), 1, false, *config),
    {
        OperationCount::record(self, stats, config, errors)
    }
}


/// The latency of operations.
#[derive(Debug)]
pub struct OperationLatencyTime(pub MongoMetric);

impl Default for OperationLatencyTime {
    fn default() -> (r: OperationLatencyTime)
        ensures
            is_new_gauge(r.0, "mongodb.operation.latency.time"@, "The latency of operations."@, "us"@),
    {
        let mut metric = MongoMetric::gauge(
            Descriptor {
                name: "mongodb.operation.latency.time",
                description: "The latency of operations.",
                unit: "us",
            },
        );
        OperationLatencyTime(metric)
    }
}

impl EmitMetric for OperationLatencyTime {
    fn emit(&mut self) -> (r: Metric)
        ensures
            emitted(old(self).0, final(self).0, r),
    {
        self.0.emit()
    }
}

/// The reading of [`OperationLatencyTime`] for one value.
pub open spec fn operation_latency_time_reading(v: OperationLatency) -> ReadingView {
    (seq![KeyView::Key("opLatencies"@), KeyView::Key(v.spec_name()), KeyView::Key("latency"@)], seq![("operation"@, ValueView::String(v.spec_attribute().spec_name()))])
}

/// The readings of [`OperationLatencyTime`]: one per value, in declaration order.
pub open spec fn operation_latency_time_readings() -> Seq<ReadingView> {
    OperationLatency::all().map_values(|v: OperationLatency| operation_latency_time_reading(v))
}

fn operation_latency_time_reading_list() -> (r: Vec<Reading<'static>>)
    ensures
        readings_view(r@) == operation_latency_time_readings(),
{
    let all = OperationLatency::iter();
    let mut r: Vec<Reading<'static>> = Vec::new();
    let mut i: usize = 0;
    while i < all.len()
        invariant
            all@ == OperationLatency::all(),
            i <= all@.len(),
            readings_view(r@) == all@.take(i as int).map_values(|v: OperationLatency| operation_latency_time_reading(v)),
        decreases all@.len() - i,
    {
        let v = all[i];
        let reading = Reading {
            path: vec![BsonKey::KeyStr("opLatencies"), BsonKey::KeyStr(v.as_str()), BsonKey::KeyStr("latency")],
            attributes: vec![("operation", v.attribute().as_str())],
        };
        proof {
            assert(keys_view(reading.path@) =~= seq![KeyView::Key("opLatencies"@), KeyView::Key(v.spec_name()), KeyView::Key("latency"@)]);
            assert(text_attributes(reading.attributes@) =~= seq![("operation"@, ValueView::String(v.spec_attribute().spec_name()))]);
            assert(readings_view(r@.push(reading)) =~= readings_view(r@).push(reading@));
            assert(all@.take(i + 1) =~= all@.take(i as int).push(v));
            assert(all@.take(i + 1).map_values(|v: OperationLatency| operation_latency_time_reading(v)) =~= all@.take(i as int).map_values(|v: OperationLatency| operation_latency_time_reading(v)).push(operation_latency_time_reading(v)));
        }
        r.push(reading);
        i = i + 1;
    }
    assert(all@.take(all@.len() as int) =~= all@);
    r
}

impl OperationLatencyTime {
    /// Records one point per value, read under its key.
    pub fn record(&mut self, stats: &Bson, config: &Config, errors: &mut Vec<Error>)
        ensures
            recorded(old(self).0, final(self).0, old(errors)@, final(errors)@, *stats, operation_latency_time_readings(), 1, false, *config),
    {
        let readings = operation_latency_time_reading_list();
        self.0.record_readings(stats, &readings, 1, false, config, errors);
    }
}

impl Record for OperationLatencyTime {
    fn record(&mut self, stats: &Bson, config: &Config, errors: &mut Vec<Error>)
        ensures
            recorded(old(self).0, final(self).0, old(errors)@, final(errors)@, *stats, operation_latency_time_readings(), 1, false, *config),
    {
        OperationLatencyTime::record(self, stats, config, errors)
    }
}


/// The total number of operations performed since startup.
#[derive(Debug)]
pub struct OperationLatencyOps(pub MongoMetric);

impl Default for OperationLatencyOps {
    fn default() -> (r: OperationLatencyOps)
        ensures
            is_new_sum(r.0, "mongodb.operation.latency.ops"@, "The total number of operations performed since startup."@, "{ops}"@, false),
    {
        let mut metric = MongoMetric::sum(
            Descriptor {
                name: "mongodb.operation.latency.ops",
                description: "The total number of operations performed since startup.",
                unit: "{ops}",
            },
        );
        OperationLatencyOps(metric)
    }
}

impl EmitMetric for OperationLatencyOps {
    fn emit(&mut self) -> (r: Metric)
        ensures
            emitted(old(self).0, final(self).0, r),
    {
        self.0.emit()
    }
}

/// The reading of [`OperationLatencyOps`] for one value.
pub open spec fn operation_latency_ops_reading(v: OperationLatency) -> ReadingView {
    (seq![KeyView::Key("opLatencies"@), KeyView::Key(v.spec_name()), KeyView::Key("ops"@)], seq![("operation"@, ValueView::String(v.spec_attribute().spec_name()))])
}

/// The readings of [`OperationLatencyOps`]: one per value, in declaration order.
pub open spec fn operation_latency_ops_readings() -> Seq<ReadingView> {
    OperationLatency::all().map_values(|v: OperationLatency| operation_latency_ops_reading(v))
}

fn operation_latency_ops_reading_list() -> (r: Vec<Reading<'static>>)
    ensures
        readings_view(r@) == operation_latency_ops_readings(),
{
    let all = OperationLatency::iter();
    let mut r: Vec<Reading<'static>> = Vec::new();
    let mut i: usize = 0;
    while i < all.len()
        invariant
            all@ == OperationLatency::all(),
            i <= all@.len(),
            readings_view(r@) == all@.take(i as int).map_values(|v: OperationLatency| operation_latency_ops_reading(v)),
        decreases all@.len() - i,
    {
        let v = all[i];
        let reading = Reading {
            path: vec![BsonKey::KeyStr("opLatencies"), BsonKey::KeyStr(v.as_str()), BsonKey::KeyStr("ops")],
            attributes: vec![("operation", v.attribute().as_str())],
        };
        proof {
            assert(keys_view(reading.path@) =~= seq![KeyView::Key("opLatencies"@), KeyView::Key(v.spec_name()), KeyView::Key("ops"@)]);
            assert(text_attributes(reading.attributes@) =~= seq![("operation"@, ValueView::String(v.spec_attribute().spec_name()))]);
            assert(readings_view(r@.push(reading)) =~= readings_view(r@).push(reading@));
            assert(all@.take(i + 1) =~= all@.take(i as int).push(v));
            assert(all@.take(i + 1).map_values(|v: OperationLatency| operation_latency_ops_reading(v)) =~= all@.take(i as int).map_values(|v: OperationLatency| operation_latency_ops_reading(v)).push(operation_latency_ops_reading(v)));
        }
        r.push(reading);
        i = i + 1;
    }
    assert(all@.take(all@.len() as int) =~= all@);
    r
}

impl OperationLatencyOps {
    /// Records one point per value, read under its key.
    pub fn record(&mut self, stats: &Bson, config: &Config, errors: &mut Vec<Error>)
        ensures
            recorded(old(self).0, final(self).0, old(errors)@, final(errors)@, *stats, operation_latency_ops_readings(), 1, false, *config),
    {
        let readings = operation_latency_ops_reading_list();
        self.0.record_readings(stats, &readings, 1, false, config, errors);
    }
}

impl Record for OperationLatencyOps {
    fn record(&mut self, stats: &Bson, config: &Config, errors: &mut Vec<Error>)
        ensures
            recorded(old(self).0, final(self).0, old(errors)@, final(errors)@, *stats, operation_latency_ops_readings(), 1, false, *config),
    {
        OperationLatencyOps::record(self, stats, config, errors)
    }
}


/// The number of replicated operations executed.
#[derive(Debug)]
pub struct OperationReplCount(pub MongoMetric);

impl Default for OperationReplCount {
    fn default() -> (r: OperationReplCount)
        ensures
            is_new_sum(r.0, "mongodb.operation.repl.count"@, "The number of replicated operations executed."@, "{operations}"@, true),
    {
        let mut metric = MongoMetric::sum(
            Descriptor {
                name: "mongodb.operation.repl.count",
                description: "The number of replicated operations executed.",
                unit: "{operations}",
            },
        );
        metric.data.set_monotonic(true);
        OperationReplCount(metric)
    }
}

impl EmitMetric for OperationReplCount {
    fn emit(&mut self) -> (r: Metric)
        ensures
            emitted(old(self).0, final(self).0, r),
    {
        self.0.emit()
    }
}

/// The reading of [`OperationReplCount`] for one value.
pub open spec fn operation_repl_count_reading(v: Operation) -> ReadingView {
    (seq![KeyView::Key("opcountersRepl"@), KeyView::Key(v.spec_name())], seq![("operation"@, ValueView::String(v.spec_attribute().spec_name()))])
}

/// The readings of [`OperationReplCount`]: one per value, in declaration order.
pub open spec fn operation_repl_count_readings() -> Seq<ReadingView> {
    Operation::all().map_values(|v: Operation| operation_repl_count_reading(v))
}

fn operation_repl_count_reading_list() -> (r: Vec<Reading<'static>>)
    ensures
        readings_view(r@) == operation_repl_count_readings(),
{
    let all = Operation::iter();
    let mut r: Vec<Reading<'static>> = Vec::new();
    let mut i: usize = 0;
    while i < all.len()
        invariant
            all@ == Operation::all(),
            i <= all@.len(),
            readings_view(r@) == all@.take(i as int).map_values(|v: Operation| operation_repl_count_reading(v)),
        decreases all@.len() - i,
    {
        let v = all[i];
        let reading = Reading {
            path: vec![BsonKey::KeyStr("opcountersRepl"), BsonKey::KeyStr(v.as_str())],
            attributes: vec![("operation", v.attribute().as_str())],
        };
        proof {
            assert(keys_view(reading.path@) =~= seq![KeyView::Key("opcountersRepl"@), KeyView::Key(v.spec_name())]);
            assert(text_attributes(reading.attributes@) =~= seq![("operation"@, ValueView::String(v.spec_attribute().spec_name()))]);
            assert(readings_view(r@.push(reading)) =~= readings_view(r@).push(reading@));
            assert(all@.take(i + 1) =~= all@.take(i as int).push(v));
            assert(all@.take(i + 1).map_values(|v: Operation| operation_repl_count_reading(v)) =~= all@.take(i as int).map_values(|v: Operation| operation_repl_count_reading(v)).push(operation_repl_count_reading(v)));
        }
        r.push(reading);
        i = i + 1;
    }
    assert(all@.take(all@.len() as int) =~= all@);
    r
}

impl OperationReplCount {
    /// Records one point per value, read under its key.
    pub fn record(&mut self, stats: &Bson, config: &Config, errors: &mut Vec<Error>)
        ensures
            recorded(old(self).0, final(self).0, old(errors)@, final(errors)@, *stats, operation_repl_count_readings(), 1, false, *config),
    {
        let readings = operation_repl_count_reading_list();
        self.0.record_readings(stats, &readings, 1, false, config, errors);
    }
}

impl Record for OperationReplCount {
    fn record(&mut self, stats: &Bson, config: &Config, errors: &mut Vec<Error>)
        ensures
            recorded(old(self).0, final(self).0, old(errors)@, final(errors)@, *stats, operation_repl_count_readings(), 1, false, *config),
    {
        OperationReplCount::record(self, stats, config, errors)
    }
}


/// Number of times the lock was acquired in the specified mode.
#[derive(Debug)]
pub struct LockAquireCount(pub MongoMetric);

impl Default for LockAquireCount {
    fn default() -> (r: LockAquireCount)
        ensures
            is_new_sum(r.0, "mongodb.lock.acquire.count"@, "Number of times the lock was acquired in the specified mode."@, "{count}"@, true),
    {
        let mut metric = MongoMetric::sum(
            Descriptor {
                name: "mongodb.lock.acquire.count",
                description: "Number of times the lock was acquired in the specified mode.",
                unit: "{count}",
            },
        );
        metric.data.set_monotonic(true);
        LockAquireCount(metric)
    }
}

impl EmitMetric for LockAquireCount {
    fn emit(&mut self) -> (r: Metric)
        ensures
            emitted(old(self).0, final(self).0, r),
    {
        self.0.emit()
    }
}

impl Record for LockAquireCount {
    fn record(&mut self, stats: &Bson, config: &Config, errors: &mut Vec<Error>)
        ensures
            lock_recorded(old(self).0, final(self).0, old(errors)@, final(errors)@, *stats, "acquireCount"@, *config),
    {
        record_lock_metric(stats, "acquireCount", config, &mut self.0, errors);
    }
}


/// Cumulative wait time for the lock acquisitions.
#[derive(Debug)]
pub struct LockAquireTime(pub MongoMetric);

impl Default for LockAquireTime {
    fn default() -> (r: LockAquireTime)
        ensures
            is_new_sum(r.0, "mongodb.lock.acquire.time"@, "Cumulative wait time for the lock acquisitions."@, "microseconds"@, true),
    {
        let mut metric = MongoMetric::sum(
            Descriptor {
                name: "mongodb.lock.acquire.time",
                description: "Cumulative wait time for the lock acquisitions.",
                unit: "microseconds",
            },
        );
        metric.data.set_monotonic(true);
        LockAquireTime(metric)
    }
}

impl EmitMetric for LockAquireTime {
    fn emit(&mut self) -> (r: Metric)
        ensures
            emitted(old(self).0, final(self).0, r),
    {
        self.0.emit()
    }
}

impl Record for LockAquireTime {
    fn record(&mut self, stats: &Bson, config: &Config, errors: &mut Vec<Error>)
        ensures
            lock_recorded(old(self).0, final(self).0, old(errors)@, final(errors)@, *stats, "timeAcquiringMicros"@, *config),
    {
        record_lock_metric(stats, "timeAcquiringMicros", config, &mut self.0, errors);
    }
}


/// Number of times the lock acquisitions encountered waits because the locks were held in a conflicting mode.
#[derive(Debug)]
pub struct LockAquireWaitCount(pub MongoMetric);

impl Default for LockAquireWaitCount {
    fn default() -> (r: LockAquireWaitCount)
        ensures
            is_new_sum(r.0, "mongodb.lock.acquire.wait_count"@, "Number of times the lock acquisitions encountered waits because the locks were held in a conflicting mode."@, "{count}"@, true),
    {
        let mut metric = MongoMetric::sum(
            Descriptor {
                name: "mongodb.lock.acquire.wait_count",
                description: "Number of times the lock acquisitions encountered waits because the locks were held in a conflicting mode.",
                unit: "{count}",
            },
        );
        metric.data.set_monotonic(true);
        LockAquireWaitCount(metric)
    }
}

impl EmitMetric for LockAquireWaitCount {
    fn emit(&mut self) -> (r: Metric)
        ensures
            emitted(old(self).0, final(self).0, r),
    {
        self.0.emit()
    }
}

impl Record for LockAquireWaitCount {
    fn record(&mut self, stats: &Bson, config: &Config, errors: &mut Vec<Error>)
        ensures
            lock_recorded(old(self).0, final(self).0, old(errors)@, final(errors)@, *stats, "acquireWaitCount"@, *config),
    {
        record_lock_metric(stats, "acquireWaitCount", config, &mut self.0, errors);
    }
}


/// Number of times the lock acquisitions encountered deadlocks.
#[derive(Debug)]
pub struct LockAquireDeadlockCount(pub MongoMetric);

impl Default for LockAquireDeadlockCount {
    fn default() -> (r: LockAquireDeadlockCount)
        ensures
            is_new_sum(r.0, "mongodb.lock.deadlock.count"@, "Number of times the lock acquisitions encountered deadlocks."@, "{count}"@, true),
    {
        let mut metric = MongoMetric::sum(
            Descriptor {
                name: "mongodb.lock.deadlock.count",
                description: "Number of times the lock acquisitions encountered deadlocks.",
                unit: "{count}",
            },
        );
        metric.data.set_monotonic(true);
        LockAquireDeadlockCount(metric)
    }
}

impl EmitMetric for LockAquireDeadlockCount {
    fn emit(&mut self) -> (r: Metric)
        ensures
            emitted(old(self).0, final(self).0, r),
    {
        self.0.emit()
    }
}

impl Record for LockAquireDeadlockCount {
    fn record(&mut self, stats: &Bson, config: &Config, errors: &mut Vec<Error>)
        ensures
            lock_recorded(old(self).0, final(self).0, old(errors)@, final(errors)@, *stats, "deadlockCount"@, *config),
    {
        record_lock_metric(stats, "deadlockCount", config, &mut self.0, errors);
    }
}


/// The number of cache operations of the instance.
#[derive(Debug)]
pub struct CacheOperations(pub MongoMetric);

impl Default for CacheOperations {
    fn default() -> (r: CacheOperations)
        ensures
            is_new_sum(
                r.0,
                "mongodb.cache.operations"@,
                "The number of cache operations of the instance."@,
                "{operations}"@,
                true,
            ),
    {
        let mut metric = MongoMetric::sum(
            Descriptor {
                name: "mongodb.cache.operations",
                description: "The number of cache operations of the instance.",
                unit: "{operations}",
            },
        );
        metric.data.set_monotonic(true);
        CacheOperations(metric)
    }
}

impl EmitMetric for CacheOperations {
    fn emit(&mut self) -> (r: Metric)
        ensures
            emitted(old(self).0, final(self).0, r),
    {
        self.0.emit()
    }
}

/// Where the server reports the pages read into its cache.
pub open spec fn cache_misses_path() -> Seq<KeyView> {
    seq![KeyView::Key("wiredTiger"@), KeyView::Key("cache"@), KeyView::Key("pages read into cache"@)]
}

/// Where the server reports the pages requested from its cache.
pub open spec fn cache_requests_path() -> Seq<KeyView> {
    seq![
        KeyView::Key("wiredTiger"@),
        KeyView::Key("cache"@),
        KeyView::Key("pages requested from the cache"@),
    ]
}

/// The attributes of a point for a cache status.
pub open spec fn cache_status_attributes(status: attributes::CacheStatus) -> Seq<(Seq<char>, ValueView)> {
    seq![("type"@, ValueView::String(status.spec_name()))]
}

/// The hits, requests less misses, fit in an `i64` where both are reported.
pub open spec fn cache_counts_fit(stats: Bson) -> bool {
    match (integer_at(stats, cache_misses_path()), integer_at(stats, cache_requests_path())) {
        (Some(m), Some(t)) => i64::MIN <= t - m <= i64::MAX,
        _ => true,
    }
}

/// Whether the cache counts of `stats` can be recorded.
pub fn cache_counts_in_range(stats: &Bson) -> (r: bool)
    ensures
        r == cache_counts_fit(*stats),
{
    let misses = [BsonKey::KeyStr("wiredTiger"), BsonKey::KeyStr("cache"), BsonKey::KeyStr("pages read into cache")];
    let requests = [
        BsonKey::KeyStr("wiredTiger"),
        BsonKey::KeyStr("cache"),
        BsonKey::KeyStr("pages requested from the cache"),
    ];
    assert(keys_view(misses@) =~= cache_misses_path());
    assert(keys_view(requests@) =~= cache_requests_path());
    match (doc::get_i64(stats, &misses), doc::get_i64(stats, &requests)) {
        (Ok(m), Ok(t)) => t.checked_sub(m).is_some(),
        _ => true,
    }
}

/// Recording the cache operations: nothing unless the storage engine is WiredTiger; then a
/// miss point for the pages read into the cache, and a hit point for the pages requested
/// less those read; the first count that cannot be read ends the recording with an error.
pub open spec fn cache_recorded(
    old: MongoMetric,
    new: MongoMetric,
    old_errors: Seq<Error>,
    new_errors: Seq<Error>,
    stats: Bson,
    config: Config,
) -> bool {
    &&& new.descriptor == old.descriptor
    &&& new.data.same_kind(old.data)
    &&& if !(config.storage_engine matches Some(StorageEngine::WiredTiger)) {
        new.data.points() == old.data.points() && new_errors == old_errors
    } else {
        match integer_at(stats, cache_misses_path()) {
            None => new.data.points() == old.data.points() && errors_recorded(
                old_errors,
                new_errors,
                old.descriptor.name@,
                stats,
                seq![cache_misses_path()],
            ),
            Some(m) => {
                let miss = point_at(m, config, cache_status_attributes(attributes::CacheStatus::Miss));
                match integer_at(stats, cache_requests_path()) {
                    None => new.data.points() == old.data.points().push(miss) && errors_recorded(
                        old_errors,
                        new_errors,
                        old.descriptor.name@,
                        stats,
                        seq![cache_requests_path()],
                    ),
                    Some(t) => new.data.points() == old.data.points().push(miss).push(
                        point_at(
                            (t - m) as i64,
                            config,
                            cache_status_attributes(attributes::CacheStatus::Hit),
                        ),
                    ) && new_errors == old_errors,
                }
            },
        }
    }
}

impl CacheOperations {
    /// Records the cache misses and hits.
    pub fn record(&mut self, stats: &Bson, config: &Config, errors: &mut Vec<Error>)
        requires
            config.storage_engine matches Some(StorageEngine::WiredTiger) ==> cache_counts_fit(*stats),
        ensures
            cache_recorded(old(self).0, final(self).0, old(errors)@, final(errors)@, *stats, *config),
    {
        match config.storage_engine {
            Some(StorageEngine::WiredTiger) => {},
            _ => {
                // the metric is only reported by the WiredTiger storage engine
                return;
            },
        }
        let misses_path = [
            BsonKey::KeyStr("wiredTiger"),
            BsonKey::KeyStr("cache"),
            BsonKey::KeyStr("pages read into cache"),
        ];
        assert(keys_view(misses_path@) =~= cache_misses_path());
        let cache_misses = match doc::get_i64(stats, &misses_path) {
            Ok(value) => {
                let attributes = vec![KeyValue::new("type", attributes::CacheStatus::Miss.as_str())];
                assert(attributes_view(attributes@) =~= cache_status_attributes(attributes::CacheStatus::Miss));
                self.0.data.push(datapoint(value, config, attributes));
                value
            },
            Err(err) => {
                errors.push(Error::CollectMetric { metric: self.0.descriptor.name, source: err });
                assert(errors@.take(old(errors)@.len() as int) =~= old(errors)@);
                return;
            },
        };
        let requests_path = [
            BsonKey::KeyStr("wiredTiger"),
            BsonKey::KeyStr("cache"),
            BsonKey::KeyStr("pages requested from the cache"),
        ];
        assert(keys_view(requests_path@) =~= cache_requests_path());
        let cache_total = match doc::get_i64(stats, &requests_path) {
            Ok(value) => value,
            Err(err) => {
                errors.push(Error::CollectMetric { metric: self.0.descriptor.name, source: err });
                assert(errors@.take(old(errors)@.len() as int) =~= old(errors)@);
                return;
            },
        };
        let cache_hits = cache_total - cache_misses;
        let attributes = vec![KeyValue::new("type", attributes::CacheStatus::Hit.as_str())];
        assert(attributes_view(attributes@) =~= cache_status_attributes(attributes::CacheStatus::Hit));
        self.0.data.push(datapoint(cache_hits, config, attributes));
    }
}

/// The time the global lock has been held.
#[derive(Debug)]
pub struct GlobalLockTime(pub MongoMetric);

impl Default for GlobalLockTime {
    fn default() -> (r: GlobalLockTime)
        ensures
            is_new_sum(r.0, "mongodb.global_lock.time"@, "The time the global lock has been held."@, "ms"@, true),
    {
        let mut metric = MongoMetric::sum(
            Descriptor {
                name: "mongodb.global_lock.time",
                description: "The time the global lock has been held.",
                unit: "ms",
            },
        );
        metric.data.set_monotonic(true);
        GlobalLockTime(metric)
    }
}

impl EmitMetric for GlobalLockTime {
    fn emit(&mut self) -> (r: Metric)
        ensures
            emitted(old(self).0, final(self).0, r),
    {
        self.0.emit()
    }
}

/// Where the server reports the time the global lock has been held, in microseconds.
pub open spec fn global_lock_path() -> Seq<KeyView> {
    seq![KeyView::Key("globalLock"@), KeyView::Key("totalTime"@)]
}

/// Integer division that rounds toward zero, as `/` does on `i64`.
pub open spec fn div_toward_zero(v: int, d: int) -> int {
    if v >= 0 {
        v / d
    } else {
        -((-v) / d)
    }
}

impl Record for GlobalLockTime {
    fn record(&mut self, stats: &Bson, config: &Config, errors: &mut Vec<Error>)
        ensures
            final(self).0.descriptor == old(self).0.descriptor,
            final(self).0.data.same_kind(old(self).0.data),
            match integer_at(*stats, global_lock_path()) {
                Some(v) => final(self).0.data.points() == old(self).0.data.points().push(
                    point_at(div_toward_zero(v as int, 1000) as i64, *config, Seq::empty()),
                ) && final(errors)@ == old(errors)@,
                None => final(self).0.data.points() == old(self).0.data.points() && errors_recorded(
                    old(errors)@,
                    final(errors)@,
                    old(self).0.descriptor.name@,
                    *stats,
                    seq![global_lock_path()],
                ),
            },
    {
        let path = [BsonKey::KeyStr("globalLock"), BsonKey::KeyStr("totalTime")];
        assert(keys_view(path@) =~= global_lock_path());
        match doc::get_i64(stats, &path) {
            Ok(value) => {
                let lock_held_time_millis = value / 1000;
                let attributes: Vec<KeyValue> = Vec::new();
                assert(attributes_view(attributes@) =~= Seq::empty());
                self.0.data.push(datapoint(lock_held_time_millis, config, attributes));
            },
            Err(err) => {
                errors.push(Error::CollectMetric { metric: self.0.descriptor.name, source: err });
                assert(errors@.take(old(errors)@.len() as int) =~= old(errors)@);
            },
        }
    }
}

/// The number of existing databases.
#[derive(Debug)]
pub struct DatabaseCount(pub MongoMetric);

impl Default for DatabaseCount {
    fn default() -> (r: DatabaseCount)
        ensures
            is_new_sum(r.0, "mongodb.database.count"@, "The number of existing databases."@, "{databases}"@, false),
    {
        DatabaseCount(
            MongoMetric::sum(
                Descriptor {
                    name: "mongodb.database.count",
                    description: "The number of existing databases.",
                    unit: "{databases}",
                },
            ),
        )
    }
}

impl EmitMetric for DatabaseCount {
    fn emit(&mut self) -> (r: Metric)
        ensures
            emitted(old(self).0, final(self).0, r),
    {
        self.0.emit()
    }
}

impl DatabaseCount {
    /// Records the number of databases, capped at the largest `i64`.
    pub fn record(&mut self, num_databases: usize, config: &Config)
        ensures
            final(self).0.descriptor == old(self).0.descriptor,
            final(self).0.data.same_kind(old(self).0.data),
            final(self).0.data.points() == old(self).0.data.points().push(
                point_at(
                    if num_databases <= i64::MAX {
                        num_databases as i64
                    } else {
                        i64::MAX
                    },
                    *config,
                    Seq::empty(),
                ),
            ),
    {
        let value: i64 = if num_databases as u128 <= i64::MAX as u128 {
            num_databases as i64
        } else {
            i64::MAX
        };
        let attributes: Vec<KeyValue> = Vec::new();
        assert(attributes_view(attributes@) =~= Seq::empty());
        self.0.data.push(datapoint(value, config, attributes));
    }
}

/// The number of times an index has been accessed.
#[derive(Debug)]
pub struct IndexAccesses(pub MongoMetric);

impl Default for IndexAccesses {
    fn default() -> (r: IndexAccesses)
        ensures
            is_new_sum(
                r.0,
                "mongodb.index.access.count"@,
                "The number of times an index has been accessed."@,
                "{accesses}"@,
                false,
            ),
    {
        IndexAccesses(
            MongoMetric::sum(
                Descriptor {
                    name: "mongodb.index.access.count",
                    description: "The number of times an index has been accessed.",
                    unit: "{accesses}",
                },
            ),
        )
    }
}

impl EmitMetric for IndexAccesses {
    fn emit(&mut self) -> (r: Metric)
        ensures
            emitted(old(self).0, final(self).0, r),
    {
        self.0.emit()
    }
}

/// Where an index statistics document reports its accesses.
pub open spec fn index_ops_path() -> Seq<KeyView> {
    seq![KeyView::Key("accesses"@), KeyView::Key("ops"@)]
}

/// The accesses of the index statistics documents that report them, added up.
pub open spec fn access_total(docs: Seq<Bson>) -> int
    decreases docs.len(),
{
    if docs.len() == 0 {
        0
    } else {
        access_total(docs.drop_last()) + match integer_at(docs.last(), index_ops_path()) {
            Some(v) => v as int,
            None => 0,
        }
    }
}

/// The index statistics documents that do not report their accesses, in order.
pub open spec fn access_failures(docs: Seq<Bson>) -> Seq<Bson>
    decreases docs.len(),
{
    if docs.len() == 0 {
        Seq::empty()
    } else {
        access_failures(docs.drop_last()) + if integer_at(docs.last(), index_ops_path()) is None {
            seq![docs.last()]
        } else {
            Seq::empty()
        }
    }
}

/// Every running total of the accesses fits in an `i64`.
pub open spec fn access_totals_fit(docs: Seq<Bson>) -> bool {
    forall|k: int| 0 <= k <= docs.len() ==> i64::MIN <= #[trigger] access_total(docs.take(k)) <= i64::MAX
}

/// Whether the accesses of `index_stats` can be added up.
pub fn index_accesses_in_range(index_stats: &[Bson]) -> (r: bool)
    ensures
        r == access_totals_fit(index_stats@),
{
    let path = [BsonKey::KeyStr("accesses"), BsonKey::KeyStr("ops")];
    assert(keys_view(path@) =~= index_ops_path());
    let mut total: i64 = 0;
    let mut i: usize = 0;
    assert(index_stats@.take(0) =~= Seq::<Bson>::empty());
    while i < index_stats.len()
        invariant
            keys_view(path@) == index_ops_path(),
            i <= index_stats@.len(),
            total == access_total(index_stats@.take(i as int)),
            forall|k: int| 0 <= k <= i ==> i64::MIN <= #[trigger] access_total(index_stats@.take(k)) <= i64::MAX,
        decreases index_stats@.len() - i,
    {
        proof {
            assert(index_stats@.take(i + 1).drop_last() =~= index_stats@.take(i as int));
            assert(index_stats@.take(i + 1).last() == index_stats@[i as int]);
        }
        match doc::get_i64(&index_stats[i], &path) {
            Ok(value) => match total.checked_add(value) {
                Some(t) => {
                    total = t;
                },
                None => {
                    proof {
                        assert(access_total(index_stats@.take(i + 1)) == total + value);
                        assert(!(i64::MIN <= access_total(index_stats@.take(i + 1)) <= i64::MAX));
                    }
                    return false;
                },
            },
            Err(_) => {},
        }
        i = i + 1;
        assert forall|k: int| 0 <= k <= i implies i64::MIN <= #[trigger] access_total(index_stats@.take(k))
            <= i64::MAX by {
            if k == i {
                assert(access_total(index_stats@.take(k)) == total);
            }
        }
    }
    assert(index_stats@.take(index_stats@.len() as int) =~= index_stats@);
    true
}

/// One collect error of `metric` for each failing document, in order.
pub open spec fn access_errors_recorded(
    old: Seq<Error>,
    new: Seq<Error>,
    metric: Seq<char>,
    failures: Seq<Bson>,
) -> bool {
    &&& new.len() == old.len() + failures.len()
    &&& new.take(old.len() as int) == old
    &&& forall|j: int|
        #![trigger failures[j]]
        0 <= j < failures.len() ==> is_collect_error(new[old.len() + j], metric, failures[j], index_ops_path())
}

impl IndexAccesses {
    /// Records the accesses of the indexes of a collection, added up, as one point for the
    /// collection; a document that does not report its accesses gives an error instead.
    pub fn record(
        &mut self,
        index_stats: &[Bson],
        database_name: &str,
        collection_name: &str,
        config: &Config,
        errors: &mut Vec<Error>,
    )
        requires
            access_totals_fit(index_stats@),
        ensures
            final(self).0.descriptor == old(self).0.descriptor,
            final(self).0.data.same_kind(old(self).0.data),
            final(self).0.data.points() == old(self).0.data.points().push(
                point_at(
                    access_total(index_stats@) as i64,
                    *config,
                    seq![("collection"@, ValueView::String(collection_name@))],
                ),
            ),
            access_errors_recorded(
                old(errors)@,
                final(errors)@,
                old(self).0.descriptor.name@,
                access_failures(index_stats@),
            ),
    {
        let path = [BsonKey::KeyStr("accesses"), BsonKey::KeyStr("ops")];
        assert(keys_view(path@) =~= index_ops_path());
        let mut index_accesses_total: i64 = 0;
        let mut i: usize = 0;
        assert(index_stats@.take(0) =~= Seq::<Bson>::empty());
        assert(errors@.take(old(errors)@.len() as int) =~= old(errors)@);
        while i < index_stats.len()
            invariant
                keys_view(path@) == index_ops_path(),
                access_totals_fit(index_stats@),
                i <= index_stats@.len(),
                index_accesses_total == access_total(index_stats@.take(i as int)),
                self.0.descriptor.name == old(self).0.descriptor.name,
                access_errors_recorded(
                    old(errors)@,
                    errors@,
                    old(self).0.descriptor.name@,
                    access_failures(index_stats@.take(i as int)),
                ),
            decreases index_stats@.len() - i,
        {
            proof {
                assert(index_stats@.take(i + 1).drop_last() =~= index_stats@.take(i as int));
                assert(index_stats@.take(i + 1).last() == index_stats@[i as int]);
                assert(i64::MIN <= access_total(index_stats@.take(i + 1)) <= i64::MAX);
            }
            let ghost prev = errors@;
            match doc::get_i64(&index_stats[i], &path) {
                Ok(value) => {
                    index_accesses_total = index_accesses_total + value;
                    assert(access_failures(index_stats@.take(i + 1)) =~= access_failures(index_stats@.take(i as int)));
                },
                Err(err) => {
                    errors.push(Error::CollectMetric { metric: self.0.descriptor.name, source: err });
                    proof {
                        let f = access_failures(index_stats@.take(i + 1));
                        let f0 = access_failures(index_stats@.take(i as int));
                        assert(f =~= f0.push(index_stats@[i as int]));
                        assert(errors@.take(old(errors)@.len() as int) =~= prev.take(old(errors)@.len() as int));
                        assert forall|j: int| #![trigger f[j]] 0 <= j < f.len() implies is_collect_error(
                            errors@[old(errors)@.len() + j],
                            old(self).0.descriptor.name@,
                            f[j],
                            index_ops_path(),
                        ) by {
                            if j < f0.len() {
                                assert(f[j] == f0[j]);
                                assert(errors@[old(errors)@.len() + j] == prev[old(errors)@.len() + j]);
                            }
                        }
                    }
                },
            }
            i = i + 1;
        }
        assert(index_stats@.take(index_stats@.len() as int) =~= index_stats@);
        let attributes = vec![KeyValue { key: String::from_str("collection"), value: AttributeValue::String(String::from_str(collection_name)) }];
        assert(attributes_view(attributes@) =~= seq![("collection"@, ValueView::String(collection_name@))]);
        self.0.data.push(datapoint(index_accesses_total, config, attributes));
    }
}


/// The total time spent performing operations.
#[derive(Debug)]
pub struct OperationTime(pub MongoMetric);

impl Default for OperationTime {
    fn default() -> (r: OperationTime)
        ensures
            is_new_sum(
                r.0,
                "mongodb.operation.time"@,
                "The total time spent performing operations."@,
                "ms"@,
                true,
            ),
    {
        let mut metric = MongoMetric::sum(
            Descriptor {
                name: "mongodb.operation.time",
                description: "The total time spent performing operations.",
                unit: "ms",
            },
        );
        metric.data.set_monotonic(true);
        OperationTime(metric)
    }
}

impl EmitMetric for OperationTime {
    fn emit(&mut self) -> (r: Metric)
        ensures
            emitted(old(self).0, final(self).0, r),
    {
        self.0.emit()
    }
}

/// Where the `top` command reports its totals per collection.
pub open spec fn totals_path() -> Seq<KeyView> {
    seq![KeyView::Key("totals"@)]
}

/// The keys of document entries, in order, leaving out `note`.
pub open spec fn names_except_note(entries: Seq<(String, Bson)>) -> Seq<Seq<char>>
    decreases entries.len(),
{
    if entries.len() == 0 {
        Seq::empty()
    } else {
        names_except_note(entries.drop_last()) + if entries.last().0@ != "note"@ {
            seq![entries.last().0@]
        } else {
            Seq::empty()
        }
    }
}

/// The collection names under `totals`, where `totals` is a document.
pub open spec fn collection_names(stats: Bson) -> Option<Seq<Seq<char>>> {
    match lookup(stats, totals_path()) {
        Some(Bson::Document(d)) => Some(names_except_note(d@)),
        _ => None,
    }
}

/// The texts, as their views.
pub open spec fn texts_view<'a>(names: Seq<&'a str>) -> Seq<Seq<char>> {
    names.map_values(|s: &'a str| s@)
}

/// The names of the collections in the totals of a `top` command, in order, leaving out
/// its `note`.
pub fn collection_path_names(stats: &Bson) -> (r: Result<Vec<&str>, doc::Error>)
    ensures
        match r {
            Ok(names) => collection_names(*stats) == Some(texts_view(names@)),
            Err(e) => collection_names(*stats) is None && if lookup(*stats, totals_path()) is None {
                doc::is_not_found(*stats, totals_path(), e)
            } else {
                doc::is_type_error(*stats, totals_path(), "map"@, e)
            },
        },
{
    let path = [BsonKey::KeyStr("totals")];
    assert(keys_view(path@) =~= totals_path());
    let totals = match doc::get_path(stats, &path) {
        Ok(t) => t,
        Err(e) => {
            return Err(e);
        },
    };
    match totals {
        Bson::Document(d) => {
            let mut names: Vec<&str> = Vec::new();
            let mut i: usize = 0;
            assert(d@.take(0) =~= Seq::<(String, Bson)>::empty());
            while i < d.len()
                invariant
                    i <= d@.len(),
                    texts_view(names@) == names_except_note(d@.take(i as int)),
                decreases d@.len() - i,
            {
                proof {
                    assert(d@.take(i + 1).drop_last() =~= d@.take(i as int));
                    assert(d@.take(i + 1).last() == d@[i as int]);
                }
                let name = d[i].0.as_str();
                if !crate::text::str_eq(name, "note") {
                    proof {
                        assert(texts_view(names@.push(name)) =~= texts_view(names@).push(name@));
                    }
                    names.push(name);
                } else {
                    assert(names_except_note(d@.take(i + 1)) =~= names_except_note(d@.take(i as int)));
                }
                i = i + 1;
            }
            assert(d@.take(d@.len() as int) =~= d@);
            Ok(names)
        },
        _ => Err(
            doc::Error {
                path: doc::OwnedPath::from_keys(&path),
                source: doc::QueryError::InvalidType(
                    doc::InvalidTypeError { expected_type: String::from_str("map"), value: totals.duplicate() },
                ),
            },
        ),
    }
}

/// The key under which the `top` command reports an operation.
pub open spec fn operation_time_key(op: Operation) -> Seq<char> {
    match op {
        Operation::Insert => "insert"@,
        Operation::Query => "queries"@,
        Operation::Update => "update"@,
        Operation::Delete => "remove"@,
        Operation::Getmore => "getmore"@,
        Operation::Command => "commands"@,
    }
}

fn operation_key(op: Operation) -> (r: &'static str)
    ensures
        r@ == operation_time_key(op),
{
    match op {
        Operation::Insert => "insert",
        Operation::Query => "queries",
        Operation::Update => "update",
        Operation::Delete => "remove",
        Operation::Getmore => "getmore",
        Operation::Command => "commands",
    }
}

/// Where the `top` command reports the time of an operation on a collection.
pub open spec fn op_time_path(name: Seq<char>, op: Operation) -> Seq<KeyView> {
    seq![
        KeyView::Key("totals"@),
        KeyView::Key(name),
        KeyView::Key(operation_time_key(op)),
        KeyView::Key("time"@),
    ]
}

/// The time of an operation on a collection, where it is reported.
pub open spec fn time_value(stats: Bson, name: Seq<char>, op: Operation) -> Option<i64> {
    integer_at(stats, op_time_path(name, op))
}

/// The time of an operation, added up over the collections.
pub open spec fn op_total(stats: Bson, names: Seq<Seq<char>>, op: Operation) -> int
    decreases names.len(),
{
    if names.len() == 0 {
        0
    } else {
        op_total(stats, names.drop_last(), op) + match time_value(stats, names.last(), op) {
            Some(v) => v as int,
            None => 0,
        }
    }
}

/// Every time before the `j`-th operation of the `i`-th collection is reported.
pub open spec fn times_present_before(stats: Bson, names: Seq<Seq<char>>, i: int, j: int) -> bool {
    &&& forall|i2: int, j2: int|
        #![trigger time_value(stats, names[i2], Operation::all()[j2])]
        0 <= i2 < i && 0 <= j2 < 6 ==> time_value(stats, names[i2], Operation::all()[j2]) is Some
    &&& forall|j2: int|
        #![trigger time_value(stats, names[i], Operation::all()[j2])]
        0 <= j2 < j ==> time_value(stats, names[i], Operation::all()[j2]) is Some
}

/// The `j`-th operation of the `i`-th collection is the first time that is not reported.
pub open spec fn first_missing_time(stats: Bson, names: Seq<Seq<char>>, i: int, j: int) -> bool {
    &&& 0 <= i < names.len()
    &&& 0 <= j < 6
    &&& times_present_before(stats, names, i, j)
    &&& time_value(stats, names[i], Operation::all()[j]) is None
}

/// Each running total of the operation times fits in an `i64`.
pub open spec fn operation_times_fit(stats: Bson, names: Seq<Seq<char>>) -> bool {
    forall|i: int, j: int|
        #![trigger time_value(stats, names[i], Operation::all()[j])]
        0 <= i < names.len() && 0 <= j < 6 && times_present_before(stats, names, i, j + 1) ==> i64::MIN
            <= op_total(stats, names.take(i), Operation::all()[j]) + time_value(
            stats,
            names[i],
            Operation::all()[j],
        ).unwrap() <= i64::MAX
}

/// The time of each operation, added up over the collections, one entry per operation in
/// declaration order; none when there is no collection.
pub open spec fn operation_totals(stats: Bson, names: Seq<Seq<char>>) -> Seq<(Operation, i64)> {
    if names.len() == 0 {
        Seq::empty()
    } else {
        Operation::all().map_values(|op: Operation| (op, op_total(stats, names, op) as i64))
    }
}

/// Where the `top` command reports the time of `key` operations on collection `name`.
pub open spec fn top_time_path(name: Seq<char>, key: Seq<char>) -> Seq<KeyView> {
    seq![KeyView::Key("totals"@), KeyView::Key(name), KeyView::Key(key), KeyView::Key("time"@)]
}

/// The time of each operation on a collection is read where the `top` command reports it,
/// under the keys MongoDB uses: inserts under `insert`, queries under `queries`, updates
/// under `update`, deletes under `remove`, getmores under `getmore` and commands under
/// `commands`. No two operations are read from the same place, and the total of an
/// operation over one collection is its time there, or nothing where none is reported.
pub proof fn operation_times_are_read_where_top_reports_them(stats: Bson, name: Seq<char>, op: Operation, other: Operation)
    ensures
        time_value(stats, name, Operation::Insert) == integer_at(stats, top_time_path(name, "insert"@)),
        time_value(stats, name, Operation::Query) == integer_at(stats, top_time_path(name, "queries"@)),
        time_value(stats, name, Operation::Update) == integer_at(stats, top_time_path(name, "update"@)),
        time_value(stats, name, Operation::Delete) == integer_at(stats, top_time_path(name, "remove"@)),
        time_value(stats, name, Operation::Getmore) == integer_at(stats, top_time_path(name, "getmore"@)),
        time_value(stats, name, Operation::Command) == integer_at(stats, top_time_path(name, "commands"@)),
        op != other ==> op_time_path(name, op) != op_time_path(name, other),
        op_total(stats, seq![name], op) == match time_value(stats, name, op) {
            Some(v) => v as int,
            None => 0,
        },
{
    assert(op_time_path(name, Operation::Insert) =~= top_time_path(name, "insert"@));
    assert(op_time_path(name, Operation::Query) =~= top_time_path(name, "queries"@));
    assert(op_time_path(name, Operation::Update) =~= top_time_path(name, "update"@));
    assert(op_time_path(name, Operation::Delete) =~= top_time_path(name, "remove"@));
    assert(op_time_path(name, Operation::Getmore) =~= top_time_path(name, "getmore"@));
    assert(op_time_path(name, Operation::Command) =~= top_time_path(name, "commands"@));
    if op != other {
        reveal_strlit("insert");
        reveal_strlit("queries");
        reveal_strlit("update");
        reveal_strlit("remove");
        reveal_strlit("getmore");
        reveal_strlit("commands");
        let k = operation_time_key(op);
        let l = operation_time_key(other);
        assert(k.len() != l.len() || k[0] != l[0]);
        assert(op_time_path(name, op)[2] != op_time_path(name, other)[2]);
    }
    assert(seq![name].drop_last() =~= Seq::<Seq<char>>::empty());
    assert(seq![name].last() == name);
    assert(op_total(stats, Seq::<Seq<char>>::empty(), op) == 0);
}

/// A lock metric reads each lock type and mode under the keys that name them as
/// attributes' MongoDB keys: `locks.<lock type key>.<metric key>.<mode key>`.
pub proof fn lock_readings_use_server_status_keys(t: LockType, m: LockMode, key: Seq<char>)
    ensures
        t.spec_name() == t.spec_attribute().spec_mongodb_key(),
        m.spec_name() == m.spec_attribute().spec_mongodb_key(),
        lock_reading(t, m, key).0 == seq![
            KeyView::Key("locks"@),
            KeyView::Key(t.spec_attribute().spec_mongodb_key()),
            KeyView::Key(key),
            KeyView::Key(m.spec_attribute().spec_mongodb_key()),
        ],
{
}

/// The totals hold each operation at most once, as the keys of a map do, and, where there
/// are collections, every operation once, with its total.
pub proof fn operation_totals_name_each_operation_once(stats: Bson, names: Seq<Seq<char>>)
    ensures
        operation_totals(stats, names).map_values(|e: (Operation, i64)| e.0).no_duplicates(),
        names.len() > 0 ==> forall|op: Operation|
            #![trigger Operation::all().contains(op)]
            Operation::all().contains(op) ==> operation_totals(stats, names).contains(
                (op, op_total(stats, names, op) as i64),
            ),
{
    let t = operation_totals(stats, names);
    let ops = t.map_values(|e: (Operation, i64)| e.0);
    if names.len() > 0 {
        assert(ops =~= Operation::all());
        assert forall|op: Operation| #![trigger Operation::all().contains(op)] Operation::all().contains(op) implies t.contains(
            (op, op_total(stats, names, op) as i64),
        ) by {
            let j = choose|j: int| 0 <= j < Operation::all().len() && Operation::all()[j] == op;
            assert(t[j] == (op, op_total(stats, names, op) as i64));
        }
    } else {
        assert(ops =~= Seq::<Operation>::empty());
    }
}

/// Adds up, per operation, the time the `top` command reports for each collection; the
/// first time that is not reported ends it with an error.
#[verifier::spinoff_prover]
#[verifier::rlimit(50)]
pub fn aggregate_operation_time_values(stats: &Bson, collection_path_names: &[&str]) -> (r: Result<
    Vec<(Operation, i64)>,
    doc::Error,
>)
    requires
        operation_times_fit(*stats, texts_view(collection_path_names@)),
    ensures
        match r {
            Ok(totals) => times_present_before(
                *stats,
                texts_view(collection_path_names@),
                collection_path_names@.len() as int,
                0,
            ) && totals@ == operation_totals(*stats, texts_view(collection_path_names@)),
            Err(e) => exists|i: int, j: int|
                #[trigger] first_missing_time(*stats, texts_view(collection_path_names@), i, j)
                    && is_integer_error(
                    *stats,
                    op_time_path(texts_view(collection_path_names@)[i], Operation::all()[j]),
                    e,
                ),
        },
{
    let ghost nv = texts_view(collection_path_names@);
    let ops = Operation::iter();
    let mut totals: Vec<i64> = Vec::new();
    let mut k: usize = 0;
    while k < ops.len()
        invariant
            ops@ == Operation::all(),
            k <= 6,
            totals@.len() == k,
            forall|j: int| 0 <= j < k ==> totals@[j] == 0,
        decreases 6 - k,
    {
        totals.push(0);
        k = k + 1;
    }
    let mut i: usize = 0;
    while i < collection_path_names.len()
        invariant
            nv == texts_view(collection_path_names@),
            operation_times_fit(*stats, nv),
            ops@ == Operation::all(),
            i <= collection_path_names@.len(),
            totals@.len() == 6,
            forall|j: int| 0 <= j < 6 ==> totals@[j] == op_total(*stats, nv.take(i as int), Operation::all()[j]),
            times_present_before(*stats, nv, i as int, 0),
        decreases collection_path_names@.len() - i,
    {
        let name = collection_path_names[i];
        let mut j: usize = 0;
        proof {
            assert(nv.take(i + 1).drop_last() =~= nv.take(i as int));
            assert(nv.take(i + 1).last() == nv[i as int]);
            assert(nv[i as int] == name@);
        }
        while j < ops.len()
            invariant
                nv == texts_view(collection_path_names@),
                operation_times_fit(*stats, nv),
                ops@ == Operation::all(),
                i < collection_path_names@.len(),
                nv[i as int] == name@,
                j <= 6,
                totals@.len() == 6,
                forall|j2: int|
                    0 <= j2 < j ==> totals@[j2] == op_total(*stats, nv.take(i as int), Operation::all()[j2])
                        + time_value(*stats, nv[i as int], Operation::all()[j2]).unwrap(),
                forall|j2: int|
                    j <= j2 < 6 ==> totals@[j2] == op_total(*stats, nv.take(i as int), Operation::all()[j2]),
                times_present_before(*stats, nv, i as int, j as int),
            decreases 6 - j,
        {
            let op = ops[j];
            let path = [
                BsonKey::KeyStr("totals"),
                BsonKey::KeyStr(name),
                BsonKey::KeyStr(operation_key(op)),
                BsonKey::KeyStr("time"),
            ];
            assert(keys_view(path@) =~= op_time_path(nv[i as int], op));
            let value = match doc::get_i64(stats, &path) {
                Ok(v) => v,
                Err(e) => {
                    assert(first_missing_time(*stats, nv, i as int, j as int));
                    return Err(e);
                },
            };
            proof {
                assert(times_present_before(*stats, nv, i as int, j + 1));
                assert(time_value(*stats, nv[i as int], Operation::all()[j as int]) == Some(value));
            }
            let t = totals[j] + value;
            totals.set(j, t);
            j = j + 1;
        }
        proof {
            assert forall|j2: int| 0 <= j2 < 6 implies totals@[j2] == op_total(
                *stats,
                nv.take(i + 1),
                Operation::all()[j2],
            ) by {
                assert(time_value(*stats, nv[i as int], Operation::all()[j2]) is Some);
            }
            assert forall|i2: int, j2: int| 0 <= i2 < i + 1 && 0 <= j2 < 6 implies time_value(
                *stats,
                nv[i2],
                Operation::all()[j2],
            ) is Some by {
                if i2 < i {
                } else {
                    assert(time_value(*stats, nv[i as int], Operation::all()[j2]) is Some);
                }
            }
        }
        i = i + 1;
    }
    let mut r: Vec<(Operation, i64)> = Vec::new();
    if collection_path_names.len() == 0 {
        assert(r@ =~= operation_totals(*stats, nv));
        return Ok(r);
    }
    assert(nv.take(collection_path_names@.len() as int) =~= nv);
    let mut j: usize = 0;
    while j < ops.len()
        invariant
            ops@ == Operation::all(),
            nv.len() > 0,
            j <= 6,
            totals@.len() == 6,
            forall|j2: int| 0 <= j2 < 6 ==> totals@[j2] == op_total(*stats, nv, Operation::all()[j2]),
            r@ == Operation::all().take(j as int).map_values(|op: Operation| (op, op_total(*stats, nv, op) as i64)),
        decreases 6 - j,
    {
        r.push((ops[j], totals[j]));
        proof {
            assert(Operation::all().take(j + 1) =~= Operation::all().take(j as int).push(Operation::all()[j as int]));
            assert(r@ =~= Operation::all().take(j + 1).map_values(
                |op: Operation| (op, op_total(*stats, nv, op) as i64),
            ));
        }
        j = j + 1;
    }
    assert(Operation::all().take(6) =~= Operation::all());
    Ok(r)
}

/// The points of the operation time: one per operation total, with its operation.
pub open spec fn operation_time_points(totals: Seq<(Operation, i64)>, config: Config) -> Seq<PointView> {
    totals.map_values(
        |t: (Operation, i64)|
            point_at(t.1, config, seq![("operation"@, ValueView::String(t.0.spec_attribute().spec_name()))]),
    )
}

/// The error of `e` that says that `metric` could not be collected because the totals of
/// the `top` command could not be read as a document.
pub open spec fn is_totals_error(e: Error, metric: Seq<char>, stats: Bson) -> bool {
    &&& e matches Error::CollectMetric { metric: name, source }
    &&& name@ == metric
    &&& if lookup(stats, totals_path()) is None {
        doc::is_not_found(stats, totals_path(), source)
    } else {
        doc::is_type_error(stats, totals_path(), "map"@, source)
    }
}

/// Whether the operation times of a `top` command can be added up.
#[verifier::spinoff_prover]
#[verifier::rlimit(50)]
pub fn operation_times_in_range(stats: &Bson, names: &[&str]) -> (r: bool)
    ensures
        r == operation_times_fit(*stats, texts_view(names@)),
{
    let ghost nv = texts_view(names@);
    let ops = Operation::iter();
    let mut totals: Vec<i64> = Vec::new();
    let mut k: usize = 0;
    while k < ops.len()
        invariant
            ops@ == Operation::all(),
            k <= 6,
            totals@.len() == k,
            forall|j: int| 0 <= j < k ==> totals@[j] == 0,
        decreases 6 - k,
    {
        totals.push(0);
        k = k + 1;
    }
    let mut i: usize = 0;
    while i < names.len()
        invariant
            nv == texts_view(names@),
            ops@ == Operation::all(),
            i <= names@.len(),
            totals@.len() == 6,
            forall|j: int| 0 <= j < 6 ==> totals@[j] == op_total(*stats, nv.take(i as int), Operation::all()[j]),
            times_present_before(*stats, nv, i as int, 0),
            forall|i2: int, j2: int|
                #![trigger time_value(*stats, nv[i2], Operation::all()[j2])]
                0 <= i2 < i && 0 <= j2 < 6 && times_present_before(*stats, nv, i2, j2 + 1) ==> i64::MIN
                    <= op_total(*stats, nv.take(i2), Operation::all()[j2]) + time_value(
                    *stats,
                    nv[i2],
                    Operation::all()[j2],
                ).unwrap() <= i64::MAX,
        decreases names@.len() - i,
    {
        let name = names[i];
        let mut j: usize = 0;
        proof {
            assert(nv.take(i + 1).drop_last() =~= nv.take(i as int));
            assert(nv.take(i + 1).last() == nv[i as int]);
            assert(nv[i as int] == name@);
        }
        while j < ops.len()
            invariant
                nv == texts_view(names@),
                ops@ == Operation::all(),
                i < names@.len(),
                nv[i as int] == name@,
                j <= 6,
                totals@.len() == 6,
                forall|j2: int|
                    0 <= j2 < j ==> totals@[j2] == op_total(*stats, nv.take(i as int), Operation::all()[j2])
                        + time_value(*stats, nv[i as int], Operation::all()[j2]).unwrap(),
                forall|j2: int|
                    j <= j2 < 6 ==> totals@[j2] == op_total(*stats, nv.take(i as int), Operation::all()[j2]),
                times_present_before(*stats, nv, i as int, j as int),
                forall|i2: int, j2: int|
                    #![trigger time_value(*stats, nv[i2], Operation::all()[j2])]
                    0 <= i2 && 0 <= j2 < 6 && (i2 < i || (i2 == i && j2 < j)) && times_present_before(
                        *stats,
                        nv,
                        i2,
                        j2 + 1,
                    ) ==> i64::MIN <= op_total(*stats, nv.take(i2), Operation::all()[j2]) + time_value(
                        *stats,
                        nv[i2],
                        Operation::all()[j2],
                    ).unwrap() <= i64::MAX,
            decreases 6 - j,
        {
            let op = ops[j];
            let path = [
                BsonKey::KeyStr("totals"),
                BsonKey::KeyStr(name),
                BsonKey::KeyStr(operation_key(op)),
                BsonKey::KeyStr("time"),
            ];
            assert(keys_view(path@) =~= op_time_path(nv[i as int], op));
            match doc::get_i64(stats, &path) {
                Ok(v) => {
                    match totals[j].checked_add(v) {
                        Some(t) => {
                            totals.set(j, t);
                        },
                        None => {
                            proof {
                                assert(times_present_before(*stats, nv, i as int, j + 1));
                                assert(time_value(*stats, nv[i as int], Operation::all()[j as int]) == Some(v));
                            }
                            return false;
                        },
                    }
                },
                Err(_) => {
                    proof {
                        assert forall|i2: int, j2: int|
                            #![trigger time_value(*stats, nv[i2], Operation::all()[j2])]
                            0 <= i2 < nv.len() && 0 <= j2 < 6 && times_present_before(*stats, nv, i2, j2 + 1)
                            implies i64::MIN <= op_total(*stats, nv.take(i2), Operation::all()[j2]) + time_value(
                            *stats,
                            nv[i2],
                            Operation::all()[j2],
                        ).unwrap() <= i64::MAX by {
                            if i2 > i {
                                assert(time_value(*stats, nv[i as int], Operation::all()[j as int]) is Some);
                            } else if i2 == i && j2 >= j {
                                assert(time_value(*stats, nv[i as int], Operation::all()[j as int]) is Some);
                            }
                        }
                    }
                    return true;
                },
            }
            proof {
                assert(times_present_before(*stats, nv, i as int, j + 1));
            }
            j = j + 1;
        }
        proof {
            assert forall|j2: int| 0 <= j2 < 6 implies totals@[j2] == op_total(
                *stats,
                nv.take(i + 1),
                Operation::all()[j2],
            ) by {
                assert(time_value(*stats, nv[i as int], Operation::all()[j2]) is Some);
            }
            assert forall|i2: int, j2: int| 0 <= i2 < i + 1 && 0 <= j2 < 6 implies time_value(
                *stats,
                nv[i2],
                Operation::all()[j2],
            ) is Some by {
                if i2 == i {
                    assert(time_value(*stats, nv[i as int], Operation::all()[j2]) is Some);
                }
            }
        }
        i = i + 1;
    }
    true
}

impl OperationTime {
    /// Records the time of each operation, added up over the collections that the `top`
    /// command reports; the first total or time that cannot be read ends the recording with
    /// an error.
    pub fn record(&mut self, stats: &Bson, config: &Config, errors: &mut Vec<Error>)
        requires
            collection_names(*stats) matches Some(names) ==> operation_times_fit(*stats, names),
        ensures
            final(self).0.descriptor == old(self).0.descriptor,
            final(self).0.data.same_kind(old(self).0.data),
            match collection_names(*stats) {
                None => final(self).0.data.points() == old(self).0.data.points() && final(errors)@.len()
                    == old(errors)@.len() + 1 && final(errors)@.drop_last() == old(errors)@ && is_totals_error(
                    final(errors)@.last(),
                    old(self).0.descriptor.name@,
                    *stats,
                ),
                Some(names) => if times_present_before(*stats, names, names.len() as int, 0) {
                    final(self).0.data.points() == old(self).0.data.points() + operation_time_points(
                        operation_totals(*stats, names),
                        *config,
                    ) && final(errors)@ == old(errors)@
                } else {
                    final(self).0.data.points() == old(self).0.data.points() && final(errors)@.len()
                        == old(errors)@.len() + 1 && final(errors)@.drop_last() == old(errors)@
                        && exists|i: int, j: int|
                        #[trigger] first_missing_time(*stats, names, i, j) && is_collect_error(
                            final(errors)@.last(),
                            old(self).0.descriptor.name@,
                            *stats,
                            op_time_path(names[i], Operation::all()[j]),
                        )
                },
            },
    {
        let names = match collection_path_names(stats) {
            Ok(names) => names,
            Err(err) => {
                errors.push(Error::CollectMetric { metric: self.0.descriptor.name, source: err });
                assert(errors@.drop_last() =~= old(errors)@);
                return;
            },
        };
        let totals = match aggregate_operation_time_values(stats, names.as_slice()) {
            Ok(totals) => totals,
            Err(err) => {
                errors.push(Error::CollectMetric { metric: self.0.descriptor.name, source: err });
                assert(errors@.drop_last() =~= old(errors)@);
                return;
            },
        };
        let mut k: usize = 0;
        let ghost base = self.0.data.points();
        assert(totals@.take(0) =~= Seq::<(Operation, i64)>::empty());
        while k < totals.len()
            invariant
                k <= totals@.len(),
                self.0.descriptor == old(self).0.descriptor,
                self.0.data.same_kind(old(self).0.data),
                self.0.data.points() == base + operation_time_points(totals@.take(k as int), *config),
            decreases totals@.len() - k,
        {
            let (op, value) = totals[k];
            let attributes = vec![KeyValue::new("operation", op.attribute().as_str())];
            assert(attributes_view(attributes@) =~= seq![("operation"@, ValueView::String(op.spec_attribute().spec_name()))]);
            self.0.data.push(datapoint(value, config, attributes));
            proof {
                assert(totals@.take(k + 1) =~= totals@.take(k as int).push(totals@[k as int]));
                assert(self.0.data.points() =~= base + operation_time_points(totals@.take(k + 1), *config));
            }
            k = k + 1;
        }
        assert(totals@.take(totals@.len() as int) =~= totals@);
    }
}


/// Whether every integer that the readings find, times `factor`, fits in an `i64`.
pub fn readings_in_range(doc: &Bson, readings: &Vec<Reading>, factor: i64) -> (r: bool)
    ensures
        r == readings_fit(*doc, readings_view(readings@), factor as int),
{
    let ghost rv = readings_view(readings@);
    let mut i: usize = 0;
    while i < readings.len()
        invariant
            rv == readings_view(readings@),
            i <= readings@.len(),
            forall|k: int|
                #![trigger rv[k]]
                0 <= k < i ==> match integer_at(*doc, rv[k].0) {
                    Some(v) => i64::MIN <= v * factor <= i64::MAX,
                    None => true,
                },
        decreases readings@.len() - i,
    {
        assert(rv[i as int] == readings@[i as int]@);
        match doc::get_i64(doc, readings[i].path.as_slice()) {
            Ok(v) => {
                if v.checked_mul(factor).is_none() {
                    assert(!(i64::MIN <= v * factor <= i64::MAX));
                    return false;
                }
            },
            Err(_) => {},
        }
        i = i + 1;
    }
    true
}

/// Whether the memory usage of `stats`, in bytes, fits in an `i64`.
pub fn memory_usage_in_range(stats: &Bson) -> (r: bool)
    ensures
        r == readings_fit(*stats, memory_usage_readings(), 1048576),
{
    let readings = memory_usage_reading_list();
    readings_in_range(stats, &readings, 1048576)
}

} // verus!
