//! Component names, and which built-in service a service identifier asks for.
use vstd::prelude::*;
use crate::config::OtlpReceiverConfig;
use crate::pipeline::{ServiceError, ServiceIdView, ServiceIdentifier, ServiceKind};
use crate::services::{EntriesView, ServiceBuilder, assemble, built_by, ok_values, oks_of, refused_services_are_left_out};
use crate::text::str_eq;

verus! {

/// Whether `c` is an ASCII letter.
pub open spec fn is_ascii_letter(c: char) -> bool {
    ('a' <= c && c <= 'z') || ('A' <= c && c <= 'Z')
}

/// Whether `name` has the form of a component name: an ASCII letter, then up to 62 ASCII
/// letters, digits or underscores, and nothing else.
pub open spec fn is_component_name(name: Seq<char>) -> bool {
    &&& 1 <= name.len() <= 63
    &&& is_ascii_letter(name[0])
    &&& forall|i: int|
        1 <= i < name.len() ==> is_ascii_letter(#[trigger] name[i]) || ('0' <= name[i] && name[i] <= '9')
            || name[i] == '_'
}

/// Compiles the pattern of component names with `regex::Regex::new` and asks
/// `Regex::is_match` whether it matches `name`; `None` where the pattern does not compile.
/// Claims what the pattern `^[a-zA-Z][0-9a-zA-Z_]{0,62}$` says under the regex crate's
/// syntax (`^` and `$` anchor at the ends of the whole text, the classes are ASCII ranges):
/// the pattern compiles, and it matches exactly the texts of the form of a component name.
#[verifier::external_body]
fn component_name_matches(name: &str) -> (r: Option<bool>)
    ensures
        r == Some(is_component_name(name@)),
{
    match regex::Regex::new(COMPONENT_NAME_PATTERN) {
        Ok(re) => Some(re.is_match(name)),
        Err(_) => None,
    }
}

/// The form of a component name: a letter, then up to 62 letters, digits or underscores.
pub const COMPONENT_NAME_PATTERN: &'static str = "^[a-zA-Z][0-9a-zA-Z_]{0,62}$";

/// A name refused as a component name.
#[derive(Debug)]
pub enum ComponentNameError {
    InvalidName(String),
}

/// The name of a kind of component, such as `mongodb` or `batch`.
#[derive(Debug, Clone)]
pub struct ComponentName(pub String);

impl ComponentName {
    /// The name, when it has the form of a component name.
    pub fn new(name: String) -> (r: Result<ComponentName, ComponentNameError>)
        ensures
            match r {
                Ok(n) => is_component_name(name@) && n.0@ == name@,
                Err(ComponentNameError::InvalidName(s)) => !is_component_name(name@) && s@ == name@,
            },
    {
        let matched = component_name_matches(name.as_str());
        ComponentName::from_match(name, matched)
    }

    /// The name, given whether the pattern of component names matched it.
    pub fn from_match(name: String, matched: Option<bool>) -> (r: Result<ComponentName, ComponentNameError>)
        ensures
            match r {
                Ok(n) => matched == Some(true) && n.0@ == name@,
                Err(ComponentNameError::InvalidName(s)) => matched != Some(true) && s@ == name@,
            },
    {
        match matched {
            Some(true) => Ok(ComponentName(name)),
            _ => Err(ComponentNameError::InvalidName(name)),
        }
    }

    /// The name as a text.
    pub fn as_str(&self) -> (r: &str)
        ensures
            r@ == self.0@,
    {
        self.0.as_str()
    }
}

/// The built-in services.
#[derive(Debug, Copy, Clone, PartialEq, Eq)]
pub enum BuiltinService {
    OtlpExporter,
    BatchProcessor,
    MongoDbReceiver,
}

/// The service builder that knows the built-in services.
#[derive(Debug)]
pub struct BuiltinServiceBuilder {}

/// The built-in service that a kind and a service name ask for, if any.
pub open spec fn builtin_for(kind: ServiceKind, service: Seq<char>) -> Option<BuiltinService> {
    if kind == ServiceKind::Exporter && service == "otlp"@ {
        Some(BuiltinService::OtlpExporter)
    } else if kind == ServiceKind::Processor && service == "batch"@ {
        Some(BuiltinService::BatchProcessor)
    } else if kind == ServiceKind::Receiver && service == "mongodb"@ {
        Some(BuiltinService::MongoDbReceiver)
    } else {
        None
    }
}

impl BuiltinServiceBuilder {
    /// The built-in service that the identifier asks for: an `otlp` exporter, a `batch`
    /// processor or a `mongodb` receiver; any other service is unknown. The `debug`
    /// processor has no implementation, so it is left out.
    pub fn select(unique_id: &ServiceIdentifier, service: &str) -> (r: Result<BuiltinService, ServiceError>)
        requires
            !(unique_id@.kind() == ServiceKind::Processor && service@ == "debug"@),
        ensures
            match builtin_for(unique_id@.kind(), service@) {
                Some(b) => r == Ok::<BuiltinService, ServiceError>(b),
                None => r matches Err(ServiceError::UnknownService { kind, id }) && kind == unique_id@.kind()
                    && id@ == unique_id@.display(),
            },
    {
        let kind = unique_id.kind();
        match kind {
            ServiceKind::Exporter => if str_eq(service, "otlp") {
                return Ok(BuiltinService::OtlpExporter);
            },
            ServiceKind::Processor => if str_eq(service, "batch") {
                return Ok(BuiltinService::BatchProcessor);
            },
            ServiceKind::Receiver => if str_eq(service, "mongodb") {
                return Ok(BuiltinService::MongoDbReceiver);
            },
        }
        Err(ServiceError::UnknownService { kind, id: unique_id.display() })
    }
}

/// What the built-in builder hands back for a service it knows: which built-in service to
/// make, and its raw settings; the service itself is made where its outside parts live.
#[derive(Debug)]
pub struct SelectedService {
    pub service: BuiltinService,
    pub raw_config: serde_yaml::Value,
}

impl ServiceBuilder for BuiltinServiceBuilder {
    type Service = SelectedService;

    /// Selects the built-in service; any other is an unknown service. The `debug` processor
    /// has no implementation, which is reported as a service error.
    fn build_service(unique_id: &ServiceIdentifier, service: &str, raw_config: serde_yaml::Value) -> (r: Result<
        SelectedService,
        ServiceError,
    >)
        ensures
            match builtin_for(unique_id@.kind(), service@) {
                Some(b) => r matches Ok(s) && s.service == b && s.raw_config == raw_config,
                None => if unique_id@.kind() == ServiceKind::Processor && service@ == "debug"@ {
                    r matches Err(ServiceError::Service(_))
                } else {
                    r matches Err(ServiceError::UnknownService { kind, id }) && kind == unique_id@.kind()
                        && id@ == unique_id@.display()
                },
            },
    {
        if unique_id.kind() == ServiceKind::Processor && str_eq(service, "debug") {
            proof {
                reveal_strlit("debug");
                reveal_strlit("batch");
                assert("debug"@[0] != "batch"@[0]);
            }
            return Err(ServiceError::Service(String::from_str("the debug processor is not implemented")));
        }
        match BuiltinServiceBuilder::select(unique_id, service) {
            Ok(b) => Ok(SelectedService { service: b, raw_config }),
            Err(e) => Err(e),
        }
    }
}

/// With the built-in builder, a service is built exactly when it is one of the built-in
/// services; any other the builder refuses.
pub proof fn builtin_builder_builds_only_builtin_services(
    call: (ServiceIdView, Seq<char>, serde_yaml::Value),
    out: Result<SelectedService, ServiceError>,
)
    requires
        built_by::<BuiltinServiceBuilder>(call, out),
    ensures
        out is Ok <==> builtin_for(call.0.kind(), call.1) is Some,
{
    let (id, name) = choose|id: ServiceIdentifier, name: &str|
        #![trigger call_ensures(BuiltinServiceBuilder::build_service, (&id, name, call.2), out)]
        id@ == call.0 && name@ == call.1 && call_ensures(BuiltinServiceBuilder::build_service, (&id, name, call.2), out);
    assert(call_ensures(BuiltinServiceBuilder::build_service, (&id, name, call.2), out));
}

/// With the built-in builder, an assembly in which no service handed out is a built-in one
/// builds nothing: every call is refused, and no service is kept.
pub proof fn builtin_builder_keeps_no_unknown_service(
    reqs: Seq<ServiceIdView>,
    es: EntriesView,
    outs: Seq<Result<SelectedService, ServiceError>>,
)
    requires
        outs.len() == assemble(reqs, 0, es, Seq::<ServiceIdView>::empty(), oks_of(outs)).calls.len(),
        forall|k: int|
            0 <= k < outs.len() ==> built_by::<BuiltinServiceBuilder>(
                #[trigger] assemble(reqs, 0, es, Seq::<ServiceIdView>::empty(), oks_of(outs)).calls[k],
                outs[k],
            ),
        forall|k: int|
            0 <= k < outs.len() ==> builtin_for(
                (#[trigger] assemble(reqs, 0, es, Seq::<ServiceIdView>::empty(), oks_of(outs)).calls[k]).0.kind(),
                assemble(reqs, 0, es, Seq::<ServiceIdView>::empty(), oks_of(outs)).calls[k].1,
            ) is None,
    ensures
        assemble(reqs, 0, es, Seq::<ServiceIdView>::empty(), oks_of(outs)).built == Seq::<ServiceIdView>::empty(),
        ok_values(outs) == Seq::<SelectedService>::empty(),
{
    let a = assemble(reqs, 0, es, Seq::<ServiceIdView>::empty(), oks_of(outs));
    assert forall|k: int| 0 <= k < outs.len() implies #[trigger] outs[k] is Err by {
        builtin_builder_builds_only_builtin_services(a.calls[k], outs[k]);
    }
    refused_services_are_left_out(reqs, 0, es, Seq::<ServiceIdView>::empty(), outs);
}

/// The outcome of exporting several batches one after the other: every batch is exported,
/// and the first failure, if any, is the outcome.
pub fn first_failure<E>(results: Vec<Result<(), E>>) -> (r: Result<(), E>)
    ensures
        match r {
            Ok(_) => forall|i: int| 0 <= i < results@.len() ==> (#[trigger] results@[i]) is Ok,
            Err(e) => exists|i: int|
                #![trigger results@[i]]
                0 <= i < results@.len() && results@[i] == Err::<(), E>(e) && forall|j: int|
                    0 <= j < i ==> (#[trigger] results@[j]) is Ok,
        },
{
    let ghost all = results@;
    assert(all.len() == results.len());
    let mut pending = results;
    let mut i: usize = 0;
    while pending.len() > 0
        invariant
            all == results@,
            all.len() <= usize::MAX,
            i <= all.len(),
            pending@ == all.skip(i as int),
            forall|j: int| 0 <= j < i ==> (#[trigger] all[j]) is Ok,
        decreases pending@.len(),
    {
        let x = pending.remove(0);
        assert(x == all[i as int]);
        match x {
            Ok(_) => {},
            Err(e) => {
                assert(all[i as int] == Err::<(), E>(e));
                return Err(e);
            },
        }
        assert(pending@ =~= all.skip(i + 1));
        i = i + 1;
    }
    assert(i == all.len());
    Ok(())
}

/// An OTLP receiver: its identifier and settings.
#[derive(Debug)]
pub struct OtlpReceiver {
    pub id: String,
    pub config: OtlpReceiverConfig,
}

} // verus!
