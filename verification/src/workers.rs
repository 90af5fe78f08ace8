//! Everything that an event sends to the workers, and how a worker is started.
use crate::codebases::FunctionCodebase;
use crate::document::{Document, DocumentView};
use crate::json::{Json, JsonView};
use crate::ordered::{put, OrderedMap};
use crate::project::{
    child_environment_spec, endpoint_text, endpoint_text_spec, is_local, FunctionsConfig,
};
use crate::text::{after_prefix, cat, decimal, decimal_spec, opt_text, strip_prefix, texts};
use crate::triggers::{
    delivery_view, find_scheduled, firestore_delivery, firestore_delivery_spec, functions_view,
    pubsub_delivery, pubsub_delivery_spec, schedule_delivery, schedule_delivery_spec, scheduled_at,
    storage_delivery, storage_delivery_spec, workers_view, DeliveryView, FunctionView, Worker,
    WorkerView,
};
use vstd::prelude::*;

verus! {

/// What happened, as functions are told of it.
pub enum EventSource {
    /// A document changed; at least one of its states is there.
    Firestore { before: Option<Document>, after: Option<Document> },
    /// A storage object changed.
    Storage { kind: String, object: Json },
    /// A message was published.
    PubSub { topic: String, message: Json },
}

/// What an [`EventSource`] stands for.
pub enum SourceView {
    Firestore { before: Option<DocumentView>, after: Option<DocumentView> },
    Storage { kind: Seq<char>, object: JsonView },
    PubSub { topic: Seq<char>, message: JsonView },
}

/// The view of a document that may be missing.
pub open spec fn owned_document(doc: Option<Document>) -> Option<DocumentView> {
    match doc {
        Some(d) => Some(d@),
        None => None,
    }
}

impl View for EventSource {
    type V = SourceView;

    open spec fn view(&self) -> SourceView {
        match self {
            EventSource::Firestore { before, after } => SourceView::Firestore {
                before: owned_document(*before),
                after: owned_document(*after),
            },
            EventSource::Storage { kind, object } => SourceView::Storage {
                kind: kind@,
                object: object@,
            },
            EventSource::PubSub { topic, message } => SourceView::PubSub {
                topic: topic@,
                message: message@,
            },
        }
    }
}

/// What a function is told of an event, where its trigger asks for it.
pub open spec fn delivery_spec(
    project: Seq<char>,
    trigger: JsonView,
    id: u64,
    source: SourceView,
) -> Option<DeliveryView> {
    match source {
        SourceView::Firestore { before, after } => if before is None && after is None {
            None
        } else {
            firestore_delivery_spec(project, trigger, id, before, after)
        },
        SourceView::Storage { kind, object } => storage_delivery_spec(trigger, id, kind, object),
        SourceView::PubSub { topic, message } => pubsub_delivery_spec(
            project,
            trigger,
            id,
            topic,
            message,
        ),
    }
}

fn delivery(project: &str, trigger: &Json, id: u64, source: &EventSource) -> (r: Option<(Json, Json)>)
    ensures
        delivery_view(r) == delivery_spec(project@, trigger@, id, source@),
{
    match source {
        EventSource::Firestore { before, after } => {
            let first = match before {
                Some(d) => Some(d),
                None => None,
            };
            let second = match after {
                Some(d) => Some(d),
                None => None,
            };
            if first.is_none() && second.is_none() {
                None
            } else {
                firestore_delivery(project, trigger, id, first, second)
            }
        },
        EventSource::Storage { kind, object } => storage_delivery(
            trigger,
            id,
            kind.as_str(),
            object,
        ),
        EventSource::PubSub { topic, message } => pubsub_delivery(
            project,
            trigger,
            id,
            topic.as_str(),
            message,
        ),
    }
}

/// A delivery to a function of a worker.
pub struct Dispatch {
    pub worker: usize,
    pub function: usize,
    pub data: Json,
    pub context: Json,
}

impl View for Dispatch {
    type V = (nat, nat, JsonView, JsonView);

    open spec fn view(&self) -> (nat, nat, JsonView, JsonView) {
        (self.worker as nat, self.function as nat, self.data@, self.context@)
    }
}

/// The view of several deliveries.
pub open spec fn dispatches_view(list: Seq<Dispatch>) -> Seq<(nat, nat, JsonView, JsonView)> {
    list.map_values(|d: Dispatch| d@)
}

/// The deliveries to the first `n` functions of a worker.
pub open spec fn worker_dispatches(
    project: Seq<char>,
    functions: Seq<FunctionView>,
    worker: nat,
    id: u64,
    source: SourceView,
    n: nat,
) -> Seq<(nat, nat, JsonView, JsonView)>
    decreases n,
{
    if n == 0 || n > functions.len() {
        Seq::empty()
    } else {
        let before = worker_dispatches(project, functions, worker, id, source, (n - 1) as nat);
        match delivery_spec(project, functions[n - 1].trigger, id, source) {
            Some(d) => before.push((worker, (n - 1) as nat, d.0, d.1)),
            None => before,
        }
    }
}

/// The deliveries to the functions of the first `n` workers, in their order.
pub open spec fn all_dispatches(
    project: Seq<char>,
    workers: Seq<WorkerView>,
    id: u64,
    source: SourceView,
    n: nat,
) -> Seq<(nat, nat, JsonView, JsonView)>
    decreases n,
{
    if n == 0 || n > workers.len() {
        Seq::empty()
    } else {
        let functions = workers[n - 1].functions;
        all_dispatches(project, workers, id, source, (n - 1) as nat) + worker_dispatches(
            project,
            functions,
            (n - 1) as nat,
            id,
            source,
            functions.len(),
        )
    }
}

/// Finds every function that an event reaches, and what each is told.
pub fn dispatch(project: &str, workers: &Vec<Worker>, id: u64, source: &EventSource) -> (r: Vec<
    Dispatch,
>)
    ensures
        dispatches_view(r@) == all_dispatches(
            project@,
            workers_view(workers@),
            id,
            source@,
            workers@.len(),
        ),
{
    let ghost all = workers_view(workers@);
    let mut out: Vec<Dispatch> = Vec::new();
    let mut i: usize = 0;
    assert(dispatches_view(out@) =~= Seq::empty());
    while i < workers.len()
        invariant
            i <= workers@.len(),
            all == workers_view(workers@),
            dispatches_view(out@) == all_dispatches(project@, all, id, source@, i as nat),
        decreases workers.len() - i,
    {
        assert(all[i as int] == workers@[i as int]@);
        let functions = &workers[i].functions;
        let ghost known = functions_view(functions@);
        let ghost start = dispatches_view(out@);
        let mut k: usize = 0;
        assert(start + Seq::<(nat, nat, JsonView, JsonView)>::empty() =~= start);
        while k < functions.len()
            invariant
                k <= functions@.len(),
                known == functions_view(functions@),
                dispatches_view(out@) == start + worker_dispatches(
                    project@,
                    known,
                    i as nat,
                    id,
                    source@,
                    k as nat,
                ),
            decreases functions.len() - k,
        {
            assert(known[k as int] == functions@[k as int]@);
            if let Some((data, context)) = delivery(project, &functions[k].trigger, id, source) {
                let ghost before = dispatches_view(out@);
                let item = Dispatch { worker: i, function: k, data, context };
                out.push(item);
                assert(dispatches_view(out@) =~= before.push(item@));
                assert(before.push(item@) =~= start + worker_dispatches(
                    project@,
                    known,
                    i as nat,
                    id,
                    source@,
                    (k + 1) as nat,
                ));
            }
            k += 1;
        }
        i += 1;
    }
    out
}

/// Finds the function that a schedule runs, and what it is told at a time.
pub fn dispatch_schedule(
    project: &str,
    workers: &Vec<Worker>,
    id: u64,
    function: &str,
    timestamp: &str,
) -> (r: Result<Dispatch, String>)
    ensures
        match scheduled_at(workers_view(workers@), function@, 0) {
            None => r is Err && r->Err_0@ == "Unknown scheduled function: "@ + function@,
            Some(found) => {
                let told = schedule_delivery_spec(
                    project@,
                    workers_view(workers@)[found.0].functions[found.1].trigger,
                    id,
                    timestamp@,
                );
                r is Ok && r->Ok_0@ == (found.0 as nat, found.1 as nat, told.0, told.1)
            },
        },
{
    match find_scheduled(workers, function) {
        None => Err(cat("Unknown scheduled function: ", function)),
        Some((worker, index)) => {
            assert(workers_view(workers@)[worker as int] == workers@[worker as int]@);
            assert(workers@[worker as int]@.functions[index as int]
                == workers@[worker as int].functions@[index as int]@);
            let (data, context) = schedule_delivery(
                project,
                &workers[worker].functions[index].trigger,
                id,
                timestamp,
            );
            Ok(Dispatch { worker, function: index, data, context })
        },
    }
}

/// What a worker that is ready says of itself, where a line of its output is
/// that.
pub fn ready_line(line: &str) -> (r: Option<String>)
    ensures
        opt_text(r) == after_prefix(line@, "FIREBASE_EMU_READY "@),
{
    strip_prefix(line, "FIREBASE_EMU_READY ")
}

/// Where a worker that is ready on a port listens.
pub fn worker_base(port: u16) -> (r: String)
    ensures
        r@ == "http://127.0.0.1:"@ + decimal_spec(port as nat),
{
    cat("http://127.0.0.1:", decimal(port as u64).as_str())
}

/// The variables that the process of a codebase has from this one, where they
/// are set: those that a process cannot start without.
pub open spec fn inherited_spec() -> Seq<Seq<char>> {
    seq!["PATH"@, "SYSTEMROOT"@, "WINDIR"@, "TEMP"@, "TMP"@, "PATHEXT"@, "COMSPEC"@]
}

/// Lists the variables that the process of a codebase has from this one.
pub fn inherited_variables() -> (r: Vec<String>)
    ensures
        texts(r@) == inherited_spec(),
{
    let mut out: Vec<String> = Vec::new();
    out.push("PATH".to_owned());
    out.push("SYSTEMROOT".to_owned());
    out.push("WINDIR".to_owned());
    out.push("TEMP".to_owned());
    out.push("TMP".to_owned());
    out.push("PATHEXT".to_owned());
    out.push("COMSPEC".to_owned());
    assert(texts(out@) =~= inherited_spec());
    out
}

/// The variables of the process of a codebase.
pub fn worker_environment(config: &FunctionsConfig, codebase: &FunctionCodebase) -> (r: OrderedMap<
    String,
>)
    requires
        is_local(config.addresses),
    ensures
        r@ == put(
            put(
                child_environment_spec(config@),
                "STORAGE_EMULATOR_HOST"@,
                "http://"@ + endpoint_text_spec(config.addresses.storage),
            ),
            "FUNCTIONS_CODEBASE"@,
            codebase.codebase@,
        ),
{
    let mut v = config.child_environment();
    let storage = endpoint_text(config.addresses.storage);
    v.insert("STORAGE_EMULATOR_HOST", cat("http://", storage.as_str()));
    v.insert("FUNCTIONS_CODEBASE", codebase.codebase.clone());
    v
}

/// The arguments of the process of a codebase, behind those that name the
/// adapter and its directory.
pub open spec fn worker_arguments_spec(
    project: Seq<char>,
    target: Option<Seq<char>>,
    manifest: Option<Seq<char>>,
) -> Seq<Seq<char>> {
    let a = seq!["--project"@, project];
    let a = match target {
        Some(t) => a + seq!["--target"@, t],
        None => a,
    };
    match manifest {
        Some(m) => a + seq!["--manifest"@, m],
        None => a,
    }
}

/// Lists the arguments of the process of a codebase.
pub fn worker_arguments(project: &str, target: Option<String>, manifest: Option<String>) -> (r: Vec<
    String,
>)
    ensures
        texts(r@) == worker_arguments_spec(project@, opt_text(target), opt_text(manifest)),
{
    let mut out: Vec<String> = Vec::new();
    out.push("--project".to_owned());
    out.push(project.to_owned());
    assert(texts(out@) =~= seq!["--project"@, project@]);
    if let Some(t) = target {
        let ghost before = texts(out@);
        out.push("--target".to_owned());
        out.push(t);
        assert(texts(out@) =~= before + seq!["--target"@, t@]);
    }
    if let Some(m) = manifest {
        let ghost before = texts(out@);
        out.push("--manifest".to_owned());
        out.push(m);
        assert(texts(out@) =~= before + seq!["--manifest"@, m@]);
    }
    out
}

} // verus!
