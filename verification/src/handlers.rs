//! The functions that messages trigger, each with a subscription of its own.
use crate::json::{Json, JsonView};
use crate::text::cat;
use crate::triggers::{
    functions_view, pubsub_delivery, pubsub_delivery_spec, trigger_topic, trigger_topic_spec,
    workers_view, FunctionView, Worker, WorkerView,
};
use crate::workers::Dispatch;
use vstd::prelude::*;

verus! {

/// A function that the messages of a topic trigger.
pub struct Handler {
    pub worker: usize,
    pub function: usize,
    pub topic: String,
    /// What the subscription that feeds the function is called.
    pub subscription: String,
}

/// What a [`Handler`] stands for.
pub struct HandlerView {
    pub worker: nat,
    pub function: nat,
    pub topic: Seq<char>,
    pub subscription: Seq<char>,
}

impl View for Handler {
    type V = HandlerView;

    open spec fn view(&self) -> HandlerView {
        HandlerView {
            worker: self.worker as nat,
            function: self.function as nat,
            topic: self.topic@,
            subscription: self.subscription@,
        }
    }
}

/// The view of several handlers.
pub open spec fn handlers_view(list: Seq<Handler>) -> Seq<HandlerView> {
    list.map_values(|h: Handler| h@)
}

/// What the subscription of a function is called.
pub open spec fn handler_subscription_spec(function: Seq<char>) -> Seq<char> {
    "firebase-emu-functions-"@ + function
}

/// The handler that a function is, where messages trigger it.
pub open spec fn handler_spec(
    function: FunctionView,
    worker: nat,
    index: nat,
) -> Option<HandlerView> {
    match trigger_topic_spec(function.trigger) {
        None => None,
        Some(topic) => Some(
            HandlerView {
                worker,
                function: index,
                topic,
                subscription: handler_subscription_spec(function.name),
            },
        ),
    }
}

/// The handlers among the first `n` functions of a worker.
pub open spec fn worker_handlers(functions: Seq<FunctionView>, worker: nat, n: nat) -> Seq<
    HandlerView,
>
    decreases n,
{
    if n == 0 || n > functions.len() {
        Seq::empty()
    } else {
        let before = worker_handlers(functions, worker, (n - 1) as nat);
        match handler_spec(functions[n - 1], worker, (n - 1) as nat) {
            Some(h) => before.push(h),
            None => before,
        }
    }
}

/// The handlers among the functions of the first `n` workers, in their order.
pub open spec fn all_handlers(workers: Seq<WorkerView>, n: nat) -> Seq<HandlerView>
    decreases n,
{
    if n == 0 || n > workers.len() {
        Seq::empty()
    } else {
        let functions = workers[n - 1].functions;
        all_handlers(workers, (n - 1) as nat) + worker_handlers(
            functions,
            (n - 1) as nat,
            functions.len(),
        )
    }
}

/// Finds every function that messages trigger.
pub fn trigger_handlers(workers: &Vec<Worker>) -> (r: Vec<Handler>)
    ensures
        handlers_view(r@) == all_handlers(workers_view(workers@), workers@.len()),
{
    let ghost all = workers_view(workers@);
    let mut out: Vec<Handler> = Vec::new();
    let mut i: usize = 0;
    assert(handlers_view(out@) =~= Seq::empty());
    while i < workers.len()
        invariant
            i <= workers@.len(),
            all == workers_view(workers@),
            handlers_view(out@) == all_handlers(all, i as nat),
        decreases workers.len() - i,
    {
        assert(all[i as int] == workers@[i as int]@);
        let functions = &workers[i].functions;
        let ghost known = functions_view(functions@);
        let ghost start = handlers_view(out@);
        let mut k: usize = 0;
        assert(start + Seq::<HandlerView>::empty() =~= start);
        while k < functions.len()
            invariant
                k <= functions@.len(),
                known == functions_view(functions@),
                handlers_view(out@) == start + worker_handlers(known, i as nat, k as nat),
            decreases functions.len() - k,
        {
            assert(known[k as int] == functions@[k as int]@);
            if let Some(topic) = trigger_topic(&functions[k].trigger) {
                let ghost before = handlers_view(out@);
                let subscription = cat("firebase-emu-functions-", functions[k].name.as_str());
                let item = Handler { worker: i, function: k, topic, subscription };
                out.push(item);
                assert(handlers_view(out@) =~= before.push(item@));
                assert(before.push(item@) =~= start + worker_handlers(
                    known,
                    i as nat,
                    (k + 1) as nat,
                ));
            }
            k += 1;
        }
        i += 1;
    }
    out
}

/// Finds what a handler is told of a message of its topic; nothing where the
/// workers have no such function.
pub fn dispatch_message(
    project: &str,
    workers: &Vec<Worker>,
    handler: &Handler,
    id: u64,
    message: &Json,
) -> (r: Option<Dispatch>)
    ensures
        ({
            let all = workers_view(workers@);
            let (w, f) = (handler.worker as int, handler.function as int);
            if w >= all.len() || f >= all[w].functions.len() {
                r is None
            } else {
                match pubsub_delivery_spec(
                    project@,
                    all[w].functions[f].trigger,
                    id,
                    handler.topic@,
                    message@,
                ) {
                    None => r is None,
                    Some(told) => r is Some && r->0@ == (w as nat, f as nat, told.0, told.1),
                }
            }
        }),
{
    let (worker, function) = (handler.worker, handler.function);
    if worker >= workers.len() {
        return None;
    }
    assert(workers_view(workers@)[worker as int] == workers@[worker as int]@);
    let functions = &workers[worker].functions;
    if function >= functions.len() {
        return None;
    }
    assert(functions_view(functions@)[function as int] == functions@[function as int]@);
    match pubsub_delivery(
        project,
        &functions[function].trigger,
        id,
        handler.topic.as_str(),
        message,
    ) {
        None => None,
        Some((data, context)) => Some(Dispatch { worker, function, data, context }),
    }
}

/// Whether a function of the workers is the handler.
pub open spec fn is_handler_of(workers: Seq<WorkerView>, h: HandlerView) -> bool {
    &&& h.worker < workers.len()
    &&& h.function < workers[h.worker as int].functions.len()
    &&& handler_spec(
        workers[h.worker as int].functions[h.function as int],
        h.worker,
        h.function,
    ) == Some(h)
}

/// Whether no two functions of the workers have the same name.
pub open spec fn names_differ(workers: Seq<WorkerView>) -> bool {
    forall|w: int, f: int, v: int, g: int|
        0 <= w < workers.len() && 0 <= f < workers[w].functions.len() && 0 <= v < workers.len()
            && 0 <= g < workers[v].functions.len() && (w, f) != (v, g) ==> (
        #[trigger] workers[w].functions[f]).name != (#[trigger] workers[v].functions[g]).name
}

proof fn worker_handlers_are_sound(functions: Seq<FunctionView>, worker: nat, n: nat)
    requires
        n <= functions.len(),
    ensures
        ({
            let list = worker_handlers(functions, worker, n);
            &&& forall|k: int|
                0 <= k < list.len() ==> (#[trigger] list[k]).function < n && handler_spec(
                    functions[list[k].function as int],
                    worker,
                    list[k].function,
                ) == Some(list[k])
            &&& forall|j: int, k: int|
                0 <= j < k < list.len() ==> (#[trigger] list[j]).function < (
                #[trigger] list[k]).function
            &&& forall|f: int|
                0 <= f < n && trigger_topic_spec((#[trigger] functions[f]).trigger) is Some
                    ==> list.contains(handler_spec(functions[f], worker, f as nat)->0)
        }),
    decreases n,
{
    if n > 0 {
        let m = (n - 1) as nat;
        worker_handlers_are_sound(functions, worker, m);
        let before = worker_handlers(functions, worker, m);
        let list = worker_handlers(functions, worker, n);
        let last = handler_spec(functions[n - 1], worker, m);
        assert forall|f: int|
            0 <= f < n && trigger_topic_spec(
                (#[trigger] functions[f]).trigger,
            ) is Some implies list.contains(handler_spec(functions[f], worker, f as nat)->0) by {
            let h = handler_spec(functions[f], worker, f as nat)->0;
            if f == n - 1 {
                assert(list[list.len() - 1] == h);
            } else {
                assert(before.contains(h));
                let k = choose|k: int| 0 <= k < before.len() && before[k] == h;
                assert(list[k] == h);
            }
        }
    }
}

proof fn handlers_are_sound(workers: Seq<WorkerView>, n: nat)
    requires
        n <= workers.len(),
    ensures
        ({
            let list = all_handlers(workers, n);
            &&& forall|k: int|
                0 <= k < list.len() ==> (#[trigger] list[k]).worker < n && is_handler_of(
                    workers,
                    list[k],
                )
            &&& forall|j: int, k: int|
                0 <= j < k < list.len() ==> ((#[trigger] list[j]).worker, list[j].function) != (
                    (#[trigger] list[k]).worker,
                    list[k].function,
                )
            &&& forall|w: int, f: int|
                0 <= w < n && 0 <= f < workers[w].functions.len() && trigger_topic_spec(
                    (#[trigger] workers[w].functions[f]).trigger,
                ) is Some ==> list.contains(
                    handler_spec(workers[w].functions[f], w as nat, f as nat)->0,
                )
        }),
    decreases n,
{
    if n > 0 {
        let m = (n - 1) as nat;
        handlers_are_sound(workers, m);
        let functions = workers[n - 1].functions;
        worker_handlers_are_sound(functions, m, functions.len());
        let before = all_handlers(workers, m);
        let more = worker_handlers(functions, m, functions.len());
        let list = all_handlers(workers, n);
        assert(list == before + more);
        assert forall|k: int| 0 <= k < list.len() implies (#[trigger] list[k]).worker < n
            && is_handler_of(workers, list[k]) by {
            if k < before.len() {
                assert(list[k] == before[k]);
            } else {
                assert(list[k] == more[k - before.len()]);
            }
        }
        assert forall|j: int, k: int| 0 <= j < k < list.len() implies ((#[trigger] list[j]).worker,
            list[j].function) != ((#[trigger] list[k]).worker, list[k].function) by {
            if k < before.len() {
                assert(list[j] == before[j] && list[k] == before[k]);
            } else {
                assert(list[k] == more[k - before.len()]);
                if j < before.len() {
                    assert(list[j] == before[j]);
                } else {
                    assert(list[j] == more[j - before.len()]);
                }
            }
        }
        assert forall|w: int, f: int|
            0 <= w < n && 0 <= f < workers[w].functions.len() && trigger_topic_spec(
                (#[trigger] workers[w].functions[f]).trigger,
            ) is Some implies list.contains(
            handler_spec(workers[w].functions[f], w as nat, f as nat)->0,
        ) by {
            let h = handler_spec(workers[w].functions[f], w as nat, f as nat)->0;
            if w == n - 1 {
                assert(more.contains(h));
                let k = choose|k: int| 0 <= k < more.len() && more[k] == h;
                assert(list[before.len() + k] == h);
            } else {
                assert(before.contains(h));
                let k = choose|k: int| 0 <= k < before.len() && before[k] == h;
                assert(list[k] == h);
            }
        }
    }
}

/// Every function that messages trigger has one subscription, which no other
/// function shares, so that what one function does with a message leaves the
/// messages of the others as they are.
pub proof fn every_handler_has_its_own_subscription(workers: Seq<WorkerView>)
    requires
        names_differ(workers),
    ensures
        ({
            let list = all_handlers(workers, workers.len());
            &&& forall|k: int|
                0 <= k < list.len() ==> is_handler_of(workers, #[trigger] list[k])
            &&& forall|w: int, f: int|
                0 <= w < workers.len() && 0 <= f < workers[w].functions.len()
                    && trigger_topic_spec((#[trigger] workers[w].functions[f]).trigger) is Some
                    ==> list.contains(
                    handler_spec(workers[w].functions[f], w as nat, f as nat)->0,
                )
            &&& forall|j: int, k: int|
                0 <= j < k < list.len() ==> (#[trigger] list[j]).subscription != (
                #[trigger] list[k]).subscription
        }),
{
    handlers_are_sound(workers, workers.len());
    let list = all_handlers(workers, workers.len());
    assert forall|j: int, k: int| 0 <= j < k < list.len() implies (
    #[trigger] list[j]).subscription != (#[trigger] list[k]).subscription by {
        let a = workers[list[j].worker as int].functions[list[j].function as int];
        let b = workers[list[k].worker as int].functions[list[k].function as int];
        assert(a.name != b.name);
        let front = "firebase-emu-functions-"@;
        assert((front + a.name).skip(front.len() as int) =~= a.name);
        assert((front + b.name).skip(front.len() as int) =~= b.name);
    }
}

/// A handler is told of every message of its topic.
pub proof fn handlers_are_told(
    workers: Seq<WorkerView>,
    handler: HandlerView,
    project: Seq<char>,
    id: u64,
    message: JsonView,
)
    requires
        is_handler_of(workers, handler),
    ensures
        pubsub_delivery_spec(
            project,
            workers[handler.worker as int].functions[handler.function as int].trigger,
            id,
            handler.topic,
            message,
        ) is Some,
{
}

} // verus!
