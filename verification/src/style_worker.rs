//! The stylesheet discovery worker: a reordering buffer that hands parsed
//! stylesheets on in the order in which they were requested, whatever the
//! order in which their fetches complete.

use vstd::prelude::*;
use crate::msg::{
    diagnostic_views, Diagnostic, DiagnosticView, DiscoveryRequest, FetchError, LoadError,
};

verus! {

/// The place of one request in the buffer.
pub enum Slot<S> {
    /// The stylesheet at this URL was requested and is not there yet.
    Pending(String),
    /// The stylesheet arrived and was parsed.
    Ready(S),
    /// The stylesheet could not be had.
    Failed,
}

/// What a `Slot` holds, as mathematical values.
pub enum SlotView<S> {
    Pending(Seq<char>),
    Ready(S),
    Failed,
}

impl<S> View for Slot<S> {
    type V = SlotView<S>;

    open spec fn view(&self) -> SlotView<S> {
        match self {
            Slot::Pending(url) => SlotView::Pending(url@),
            Slot::Ready(sheet) => SlotView::Ready(*sheet),
            Slot::Failed => SlotView::Failed,
        }
    }
}

/// What a list of slots holds, as mathematical values.
pub open spec fn slot_views<S>(slots: Seq<Slot<S>>) -> Seq<SlotView<S>> {
    slots.map_values(|s: Slot<S>| s@)
}

/// Where a worker stands between its start and its exit.
#[derive(Clone, Copy, Debug, PartialEq, Eq, Structural)]
pub enum WorkerPhase {
    /// Requests are taken.
    Running,
    /// Terminate was received; results of earlier requests are still awaited.
    Draining,
    /// Everything was handed on; nothing more will be.
    Exited,
}

/// What a `StylesheetWorker` holds, as mathematical values.
pub struct StyleWorkerView<S> {
    /// One slot for each request ever taken, in the order of the requests.
    pub slots: Seq<SlotView<S>>,
    /// The number of leading slots whose results were handed on or dropped.
    pub flushed: nat,
    pub phase: WorkerPhase,
    /// One diagnostic for each stylesheet that could not be had.
    pub diagnostics: Seq<DiagnosticView>,
}

/// What happens to a stylesheet worker.
pub enum StyleEvent<S> {
    /// The stylesheet at this URL is requested.
    Request(Seq<char>),
    /// The fetch and parse of the request with this number ended, with a
    /// stylesheet or without one.
    Completed(nat, Option<S>),
    /// No further request follows.
    Terminate,
}

/// The length of the longest prefix of `slots` that holds no pending slot.
pub open spec fn settled_prefix<S>(slots: Seq<SlotView<S>>) -> nat
    decreases slots.len(),
{
    if slots.len() == 0 || slots[0] is Pending {
        0
    } else {
        1 + settled_prefix(slots.drop_first())
    }
}

/// The stylesheets of the ready slots of `slots`, in the order of the slots.
pub open spec fn sheets<S>(slots: Seq<SlotView<S>>) -> Seq<S>
    decreases slots.len(),
{
    if slots.len() == 0 {
        Seq::empty()
    } else {
        let head = sheets(slots.drop_last());
        match slots.last() {
            SlotView::Ready(sheet) => head.push(sheet),
            _ => head,
        }
    }
}

/// The request with the number `seq` is awaited.
pub open spec fn awaited<S>(w: StyleWorkerView<S>, seq: nat) -> bool {
    seq < w.slots.len() && w.slots[seq as int] is Pending
}

/// What every worker keeps: exactly the longest settled prefix was
/// flushed; a worker that exited awaits nothing; a worker that drains
/// awaits something; and a worker that did not exit has room to count.
pub open spec fn well_formed_worker<S>(w: StyleWorkerView<S>) -> bool {
    &&& w.flushed == settled_prefix(w.slots)
    &&& w.slots.len() <= u64::MAX
    &&& w.phase is Exited ==> w.flushed == w.slots.len()
    &&& w.phase is Draining ==> w.flushed < w.slots.len()
}

/// The worker after an event.
pub open spec fn step<S>(w: StyleWorkerView<S>, e: StyleEvent<S>) -> StyleWorkerView<S> {
    match e {
        StyleEvent::Request(url) => if w.phase is Running && w.slots.len() < u64::MAX {
            StyleWorkerView { slots: w.slots.push(SlotView::Pending(url)), ..w }
        } else {
            w
        },
        StyleEvent::Completed(seq, outcome) => if awaited(w, seq) {
            let slots = w.slots.update(
                seq as int,
                match outcome {
                    Some(sheet) => SlotView::Ready(sheet),
                    None => SlotView::Failed,
                },
            );
            let flushed = settled_prefix(slots);
            StyleWorkerView {
                slots,
                flushed,
                phase: if w.phase is Draining && flushed == slots.len() {
                    WorkerPhase::Exited
                } else {
                    w.phase
                },
                diagnostics: match outcome {
                    Some(_) => w.diagnostics,
                    None => w.diagnostics.push(
                        DiagnosticView::Load(w.slots[seq as int]->Pending_0),
                    ),
                },
            }
        } else {
            w
        },
        StyleEvent::Terminate => if w.phase is Running {
            StyleWorkerView {
                phase: if w.flushed == w.slots.len() {
                    WorkerPhase::Exited
                } else {
                    WorkerPhase::Draining
                },
                ..w
            }
        } else {
            w
        },
    }
}

/// What the worker hands to the aggregator at an event: the stylesheets of
/// the slots that the event lets it flush, in the order of their requests.
pub open spec fn output<S>(w: StyleWorkerView<S>, e: StyleEvent<S>) -> Seq<S> {
    sheets(step(w, e).slots.subrange(w.flushed as int, step(w, e).flushed as int))
}

/// The worker after a run of events.
pub open spec fn run<S>(w: StyleWorkerView<S>, events: Seq<StyleEvent<S>>) -> StyleWorkerView<S>
    decreases events.len(),
{
    if events.len() == 0 {
        w
    } else {
        step(run(w, events.drop_last()), events.last())
    }
}

/// Everything that the worker hands to the aggregator over a run of events.
pub open spec fn run_output<S>(w: StyleWorkerView<S>, events: Seq<StyleEvent<S>>) -> Seq<S>
    decreases events.len(),
{
    if events.len() == 0 {
        Seq::empty()
    } else {
        run_output(w, events.drop_last()) + output(run(w, events.drop_last()), events.last())
    }
}

/// `settled_prefix` is `f` exactly when no slot before `f` is pending and
/// `f` is the end or pending.
pub proof fn lemma_settled_prefix<S>(slots: Seq<SlotView<S>>, f: int)
    requires
        0 <= f <= slots.len(),
        forall|k: int| 0 <= k < f ==> !(#[trigger] slots[k] is Pending),
        f < slots.len() ==> slots[f] is Pending,
    ensures
        settled_prefix(slots) == f,
    decreases slots.len(),
{
    if f > 0 {
        let rest = slots.drop_first();
        assert(!(slots[0] is Pending));
        assert forall|k: int| 0 <= k < f - 1 implies !(#[trigger] rest[k] is Pending) by {
            assert(rest[k] == slots[k + 1]);
        }
        lemma_settled_prefix(rest, f - 1);
    }
}

/// The settled prefix ends within the list, holds no pending slot, and is
/// followed by a pending slot or by nothing.
pub proof fn lemma_settled_prefix_is_settled<S>(slots: Seq<SlotView<S>>)
    ensures
        settled_prefix(slots) <= slots.len(),
        forall|k: int| 0 <= k < settled_prefix(slots) ==> !(#[trigger] slots[k] is Pending),
        settled_prefix(slots) < slots.len() ==> slots[settled_prefix(slots) as int] is Pending,
    decreases slots.len(),
{
    if slots.len() > 0 && !(slots[0] is Pending) {
        let rest = slots.drop_first();
        lemma_settled_prefix_is_settled(rest);
        assert forall|k: int| 0 <= k < settled_prefix(slots) implies !(#[trigger] slots[k]
            is Pending) by {
            if k > 0 {
                assert(rest[k - 1] == slots[k]);
            }
        }
        if settled_prefix(slots) < slots.len() {
            assert(rest[settled_prefix(rest) as int] == slots[settled_prefix(slots) as int]);
        }
    }
}

/// The stylesheets of a list of slots are those of its head followed by
/// those of its tail.
pub proof fn lemma_sheets_split<S>(slots: Seq<SlotView<S>>, mid: int)
    requires
        0 <= mid <= slots.len(),
    ensures
        sheets(slots) == sheets(slots.subrange(0, mid)) + sheets(
            slots.subrange(mid, slots.len() as int),
        ),
    decreases slots.len() - mid,
{
    let tail = slots.subrange(mid, slots.len() as int);
    if mid == slots.len() {
        assert(slots.subrange(0, mid) =~= slots);
        assert(sheets(tail) =~= Seq::empty());
    } else {
        let shorter = slots.drop_last();
        lemma_sheets_split(shorter, mid);
        assert(shorter.subrange(0, mid) =~= slots.subrange(0, mid));
        assert(shorter.subrange(mid, shorter.len() as int) =~= tail.drop_last());
        assert(tail.last() == slots.last());
    }
}

/// An event keeps a worker well formed, never moves the flush mark back,
/// never takes a slot away and leaves the flushed slots as they are.
pub proof fn lemma_step_keeps_shape<S>(w: StyleWorkerView<S>, e: StyleEvent<S>)
    requires
        well_formed_worker(w),
    ensures
        well_formed_worker(step(w, e)),
        w.flushed <= step(w, e).flushed <= step(w, e).slots.len(),
        w.slots.len() <= step(w, e).slots.len(),
        forall|k: int| 0 <= k < w.flushed ==> #[trigger] step(w, e).slots[k] == w.slots[k],
{
    let n = step(w, e);
    lemma_settled_prefix_is_settled(w.slots);
    match e {
        StyleEvent::Request(url) => {
            if w.phase is Running && w.slots.len() < u64::MAX {
                assert forall|k: int| 0 <= k < w.flushed implies !(#[trigger] n.slots[k]
                    is Pending) by {
                    assert(n.slots[k] == w.slots[k]);
                }
                lemma_settled_prefix(n.slots, w.flushed as int);
            }
        },
        StyleEvent::Completed(seq, outcome) => {
            if awaited(w, seq) {
                lemma_settled_prefix_is_settled(n.slots);
                if n.flushed < w.flushed {
                    assert(n.slots[n.flushed as int] == w.slots[n.flushed as int]);
                }
            }
        },
        StyleEvent::Terminate => {},
    }
}

/// Over any run of events, a worker hands on exactly the stylesheets of the
/// slots between its flush mark before the run and its flush mark after
/// it, in the order of their requests.
pub proof fn lemma_run_output<S>(w: StyleWorkerView<S>, events: Seq<StyleEvent<S>>)
    requires
        well_formed_worker(w),
    ensures
        well_formed_worker(run(w, events)),
        w.flushed <= run(w, events).flushed <= run(w, events).slots.len(),
        forall|k: int| 0 <= k < w.flushed ==> #[trigger] run(w, events).slots[k] == w.slots[k],
        run_output(w, events) == sheets(
            run(w, events).slots.subrange(w.flushed as int, run(w, events).flushed as int),
        ),
    decreases events.len(),
{
    lemma_settled_prefix_is_settled(w.slots);
    if events.len() == 0 {
        assert(w.slots.subrange(w.flushed as int, w.flushed as int) =~= Seq::empty());
    } else {
        let m = run(w, events.drop_last());
        let n = step(m, events.last());
        lemma_run_output(w, events.drop_last());
        lemma_step_keeps_shape(m, events.last());
        let whole = n.slots.subrange(w.flushed as int, n.flushed as int);
        let mid = m.flushed - w.flushed;
        lemma_sheets_split(whole, mid);
        assert(whole.subrange(0, mid) =~= m.slots.subrange(w.flushed as int, m.flushed as int));
        assert(whole.subrange(mid, whole.len() as int) =~= n.slots.subrange(
            m.flushed as int,
            n.flushed as int,
        ));
        assert forall|k: int| 0 <= k < w.flushed implies #[trigger] n.slots[k] == w.slots[k] by {
            assert(m.slots[k] == w.slots[k]);
        }
    }
}

/// The stylesheets of slots that are all ready are one for each slot, in
/// the order of the slots.
pub proof fn lemma_sheets_of_ready<S>(slots: Seq<SlotView<S>>)
    requires
        forall|k: int| 0 <= k < slots.len() ==> #[trigger] slots[k] is Ready,
    ensures
        sheets(slots).len() == slots.len(),
        forall|k: int| 0 <= k < slots.len() ==> #[trigger] sheets(slots)[k] == slots[k]->Ready_0,
    decreases slots.len(),
{
    if slots.len() > 0 {
        let head = slots.drop_last();
        assert forall|k: int| 0 <= k < head.len() implies #[trigger] head[k] is Ready by {
            assert(head[k] == slots[k]);
        }
        lemma_sheets_of_ready(head);
        assert(slots.last() is Ready);
        assert forall|k: int| 0 <= k < slots.len() implies #[trigger] sheets(slots)[k]
            == slots[k]->Ready_0 by {
            if k < head.len() {
                assert(sheets(head)[k] == head[k]->Ready_0);
            }
        }
    }
}

/// Stylesheets reach the aggregator in source order. Take any run of
/// requests and completions, interleaved in any way, from a worker's
/// start. If at its end every request has completed with a stylesheet,
/// then the worker has handed on exactly one stylesheet for each request,
/// and the `k`-th of them is the stylesheet of the `k`-th request, whatever
/// the order in which the completions came.
pub proof fn lemma_stylesheets_in_request_order<S>(events: Seq<StyleEvent<S>>)
    requires
        forall|k: int|
            0 <= k < run(fresh_worker::<S>(), events).slots.len() ==> #[trigger] run(
                fresh_worker::<S>(),
                events,
            ).slots[k] is Ready,
    ensures
        run_output(fresh_worker::<S>(), events).len() == run(
            fresh_worker::<S>(),
            events,
        ).slots.len(),
        forall|k: int|
            0 <= k < run(fresh_worker::<S>(), events).slots.len() ==> #[trigger] run_output(
                fresh_worker::<S>(),
                events,
            )[k] == run(fresh_worker::<S>(), events).slots[k]->Ready_0,
{
    let w = fresh_worker::<S>();
    let n = run(w, events);
    lemma_run_output(w, events);
    lemma_settled_prefix(n.slots, n.slots.len() as int);
    assert(n.slots.subrange(0, n.slots.len() as int) =~= n.slots);
    lemma_sheets_of_ready(n.slots);
}

/// Once every request has ended, the worker has handed on the stylesheets
/// of all requests that ended with one, in the order of the requests,
/// however the requests and the completions were interleaved.
pub proof fn lemma_settled_run_output<S>(events: Seq<StyleEvent<S>>)
    requires
        forall|k: int|
            0 <= k < run(fresh_worker::<S>(), events).slots.len() ==> !(#[trigger] run(
                fresh_worker::<S>(),
                events,
            ).slots[k] is Pending),
    ensures
        run_output(fresh_worker::<S>(), events) == sheets(run(fresh_worker::<S>(), events).slots),
{
    let n = run(fresh_worker::<S>(), events);
    lemma_run_output(fresh_worker::<S>(), events);
    lemma_settled_prefix(n.slots, n.slots.len() as int);
    assert(n.slots.subrange(0, n.slots.len() as int) =~= n.slots);
}

/// The order in which two fetches complete does not matter: the two
/// completions leave the same slots, the same flush mark and the same
/// phase, and hand the same stylesheets on in the same order, whichever
/// comes first.
pub proof fn lemma_completion_order_is_irrelevant<S>(
    w: StyleWorkerView<S>,
    i: nat,
    a: Option<S>,
    j: nat,
    b: Option<S>,
)
    requires
        well_formed_worker(w),
        i != j,
    ensures
        ({
            let first = StyleEvent::Completed(i, a);
            let second = StyleEvent::Completed(j, b);
            let one = step(step(w, first), second);
            let other = step(step(w, second), first);
            &&& one.slots == other.slots
            &&& one.flushed == other.flushed
            &&& one.phase == other.phase
            &&& output(w, first) + output(step(w, first), second) == output(w, second) + output(
                step(w, second),
                first,
            )
        }),
{
    let first = StyleEvent::Completed(i, a);
    let second = StyleEvent::Completed(j, b);
    let one = step(step(w, first), second);
    let other = step(step(w, second), first);
    assert(one.slots =~= other.slots);
    lemma_step_keeps_shape(w, first);
    lemma_step_keeps_shape(w, second);
    lemma_step_keeps_shape(step(w, first), second);
    lemma_step_keeps_shape(step(w, second), first);
    lemma_settled_prefix_is_settled(step(w, first).slots);
    lemma_settled_prefix_is_settled(step(w, second).slots);
    lemma_settled_prefix_is_settled(w.slots);
    assert(one.flushed == other.flushed) by {
        if awaited(w, i) && awaited(w, j) {
        } else if awaited(w, i) {
        } else if awaited(w, j) {
        } else {
        }
    }
    let both = seq![first, second];
    let swapped = seq![second, first];
    assert(both.drop_last() =~= seq![first]);
    assert(swapped.drop_last() =~= seq![second]);
    assert(seq![first].drop_last() =~= Seq::<StyleEvent<S>>::empty());
    assert(seq![second].drop_last() =~= Seq::<StyleEvent<S>>::empty());
    let none = Seq::<StyleEvent<S>>::empty();
    assert(run(w, none) == w);
    assert(run_output(w, none) =~= Seq::<S>::empty());
    assert(seq![first].last() == first && seq![second].last() == second);
    assert(both.last() == second && swapped.last() == first);
    assert(run(w, seq![first]) == step(w, first));
    assert(run(w, seq![second]) == step(w, second));
    assert(run(w, both) == one);
    assert(run(w, swapped) == other);
    assert(run_output(w, seq![first]) =~= output(w, first));
    assert(run_output(w, seq![second]) =~= output(w, second));
    assert(run_output(w, both) =~= output(w, first) + output(step(w, first), second));
    assert(run_output(w, swapped) =~= output(w, second) + output(step(w, second), first));
    lemma_run_output(w, both);
    lemma_run_output(w, swapped);
}

/// A worker that exited hands nothing on any more, whatever happens.
pub proof fn lemma_nothing_after_exit<S>(w: StyleWorkerView<S>, e: StyleEvent<S>)
    requires
        well_formed_worker(w),
        w.phase is Exited,
    ensures
        step(w, e) == w,
        output(w, e) == Seq::<S>::empty(),
{
    lemma_settled_prefix_is_settled(w.slots);
    assert(w.slots.subrange(w.flushed as int, w.flushed as int) =~= Seq::empty());
}

/// What the request channel gave, as an event of the worker: a request for
/// a stylesheet is a request, Terminate and a channel that is closed are
/// Terminate, and a request for a script is no event.
pub open spec fn received<S>(msg: Option<DiscoveryRequest>) -> Option<StyleEvent<S>> {
    match msg {
        Some(DiscoveryRequest::StylesheetByUrl(url)) => Some(StyleEvent::Request(url@)),
        Some(DiscoveryRequest::Terminate) => Some(StyleEvent::Terminate),
        Some(_) => None,
        None => Some(StyleEvent::Terminate),
    }
}

/// The stylesheet that a fetch and parse ended with, if it ended with one.
pub open spec fn outcome_sheet<S>(outcome: Result<S, FetchError>) -> Option<S> {
    match outcome {
        Ok(sheet) => Some(sheet),
        Err(_) => None,
    }
}

/// A worker before its first request.
pub open spec fn fresh_worker<S>() -> StyleWorkerView<S> {
    StyleWorkerView {
        slots: Seq::empty(),
        flushed: 0,
        phase: WorkerPhase::Running,
        diagnostics: Seq::empty(),
    }
}

/// The stylesheet discovery worker. Requests are numbered in the order in
/// which they are taken; completions may come in any order.
pub struct StylesheetWorker<S> {
    /// The slots that were not flushed yet; the first one, if any, is pending.
    window: Vec<Slot<S>>,
    flushed: u64,
    phase: WorkerPhase,
    diagnostics: Vec<Diagnostic>,
    done: Ghost<Seq<SlotView<S>>>,
}

impl<S> View for StylesheetWorker<S> {
    type V = StyleWorkerView<S>;

    closed spec fn view(&self) -> StyleWorkerView<S> {
        StyleWorkerView {
            slots: self.done@ + slot_views(self.window@),
            flushed: self.flushed as nat,
            phase: self.phase,
            diagnostics: diagnostic_views(self.diagnostics@),
        }
    }
}

impl<S> StylesheetWorker<S> {
    /// The worker is in a state that its operations keep.
    pub closed spec fn wf(&self) -> bool {
        &&& well_formed_worker(self@)
        &&& self.done@.len() == self.flushed
        &&& forall|k: int| 0 <= k < self.done@.len() ==> !(#[trigger] self.done@[k] is Pending)
        &&& self.window@.len() > 0 ==> self.window@[0] is Pending
    }

    /// A worker in a state that its operations keep is well formed.
    pub proof fn lemma_wf(&self)
        requires
            self.wf(),
        ensures
            well_formed_worker(self@),
    {
    }

    /// A worker that runs and has taken no request.
    pub fn new() -> (w: StylesheetWorker<S>)
        ensures
            w.wf(),
            w@ == fresh_worker::<S>(),
    {
        let w = StylesheetWorker {
            window: Vec::new(),
            flushed: 0,
            phase: WorkerPhase::Running,
            diagnostics: Vec::new(),
            done: Ghost(Seq::empty()),
        };
        proof {
            assert(w@.slots =~= Seq::empty());
            assert(w@.diagnostics =~= Seq::empty());
        }
        w
    }

    /// Where the worker stands.
    pub fn phase(&self) -> (p: WorkerPhase)
        ensures
            p == self@.phase,
    {
        self.phase
    }

    /// The number of requests whose results are still awaited or held back.
    pub fn outstanding(&self) -> (n: usize)
        requires
            self.wf(),
        ensures
            n == self@.slots.len() - self@.flushed,
    {
        self.window.len()
    }

    /// The stylesheets that could not be had so far, one diagnostic each.
    pub fn diagnostics(&self) -> (r: &Vec<Diagnostic>)
        ensures
            diagnostic_views(r@) == self@.diagnostics,
    {
        &self.diagnostics
    }

    /// Ends the worker and hands out its diagnostics.
    pub fn into_diagnostics(self) -> (r: Vec<Diagnostic>)
        ensures
            diagnostic_views(r@) == self@.diagnostics,
    {
        self.diagnostics
    }

    /// Takes a request for the stylesheet at `url` and hands back its
    /// number, under which the result is to be reported. A worker that does
    /// not run any more takes no request.
    pub fn request(&mut self, url: &str) -> (seq: Option<u64>)
        requires
            old(self).wf(),
        ensures
            final(self).wf(),
            final(self)@ == step(old(self)@, StyleEvent::Request(url@)),
            seq == if old(self)@.phase is Running && old(self)@.slots.len() < u64::MAX {
                Some(old(self)@.slots.len() as u64)
            } else {
                None
            },
    {
        match self.phase {
            WorkerPhase::Running => {},
            _ => {
                return None;
            },
        }
        let held: u64 = self.window.len() as u64;
        let total: u64 = self.flushed + held;
        if total == u64::MAX {
            return None;
        }
        let ghost before = self@;
        self.window.push(Slot::Pending(String::from_str(url)));
        proof {
            let after = self@;
            assert(after.slots =~= before.slots.push(SlotView::Pending(url@)));
            assert forall|k: int| 0 <= k < self.flushed implies !(#[trigger] after.slots[k]
                is Pending) by {
                assert(after.slots[k] == self.done@[k]);
            }
            assert(after.slots[self.flushed as int] == self.window@[0]@);
            lemma_settled_prefix(after.slots, self.flushed as int);
        }
        Some(total)
    }

    /// Takes what the request channel gave: a request, or nothing because
    /// the channel is closed, which is taken as Terminate. Hands back the
    /// number of the request if a request for a stylesheet was taken.
    pub fn receive(&mut self, msg: Option<DiscoveryRequest>) -> (seq: Option<u64>)
        requires
            old(self).wf(),
        ensures
            final(self).wf(),
            final(self)@ == match received::<S>(msg) {
                Some(event) => step(old(self)@, event),
                None => old(self)@,
            },
            seq == if msg matches Some(DiscoveryRequest::StylesheetByUrl(_)) && old(self)@.phase
                is Running && old(self)@.slots.len() < u64::MAX {
                Some(old(self)@.slots.len() as u64)
            } else {
                None
            },
    {
        match msg {
            Some(DiscoveryRequest::StylesheetByUrl(url)) => self.request(url.as_str()),
            Some(DiscoveryRequest::Terminate) => {
                self.terminate();
                None
            },
            Some(_) => None,
            None => {
                self.terminate();
                None
            },
        }
    }

    /// Takes the result of the request with the number `seq` and hands back
    /// the stylesheets that can now go to the aggregator: those of the
    /// longest run of settled requests that follows what was flushed
    /// before, in the order of the requests. A result for a request that is
    /// not awaited changes nothing. A failure is recorded as a diagnostic
    /// with the URL of the request.
    pub fn complete(&mut self, seq: u64, outcome: Result<S, FetchError>) -> (ready: Vec<S>)
        requires
            old(self).wf(),
        ensures
            final(self).wf(),
            final(self)@ == step(
                old(self)@,
                StyleEvent::Completed(seq as nat, outcome_sheet(outcome)),
            ),
            ready@ == output(
                old(self)@,
                StyleEvent::Completed(seq as nat, outcome_sheet(outcome)),
            ),
    {
        let mut ready: Vec<S> = Vec::new();
        let ghost before = self@;
        let ghost event = StyleEvent::Completed(seq as nat, outcome_sheet(outcome));
        proof {
            assert(before.slots.subrange(before.flushed as int, before.flushed as int)
                =~= Seq::empty());
        }
        if seq < self.flushed {
            proof {
                assert(before.slots[seq as int] == self.done@[seq as int]);
            }
            return ready;
        }
        let offset: u64 = seq - self.flushed;
        if offset >= self.window.len() as u64 {
            return ready;
        }
        let idx: usize = offset as usize;
        proof {
            assert(before.slots[seq as int] == self.window@[idx as int]@);
        }
        let url = match &self.window[idx] {
            Slot::Pending(url) => url.clone(),
            _ => {
                return ready;
            },
        };
        match outcome {
            Ok(sheet) => {
                self.window[idx] = Slot::Ready(sheet);
            },
            Err(_) => {
                self.window[idx] = Slot::Failed;
                self.diagnostics.push(Diagnostic::Load(LoadError { url }));
            },
        }
        let ghost target = step(before, event);
        proof {
            assert(self@.slots =~= target.slots);
            assert(self@.diagnostics =~= target.diagnostics);
            lemma_settled_prefix_is_settled(target.slots);
        }
        let ghost start = self.flushed;
        while self.window.len() > 0 && !Self::is_pending(&self.window[0])
            invariant
                self@.slots == target.slots,
                self@.diagnostics == target.diagnostics,
                self.phase == before.phase,
                self.done@.len() == self.flushed,
                start <= self.flushed <= target.slots.len() <= u64::MAX,
                forall|k: int| 0 <= k < self.done@.len() ==> !(#[trigger] self.done@[k] is Pending),
                ready@ == sheets(target.slots.subrange(start as int, self.flushed as int)),
            decreases self.window.len(),
        {
            let ghost f = self.flushed as int;
            let ghost grown = target.slots.subrange(start as int, f + 1);
            proof {
                assert(target.slots[f] == self.window@[0]@);
                assert(grown.drop_last() =~= target.slots.subrange(start as int, f));
                assert(grown.last() == target.slots[f]);
            }
            let slot = self.window.remove(0);
            self.flushed = self.flushed + 1;
            proof {
                self.done@ = self.done@.push(slot@);
                assert(self@.slots =~= target.slots);
            }
            match slot {
                Slot::Ready(sheet) => {
                    ready.push(sheet);
                },
                _ => {},
            }
        }
        proof {
            assert(self.window@.len() > 0 ==> target.slots[self.flushed as int]
                == self.window@[0]@);
            assert forall|k: int| 0 <= k < self.flushed implies !(#[trigger] target.slots[k]
                is Pending) by {
                assert(target.slots[k] == self.done@[k]);
            }
            lemma_settled_prefix(target.slots, self.flushed as int);
        }
        match self.phase {
            WorkerPhase::Draining => {
                if self.window.len() == 0 {
                    self.phase = WorkerPhase::Exited;
                }
            },
            _ => {},
        }
        ready
    }

    /// Whether a slot is pending.
    fn is_pending(slot: &Slot<S>) -> (r: bool)
        ensures
            r == (slot@ is Pending),
    {
        match slot {
            Slot::Pending(_) => true,
            _ => false,
        }
    }

    /// Takes the notice that no further request follows. A worker that
    /// awaits nothing exits; any other drains, and exits with the last
    /// result that it awaits.
    pub fn terminate(&mut self)
        requires
            old(self).wf(),
        ensures
            final(self).wf(),
            final(self)@ == step(old(self)@, StyleEvent::Terminate),
    {
        match self.phase {
            WorkerPhase::Running => {
                if self.window.len() == 0 {
                    self.phase = WorkerPhase::Exited;
                } else {
                    self.phase = WorkerPhase::Draining;
                }
            },
            _ => {},
        }
    }
}

} // verus!
