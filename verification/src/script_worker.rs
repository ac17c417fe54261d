//! The script discovery worker: it gathers the scripts of a document,
//! inline and fetched, and hands them on once, as one batch in the order in
//! which they were met, when the parse has ended.

use vstd::prelude::*;
use vstd::utf8::{decode_utf8, valid_utf8};
use crate::msg::{
    diagnostic_views, script_views, DecodeError, Diagnostic, DiagnosticView, DiscoveryRequest,
    DiscoveryRequestView, FetchError, JSFile, JSFileView, JSResult, LoadError,
};
use crate::style_worker::WorkerPhase;
use crate::text::text_from_utf8;

verus! {

/// The place of one script in the batch under construction.
pub enum ScriptSlot {
    /// The script at this URL was requested and is not there yet.
    Pending(String),
    /// The script is there.
    Ready(JSFile),
    /// The script could not be had; the batch goes without it.
    Dropped,
}

/// What a `ScriptSlot` holds, as mathematical values.
pub enum ScriptSlotView {
    Pending(Seq<char>),
    Ready(JSFileView),
    Dropped,
}

impl View for ScriptSlot {
    type V = ScriptSlotView;

    open spec fn view(&self) -> ScriptSlotView {
        match self {
            ScriptSlot::Pending(url) => ScriptSlotView::Pending(url@),
            ScriptSlot::Ready(file) => ScriptSlotView::Ready(file@),
            ScriptSlot::Dropped => ScriptSlotView::Dropped,
        }
    }
}

/// What a list of script slots holds, as mathematical values.
pub open spec fn script_slot_views(slots: Seq<ScriptSlot>) -> Seq<ScriptSlotView> {
    slots.map_values(|s: ScriptSlot| s@)
}

/// What the worker asks of whoever runs it.
#[derive(Clone, Debug, PartialEq, Eq)]
pub enum ScriptAction {
    /// Nothing; wait for the next event.
    Continue,
    /// Fetch the script at the URL and report the result under the number.
    Fetch(u64, String),
    /// Hand this batch of scripts to the aggregator; the worker has exited.
    Emit(JSResult),
}

/// What a `ScriptAction` holds, as mathematical values.
pub enum ScriptActionView {
    Continue,
    Fetch(nat, Seq<char>),
    Emit(Seq<JSFileView>),
}

impl View for ScriptAction {
    type V = ScriptActionView;

    open spec fn view(&self) -> ScriptActionView {
        match self {
            ScriptAction::Continue => ScriptActionView::Continue,
            ScriptAction::Fetch(seq, url) => ScriptActionView::Fetch(*seq as nat, url@),
            ScriptAction::Emit(files) => ScriptActionView::Emit(script_views(files@)),
        }
    }
}

/// How the fetch of a script ended.
pub enum ScriptBody {
    /// With text, at this final URL.
    Text { url: Seq<char>, data: Seq<char> },
    /// With a body, at this final URL, that is no text in UTF-8.
    Undecodable { url: Seq<char> },
    /// Without a body.
    Unfetched,
}

/// How a fetch ended, read from its result: the body is text exactly where
/// its bytes are well-formed UTF-8, and the text is what they encode.
pub open spec fn script_body(outcome: Result<(String, Vec<u8>), FetchError>) -> ScriptBody {
    match outcome {
        Ok((url, bytes)) => if valid_utf8(bytes@) {
            ScriptBody::Text { url: url@, data: decode_utf8(bytes@) }
        } else {
            ScriptBody::Undecodable { url: url@ }
        },
        Err(_) => ScriptBody::Unfetched,
    }
}

/// What happens to a script worker.
pub enum ScriptEvent {
    /// A request arrives.
    Request(DiscoveryRequestView),
    /// The fetch for the request with this number ended.
    Fetched(nat, ScriptBody),
}

/// What a `ScriptWorker` holds, as mathematical values.
pub struct ScriptWorkerView {
    /// One slot for each script ever requested, in the order of the requests.
    pub slots: Seq<ScriptSlotView>,
    pub phase: WorkerPhase,
    /// One diagnostic for each script that could not be had.
    pub diagnostics: Seq<DiagnosticView>,
}

/// A worker before its first request.
pub open spec fn fresh_script_worker() -> ScriptWorkerView {
    ScriptWorkerView {
        slots: Seq::empty(),
        phase: WorkerPhase::Running,
        diagnostics: Seq::empty(),
    }
}

/// The number of pending slots of `slots`.
pub open spec fn pending_count(slots: Seq<ScriptSlotView>) -> nat
    decreases slots.len(),
{
    if slots.len() == 0 {
        0
    } else {
        pending_count(slots.drop_last()) + if slots.last() is Pending {
            1nat
        } else {
            0nat
        }
    }
}

/// The scripts of the ready slots of `slots`, in the order of the slots.
pub open spec fn files(slots: Seq<ScriptSlotView>) -> Seq<JSFileView>
    decreases slots.len(),
{
    if slots.len() == 0 {
        Seq::empty()
    } else {
        let head = files(slots.drop_last());
        match slots.last() {
            ScriptSlotView::Ready(file) => head.push(file),
            _ => head,
        }
    }
}

/// The fetch for the request with the number `seq` is awaited.
pub open spec fn script_awaited(w: ScriptWorkerView, seq: nat) -> bool {
    seq < w.slots.len() && w.slots[seq as int] is Pending
}

/// What every script worker keeps: a worker that exited awaits nothing, a
/// worker that drains awaits something, and the requests can be counted.
pub open spec fn well_formed_script_worker(w: ScriptWorkerView) -> bool {
    &&& w.slots.len() <= usize::MAX
    &&& w.phase is Exited ==> pending_count(w.slots) == 0
    &&& w.phase is Draining ==> pending_count(w.slots) > 0
}

/// The slot that a fetch leaves behind.
pub open spec fn settled_slot(body: ScriptBody) -> ScriptSlotView {
    match body {
        ScriptBody::Text { url, data } => ScriptSlotView::Ready(JSFileView { data, url }),
        _ => ScriptSlotView::Dropped,
    }
}

/// The diagnostics after the fetch for a request for `requested` ended.
pub open spec fn noted(
    diagnostics: Seq<DiagnosticView>,
    requested: Seq<char>,
    body: ScriptBody,
) -> Seq<DiagnosticView> {
    match body {
        ScriptBody::Text { .. } => diagnostics,
        ScriptBody::Undecodable { url } => diagnostics.push(DiagnosticView::Decode(url)),
        ScriptBody::Unfetched => diagnostics.push(DiagnosticView::Load(requested)),
    }
}

/// The worker after an event.
pub open spec fn script_step(w: ScriptWorkerView, e: ScriptEvent) -> ScriptWorkerView {
    match e {
        ScriptEvent::Request(DiscoveryRequestView::ScriptByUrl(url)) => if w.phase is Running
            && w.slots.len() < usize::MAX {
            ScriptWorkerView { slots: w.slots.push(ScriptSlotView::Pending(url)), ..w }
        } else {
            w
        },
        ScriptEvent::Request(DiscoveryRequestView::ScriptInline(data, url)) => if w.phase is Running
            && w.slots.len() < usize::MAX {
            ScriptWorkerView {
                slots: w.slots.push(ScriptSlotView::Ready(JSFileView { data, url })),
                ..w
            }
        } else {
            w
        },
        ScriptEvent::Request(DiscoveryRequestView::Terminate) => if w.phase is Running {
            ScriptWorkerView {
                phase: if pending_count(w.slots) == 0 {
                    WorkerPhase::Exited
                } else {
                    WorkerPhase::Draining
                },
                ..w
            }
        } else {
            w
        },
        ScriptEvent::Request(DiscoveryRequestView::StylesheetByUrl(_)) => w,
        ScriptEvent::Fetched(seq, body) => if script_awaited(w, seq) {
            let slots = w.slots.update(seq as int, settled_slot(body));
            ScriptWorkerView {
                slots,
                phase: if w.phase is Draining && pending_count(slots) == 0 {
                    WorkerPhase::Exited
                } else {
                    w.phase
                },
                diagnostics: noted(w.diagnostics, w.slots[seq as int]->Pending_0, body),
            }
        } else {
            w
        },
    }
}

/// What the worker asks for at an event: a fetch for a script that is
/// requested by its URL; the batch, at the event with which it exits; and
/// nothing otherwise.
pub open spec fn script_action(w: ScriptWorkerView, e: ScriptEvent) -> ScriptActionView {
    let next = script_step(w, e);
    if !(w.phase is Exited) && next.phase is Exited {
        ScriptActionView::Emit(files(next.slots))
    } else if next.slots.len() > w.slots.len() && next.slots.last() is Pending {
        ScriptActionView::Fetch(w.slots.len(), next.slots.last()->Pending_0)
    } else {
        ScriptActionView::Continue
    }
}

/// What the request channel gave, as a request: a channel that is closed
/// stands for Terminate.
pub open spec fn received(msg: Option<DiscoveryRequest>) -> DiscoveryRequestView {
    match msg {
        Some(request) => request@,
        None => DiscoveryRequestView::Terminate,
    }
}

/// The worker after a run of events.
pub open spec fn script_run(w: ScriptWorkerView, events: Seq<ScriptEvent>) -> ScriptWorkerView
    decreases events.len(),
{
    if events.len() == 0 {
        w
    } else {
        script_step(script_run(w, events.drop_last()), events.last())
    }
}

/// The batches that the worker hands to the aggregator over a run of events.
pub open spec fn batches(w: ScriptWorkerView, events: Seq<ScriptEvent>) -> Seq<Seq<JSFileView>>
    decreases events.len(),
{
    if events.len() == 0 {
        Seq::empty()
    } else {
        let before = batches(w, events.drop_last());
        match script_action(script_run(w, events.drop_last()), events.last()) {
            ScriptActionView::Emit(batch) => before.push(batch),
            _ => before,
        }
    }
}

/// Settling one slot changes the number of pending slots by what the slot
/// was and what it becomes.
pub proof fn lemma_pending_count_update(slots: Seq<ScriptSlotView>, i: int, slot: ScriptSlotView)
    requires
        0 <= i < slots.len(),
    ensures
        pending_count(slots.update(i, slot)) + (if slots[i] is Pending {
            1nat
        } else {
            0nat
        }) == pending_count(slots) + (if slot is Pending {
            1nat
        } else {
            0nat
        }),
    decreases slots.len(),
{
    let changed = slots.update(i, slot);
    if i == slots.len() - 1 {
        assert(changed.drop_last() =~= slots.drop_last());
    } else {
        assert(changed.drop_last() =~= slots.drop_last().update(i, slot));
        lemma_pending_count_update(slots.drop_last(), i, slot);
    }
}

/// No more slots are pending than there are slots.
pub proof fn lemma_pending_count_bound(slots: Seq<ScriptSlotView>)
    ensures
        pending_count(slots) <= slots.len(),
    decreases slots.len(),
{
    if slots.len() > 0 {
        lemma_pending_count_bound(slots.drop_last());
    }
}

/// Where no slot is counted as pending, none is pending.
pub proof fn lemma_none_pending(slots: Seq<ScriptSlotView>)
    requires
        pending_count(slots) == 0,
    ensures
        forall|k: int| 0 <= k < slots.len() ==> !(#[trigger] slots[k] is Pending),
    decreases slots.len(),
{
    if slots.len() > 0 {
        lemma_none_pending(slots.drop_last());
        assert forall|k: int| 0 <= k < slots.len() implies !(#[trigger] slots[k] is Pending) by {
            if k < slots.len() - 1 {
                assert(slots.drop_last()[k] == slots[k]);
            }
        }
    }
}

/// An event keeps a script worker well formed and takes no slot away; a
/// worker that exited stays as it is and asks for nothing.
pub proof fn lemma_script_step_keeps_shape(w: ScriptWorkerView, e: ScriptEvent)
    requires
        well_formed_script_worker(w),
    ensures
        well_formed_script_worker(script_step(w, e)),
        w.slots.len() <= script_step(w, e).slots.len(),
        w.phase is Exited ==> script_step(w, e) == w && script_action(w, e)
            == ScriptActionView::Continue,
        script_step(w, e).phase is Running ==> w.phase is Running,
        !(w.phase is Running) ==> script_step(w, e).slots.len() == w.slots.len(),
{
    let n = script_step(w, e);
    match e {
        ScriptEvent::Request(DiscoveryRequestView::ScriptByUrl(url)) => {
            if w.phase is Running && w.slots.len() < usize::MAX {
                assert(n.slots.drop_last() =~= w.slots);
            }
        },
        ScriptEvent::Request(DiscoveryRequestView::ScriptInline(data, url)) => {
            if w.phase is Running && w.slots.len() < usize::MAX {
                assert(n.slots.drop_last() =~= w.slots);
            }
        },
        ScriptEvent::Request(_) => {},
        ScriptEvent::Fetched(seq, body) => {
            if script_awaited(w, seq) {
                lemma_pending_count_update(w.slots, seq as int, settled_slot(body));
            }
            if w.phase is Exited {
                lemma_none_pending(w.slots);
            }
        },
    }
}

/// The scripts of a document go to the aggregator once. Over any run of
/// events from a worker's start, the worker hands on one batch if it has
/// exited by the end of the run and none if it has not; the batch holds
/// the scripts of the ready slots, in the order of their requests.
pub proof fn lemma_one_batch(events: Seq<ScriptEvent>)
    ensures
        well_formed_script_worker(script_run(fresh_script_worker(), events)),
        batches(fresh_script_worker(), events).len() == if script_run(
            fresh_script_worker(),
            events,
        ).phase is Exited {
            1nat
        } else {
            0nat
        },
        script_run(fresh_script_worker(), events).phase is Exited ==> batches(
            fresh_script_worker(),
            events,
        )[0] == files(script_run(fresh_script_worker(), events).slots),
    decreases events.len(),
{
    let w = fresh_script_worker();
    if events.len() > 0 {
        lemma_one_batch(events.drop_last());
        lemma_script_step_keeps_shape(script_run(w, events.drop_last()), events.last());
    }
}

/// No batch goes out before the parse has ended: over a run of events
/// without Terminate the worker keeps running and hands nothing on.
pub proof fn lemma_no_batch_before_terminate(events: Seq<ScriptEvent>)
    requires
        forall|k: int|
            0 <= k < events.len() ==> #[trigger] events[k] != ScriptEvent::Request(
                DiscoveryRequestView::Terminate,
            ),
    ensures
        script_run(fresh_script_worker(), events).phase is Running,
        batches(fresh_script_worker(), events) == Seq::<Seq<JSFileView>>::empty(),
    decreases events.len(),
{
    if events.len() > 0 {
        let head = events.drop_last();
        assert forall|k: int| 0 <= k < head.len() implies #[trigger] head[k]
            != ScriptEvent::Request(DiscoveryRequestView::Terminate) by {
            assert(head[k] == events[k]);
        }
        lemma_no_batch_before_terminate(head);
        assert(events.last() == events[events.len() - 1]);
    }
}

/// Where every script was had, the batch holds one script for each
/// request, in the order of the requests.
pub proof fn lemma_files_of_ready(slots: Seq<ScriptSlotView>)
    requires
        forall|k: int| 0 <= k < slots.len() ==> #[trigger] slots[k] is Ready,
    ensures
        files(slots).len() == slots.len(),
        forall|k: int| 0 <= k < slots.len() ==> #[trigger] files(slots)[k] == slots[k]->Ready_0,
    decreases slots.len(),
{
    if slots.len() > 0 {
        let head = slots.drop_last();
        assert forall|k: int| 0 <= k < head.len() implies #[trigger] head[k] is Ready by {
            assert(head[k] == slots[k]);
        }
        lemma_files_of_ready(head);
        assert(slots.last() is Ready);
        assert forall|k: int| 0 <= k < slots.len() implies #[trigger] files(slots)[k]
            == slots[k]->Ready_0 by {
            if k < head.len() {
                assert(files(head)[k] == head[k]->Ready_0);
            }
        }
    }
}

/// A script that could not be had is left out and nothing else changes:
/// the batch is the batch of the other requests, in their order.
pub proof fn lemma_files_skip_dropped(slots: Seq<ScriptSlotView>, i: int)
    requires
        0 <= i < slots.len(),
        !(slots[i] is Ready),
    ensures
        files(slots) == files(slots.remove(i)),
    decreases slots.len(),
{
    if i == slots.len() - 1 {
        assert(slots.remove(i) =~= slots.drop_last());
    } else {
        let rest = slots.remove(i);
        assert(rest.drop_last() =~= slots.drop_last().remove(i));
        assert(rest.last() == slots.last());
        lemma_files_skip_dropped(slots.drop_last(), i);
    }
}

/// The script discovery worker.
pub struct ScriptWorker {
    slots: Vec<ScriptSlot>,
    pending: usize,
    phase: WorkerPhase,
    diagnostics: Vec<Diagnostic>,
}

impl View for ScriptWorker {
    type V = ScriptWorkerView;

    closed spec fn view(&self) -> ScriptWorkerView {
        ScriptWorkerView {
            slots: script_slot_views(self.slots@),
            phase: self.phase,
            diagnostics: diagnostic_views(self.diagnostics@),
        }
    }
}

impl ScriptWorker {
    /// The worker is in a state that its operations keep.
    pub closed spec fn wf(&self) -> bool {
        &&& well_formed_script_worker(self@)
        &&& self.pending == pending_count(self@.slots)
    }

    /// A worker in a state that its operations keep is well formed.
    pub proof fn lemma_wf(&self)
        requires
            self.wf(),
        ensures
            well_formed_script_worker(self@),
    {
    }

    /// A worker that runs and has taken no request.
    pub fn new() -> (w: ScriptWorker)
        ensures
            w.wf(),
            w@ == fresh_script_worker(),
    {
        let w = ScriptWorker {
            slots: Vec::new(),
            pending: 0,
            phase: WorkerPhase::Running,
            diagnostics: Vec::new(),
        };
        proof {
            assert(w@.slots =~= Seq::empty());
            assert(w@.diagnostics =~= Seq::empty());
        }
        w
    }

    /// Where the worker stands.
    pub fn phase(&self) -> (p: WorkerPhase)
        ensures
            p == self@.phase,
    {
        self.phase
    }

    /// The scripts that could not be had so far, one diagnostic each.
    pub fn diagnostics(&self) -> (r: &Vec<Diagnostic>)
        ensures
            diagnostic_views(r@) == self@.diagnostics,
    {
        &self.diagnostics
    }

    /// Ends the worker and hands out its diagnostics.
    pub fn into_diagnostics(self) -> (r: Vec<Diagnostic>)
        ensures
            diagnostic_views(r@) == self@.diagnostics,
    {
        self.diagnostics
    }

    /// The scripts gathered so far, in the order in which they were requested.
    pub fn batch(&self) -> (r: JSResult)
        ensures
            script_views(r@) == files(self@.slots),
    {
        let mut out: Vec<JSFile> = Vec::new();
        let ghost all = self@.slots;
        let mut k: usize = 0;
        assert(script_views(out@) =~= files(all.take(0)));
        while k < self.slots.len()
            invariant
                k <= self.slots.len(),
                all == script_slot_views(self.slots@),
                script_views(out@) == files(all.take(k as int)),
            decreases self.slots.len() - k,
        {
            proof {
                let next = all.take(k + 1);
                assert(next.drop_last() =~= all.take(k as int));
                assert(next.last() == self.slots@[k as int]@);
            }
            match &self.slots[k] {
                ScriptSlot::Ready(file) => {
                    let copy = JSFile { data: file.data.clone(), url: file.url.clone() };
                    let ghost had = script_views(out@);
                    out.push(copy);
                    assert(script_views(out@) =~= had.push(copy@));
                },
                _ => {},
            }
            k = k + 1;
        }
        assert(all.take(k as int) =~= all);
        out
    }

    /// Takes a request. A script that is requested by its URL gets a
    /// number and is to be fetched; an inline script joins the batch as it
    /// is; Terminate makes the worker hand the batch on, at once or with
    /// the last fetch that it awaits. A worker that does not run any more
    /// takes no script.
    pub fn handle(&mut self, request: DiscoveryRequest) -> (action: ScriptAction)
        requires
            old(self).wf(),
        ensures
            final(self).wf(),
            final(self)@ == script_step(old(self)@, ScriptEvent::Request(request@)),
            action@ == script_action(old(self)@, ScriptEvent::Request(request@)),
    {
        let ghost before = self@;
        match self.phase {
            WorkerPhase::Running => {},
            _ => {
                return ScriptAction::Continue;
            },
        }
        match request {
            DiscoveryRequest::ScriptByUrl(url) => {
                if self.slots.len() == usize::MAX {
                    return ScriptAction::Continue;
                }
                let seq: u64 = self.slots.len() as u64;
                proof {
                    lemma_pending_count_bound(before.slots);
                }
                self.slots.push(ScriptSlot::Pending(url.clone()));
                self.pending = self.pending + 1;
                proof {
                    let slot = ScriptSlotView::Pending(url@);
                    assert(self@.slots =~= before.slots.push(slot));
                    assert(self@.slots.drop_last() =~= before.slots);
                }
                ScriptAction::Fetch(seq, url)
            },
            DiscoveryRequest::ScriptInline(data, url) => {
                if self.slots.len() == usize::MAX {
                    return ScriptAction::Continue;
                }
                let ghost slot = ScriptSlotView::Ready(JSFileView { data: data@, url: url@ });
                self.slots.push(ScriptSlot::Ready(JSFile { data, url }));
                proof {
                    assert(self@.slots =~= before.slots.push(slot));
                    assert(self@.slots.drop_last() =~= before.slots);
                }
                ScriptAction::Continue
            },
            DiscoveryRequest::Terminate => {
                if self.pending == 0 {
                    self.phase = WorkerPhase::Exited;
                    ScriptAction::Emit(self.batch())
                } else {
                    self.phase = WorkerPhase::Draining;
                    ScriptAction::Continue
                }
            },
            DiscoveryRequest::StylesheetByUrl(_) => ScriptAction::Continue,
        }
    }

    /// Takes what the request channel gave: a request, or nothing because
    /// the channel is closed, which is taken as Terminate.
    pub fn receive(&mut self, msg: Option<DiscoveryRequest>) -> (action: ScriptAction)
        requires
            old(self).wf(),
        ensures
            final(self).wf(),
            final(self)@ == script_step(old(self)@, ScriptEvent::Request(received(msg))),
            action@ == script_action(old(self)@, ScriptEvent::Request(received(msg))),
    {
        match msg {
            Some(request) => self.handle(request),
            None => self.handle(DiscoveryRequest::Terminate),
        }
    }

    /// Takes the result of the fetch for the request with the number
    /// `seq`: the final URL and the body, or a failure. A body that is text
    /// in UTF-8 joins the batch in the place of its request; any other
    /// result is recorded as a diagnostic and the batch goes without the
    /// script. A worker that drains hands the batch on with the last result
    /// that it awaits. A result for a request that is not awaited changes
    /// nothing.
    pub fn fetched(&mut self, seq: u64, outcome: Result<(String, Vec<u8>), FetchError>) -> (action:
        ScriptAction)
        requires
            old(self).wf(),
        ensures
            final(self).wf(),
            final(self)@ == script_step(
                old(self)@,
                ScriptEvent::Fetched(seq as nat, script_body(outcome)),
            ),
            action@ == script_action(
                old(self)@,
                ScriptEvent::Fetched(seq as nat, script_body(outcome)),
            ),
    {
        let ghost before = self@;
        let ghost body = script_body(outcome);
        if seq >= self.slots.len() as u64 {
            return ScriptAction::Continue;
        }
        let idx: usize = seq as usize;
        let requested = match &self.slots[idx] {
            ScriptSlot::Pending(url) => url.clone(),
            _ => {
                return ScriptAction::Continue;
            },
        };
        proof {
            assert(before.slots[idx as int] == self.slots@[idx as int]@);
            lemma_pending_count_update(before.slots, idx as int, settled_slot(body));
        }
        match outcome {
            Ok((url, bytes)) => {
                match text_from_utf8(bytes) {
                    Some(data) => {
                        self.slots[idx] = ScriptSlot::Ready(JSFile { data, url });
                    },
                    None => {
                        self.slots[idx] = ScriptSlot::Dropped;
                        self.diagnostics.push(Diagnostic::Decode(DecodeError { url }));
                    },
                }
            },
            Err(_) => {
                self.slots[idx] = ScriptSlot::Dropped;
                self.diagnostics.push(Diagnostic::Load(LoadError { url: requested }));
            },
        }
        self.pending = self.pending - 1;
        proof {
            assert(self@.slots =~= before.slots.update(idx as int, settled_slot(body)));
            assert(self@.diagnostics =~= noted(
                before.diagnostics,
                before.slots[idx as int]->Pending_0,
                body,
            ));
        }
        match self.phase {
            WorkerPhase::Draining => {
                if self.pending == 0 {
                    self.phase = WorkerPhase::Exited;
                    return ScriptAction::Emit(self.batch());
                }
            },
            _ => {},
        }
        ScriptAction::Continue
    }
}

} // verus!
