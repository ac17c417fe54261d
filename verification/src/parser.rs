//! The parse of one document from a recorded load: the tree events of its
//! chunks go through the bridge, the requests that this raises go through
//! the two workers, and everything that was discovered is gathered in the
//! aggregator.

use vstd::prelude::*;
use crate::aggregator::{Aggregator, AggregatorView, Producer};
use crate::dom::Document;
use crate::msg::{
    diagnostic_views, frame_views, request_views, Diagnostic, DiagnosticView, DiscoveryRequest,
    DiscoveryRequestView, FetchError, HtmlDiscoveryMessage, HtmlDiscoveryMessageView,
    IFrameDiscovery, IFrameDiscoveryView, JSFileView, LoadError, PipelineId, SubpageId,
};
use crate::script_worker::{
    files, lemma_files_of_ready, lemma_files_skip_dropped, lemma_pending_count_update, noted,
    pending_count, script_body, settled_slot, ScriptAction, ScriptBody, ScriptSlotView,
    ScriptWorker,
};
use crate::session::{
    event_views, lemma_replayed_concat, lemma_replayed_keeps_base, opt_url, replayed,
    ParseSession, SessionView, TreeEvent, TreeEventView,
};
use crate::style_worker::{
    fresh_worker, lemma_settled_prefix, lemma_settled_prefix_is_settled,
    lemma_settled_run_output, outcome_sheet, run, run_output, sheets, SlotView, StyleEvent,
    StylesheetWorker,
};

verus! {

/// The page that a document is parsed for.
#[derive(Clone, Copy, Debug, PartialEq, Eq, Structural)]
pub struct Page {
    /// The pipeline of the page.
    pub id: PipelineId,
    /// The identifier that the first sub-document of the parse gets.
    pub next_subpage_id: SubpageId,
}

/// What the load of the document reports after its first response.
#[derive(Debug, PartialEq, Eq)]
pub enum ProgressMsg {
    /// A chunk arrived; these are the tree events that the tree builder
    /// raised while it read the chunk.
    Payload(Vec<TreeEvent>),
    /// The load ended, well or with a transport error.
    Done(Result<(), FetchError>),
}

/// What a `ProgressMsg` holds, as mathematical values.
pub enum ProgressMsgView {
    Payload(Seq<TreeEventView>),
    /// Whether the load ended well.
    Done(bool),
}

impl View for ProgressMsg {
    type V = ProgressMsgView;

    open spec fn view(&self) -> ProgressMsgView {
        match self {
            ProgressMsg::Payload(events) => ProgressMsgView::Payload(event_views(events@)),
            ProgressMsg::Done(status) => ProgressMsgView::Done(status is Ok),
        }
    }
}

/// What a list of progress messages holds, as mathematical values.
pub open spec fn progress_views(progress: Seq<ProgressMsg>) -> Seq<ProgressMsgView> {
    progress.map_values(|m: ProgressMsg| m@)
}

/// The answer to the request for a document: its final URL and what the
/// load reported afterwards.
#[derive(Debug, PartialEq, Eq)]
pub struct LoadResponse {
    pub final_url: String,
    pub progress: Vec<ProgressMsg>,
}

/// What a parse hands to its caller.
pub struct HtmlParserResult<S> {
    /// The tree, as far as it was built.
    pub document: Document,
    /// Everything that was discovered, for the caller to take.
    pub discovery_port: Aggregator<S>,
    /// The failures that did not stop the parse.
    pub diagnostics: Vec<Diagnostic>,
    /// The transport error that cut the load short, if one did.
    pub load_error: Option<LoadError>,
    /// The identifier that the next sub-document of the page gets.
    pub next_subpage_id: SubpageId,
}

/// The tree events that a load feeds to the bridge: those of its chunks up
/// to the message that ends it.
pub open spec fn fed(progress: Seq<ProgressMsgView>) -> Seq<TreeEventView>
    decreases progress.len(),
{
    if progress.len() == 0 {
        Seq::empty()
    } else {
        match progress[0] {
            ProgressMsgView::Payload(events) => events + fed(progress.drop_first()),
            ProgressMsgView::Done(_) => Seq::empty(),
        }
    }
}

/// Whether a load ended well: its first message that ends it says so. A
/// load that never says that it ended did not end well.
pub open spec fn ended_well(progress: Seq<ProgressMsgView>) -> bool
    decreases progress.len(),
{
    if progress.len() == 0 {
        false
    } else {
        match progress[0] {
            ProgressMsgView::Payload(_) => ended_well(progress.drop_first()),
            ProgressMsgView::Done(ok) => ok,
        }
    }
}

/// The session at the start of a parse.
pub open spec fn initial_session(final_url: Seq<char>, page: Page) -> SessionView {
    SessionView {
        document: Document::new_view(),
        base_url: final_url,
        pipeline_id: page.id,
        first_subpage_id: page.next_subpage_id.0,
        next_subpage_id: page.next_subpage_id.0,
        stylesheet_requests: Seq::empty(),
        script_requests: Seq::empty(),
        frames: Seq::empty(),
        diagnostics: Seq::empty(),
    }
}

/// The messages that announce sub-documents.
pub open spec fn frame_messages<S>(frames: Seq<IFrameDiscoveryView>) -> Seq<
    HtmlDiscoveryMessageView<S>,
> {
    frames.map_values(|f: IFrameDiscoveryView| HtmlDiscoveryMessageView::HtmlDiscoveredIFrame(f))
}

/// The messages that hand stylesheets on.
pub open spec fn style_messages<S>(found: Seq<S>) -> Seq<HtmlDiscoveryMessageView<S>> {
    found.map_values(|s: S| HtmlDiscoveryMessageView::HtmlDiscoveredStyle(s))
}

/// The stylesheet that the `k`-th stylesheet request ends with: the `k`-th
/// recorded outcome, or none where the record is shorter.
pub open spec fn sheet_for<S>(outcomes: Seq<Result<S, FetchError>>, k: int) -> Option<S> {
    if 0 <= k < outcomes.len() {
        outcome_sheet(outcomes[k])
    } else {
        None
    }
}

/// The stylesheets of the first `n` requests that were had, in the order of
/// the requests.
pub open spec fn delivered_sheets<S>(n: nat, outcomes: Seq<Result<S, FetchError>>) -> Seq<S>
    decreases n,
{
    if n == 0 {
        Seq::empty()
    } else {
        let head = delivered_sheets((n - 1) as nat, outcomes);
        match sheet_for(outcomes, n - 1) {
            Some(sheet) => head.push(sheet),
            None => head,
        }
    }
}

/// One diagnostic for each stylesheet request that ended without a
/// stylesheet, in the order of the requests.
pub open spec fn style_failures<S>(
    requests: Seq<DiscoveryRequestView>,
    outcomes: Seq<Result<S, FetchError>>,
) -> Seq<DiagnosticView>
    decreases requests.len(),
{
    if requests.len() == 0 {
        Seq::empty()
    } else {
        let head = style_failures(requests.drop_last(), outcomes);
        match sheet_for(outcomes, requests.len() - 1) {
            Some(_) => head,
            None => head.push(DiagnosticView::Load(requests.last()->StylesheetByUrl_0)),
        }
    }
}

/// The number of requests for a script by its URL.
pub open spec fn by_url_count(requests: Seq<DiscoveryRequestView>) -> nat
    decreases requests.len(),
{
    if requests.len() == 0 {
        0
    } else {
        by_url_count(requests.drop_last()) + if requests.last() is ScriptByUrl {
            1nat
        } else {
            0nat
        }
    }
}

/// How the `k`-th fetch of a script ends: as the `k`-th recorded outcome
/// says, or without a body where the record is shorter.
pub open spec fn body_for(
    outcomes: Seq<Result<(String, Vec<u8>), FetchError>>,
    k: int,
) -> ScriptBody {
    if 0 <= k < outcomes.len() {
        script_body(outcomes[k])
    } else {
        ScriptBody::Unfetched
    }
}

/// The slots that script requests leave when each fetch ends as recorded:
/// the `k`-th request by URL ends as the `k`-th outcome says.
pub open spec fn scripted_slots(
    requests: Seq<DiscoveryRequestView>,
    outcomes: Seq<Result<(String, Vec<u8>), FetchError>>,
) -> Seq<ScriptSlotView>
    decreases requests.len(),
{
    if requests.len() == 0 {
        Seq::empty()
    } else {
        let head = scripted_slots(requests.drop_last(), outcomes);
        match requests.last() {
            DiscoveryRequestView::ScriptByUrl(_) => head.push(
                settled_slot(body_for(outcomes, by_url_count(requests.drop_last()) as int)),
            ),
            DiscoveryRequestView::ScriptInline(data, url) => head.push(
                ScriptSlotView::Ready(JSFileView { data, url }),
            ),
            _ => head,
        }
    }
}

/// One diagnostic for each script request that ended without text, in the
/// order of the requests.
pub open spec fn script_failures(
    requests: Seq<DiscoveryRequestView>,
    outcomes: Seq<Result<(String, Vec<u8>), FetchError>>,
) -> Seq<DiagnosticView>
    decreases requests.len(),
{
    if requests.len() == 0 {
        Seq::empty()
    } else {
        let head = script_failures(requests.drop_last(), outcomes);
        match requests.last() {
            DiscoveryRequestView::ScriptByUrl(url) => noted(
                head,
                url,
                body_for(outcomes, by_url_count(requests.drop_last()) as int),
            ),
            _ => head,
        }
    }
}

/// What the aggregator holds when a parse has ended: the sub-documents in
/// the order of their discovery, then the stylesheets in the order of their
/// requests, then the one batch of scripts; and no producer is open.
pub open spec fn gathered<S>(
    s: SessionView,
    stylesheets: Seq<Result<S, FetchError>>,
    scripts: Seq<Result<(String, Vec<u8>), FetchError>>,
) -> AggregatorView<S> {
    AggregatorView {
        queue: frame_messages::<S>(s.frames) + style_messages(
            delivered_sheets(s.stylesheet_requests.len(), stylesheets),
        ) + seq![
            HtmlDiscoveryMessageView::HtmlDiscoveredScript(
                files(scripted_slots(s.script_requests, scripts)),
            ),
        ],
        bridge_open: false,
        stylesheet_worker_open: false,
        script_worker_open: false,
    }
}

/// The slots that `n` stylesheet requests leave when each ends as recorded.
pub open spec fn recorded_slots<S>(
    n: nat,
    outcomes: Seq<Result<S, FetchError>>,
) -> Seq<SlotView<S>> {
    Seq::new(
        n,
        |k: int|
            match sheet_for(outcomes, k) {
                Some(sheet) => SlotView::Ready(sheet),
                None => SlotView::Failed,
            },
    )
}

/// The stylesheets that a parse gathers are those of the slots that the
/// requests leave.
pub proof fn lemma_delivered_sheets<S>(n: nat, outcomes: Seq<Result<S, FetchError>>)
    ensures
        delivered_sheets(n, outcomes) == sheets(recorded_slots(n, outcomes)),
    decreases n,
{
    if n > 0 {
        lemma_delivered_sheets((n - 1) as nat, outcomes);
        assert(recorded_slots(n, outcomes).drop_last() =~= recorded_slots(
            (n - 1) as nat,
            outcomes,
        ));
    }
}

/// The stylesheets that a parse gathers do not depend on the order in which
/// the fetches complete. Take any run of requests and completions of a
/// stylesheet worker, interleaved in any way: if it leaves every request
/// ended as the record says, the worker has handed on exactly the
/// stylesheets that the parse from the record gathers, in the same order.
pub proof fn lemma_any_completion_order_delivers_the_same<S>(
    n: nat,
    outcomes: Seq<Result<S, FetchError>>,
    events: Seq<StyleEvent<S>>,
)
    requires
        run(fresh_worker::<S>(), events).slots == recorded_slots(n, outcomes),
    ensures
        run_output(fresh_worker::<S>(), events) == delivered_sheets(n, outcomes),
{
    lemma_settled_run_output(events);
    lemma_delivered_sheets(n, outcomes);
}

/// Where every stylesheet was had, a parse gathers one stylesheet for each
/// request, and the `k`-th is that of the `k`-th request.
pub proof fn lemma_all_stylesheets_delivered<S>(n: nat, outcomes: Seq<Result<S, FetchError>>)
    requires
        n <= outcomes.len(),
        forall|k: int| 0 <= k < n ==> #[trigger] outcomes[k] is Ok,
    ensures
        delivered_sheets(n, outcomes).len() == n,
        forall|k: int|
            0 <= k < n ==> #[trigger] delivered_sheets(n, outcomes)[k] == outcomes[k]->Ok_0,
    decreases n,
{
    if n > 0 {
        lemma_all_stylesheets_delivered((n - 1) as nat, outcomes);
        assert(outcomes[n - 1] is Ok);
    }
}

/// Script requests leave one slot each.
pub proof fn lemma_scripted_slots_len(
    requests: Seq<DiscoveryRequestView>,
    outcomes: Seq<Result<(String, Vec<u8>), FetchError>>,
)
    requires
        forall|k: int|
            0 <= k < requests.len() ==> (#[trigger] requests[k] is ScriptByUrl || requests[k]
                is ScriptInline),
    ensures
        scripted_slots(requests, outcomes).len() == requests.len(),
    decreases requests.len(),
{
    if requests.len() > 0 {
        let head = requests.drop_last();
        assert forall|k: int| 0 <= k < head.len() implies (#[trigger] head[k] is ScriptByUrl
            || head[k] is ScriptInline) by {
            assert(head[k] == requests[k]);
        }
        lemma_scripted_slots_len(head, outcomes);
        assert(requests.last() == requests[requests.len() - 1]);
    }
}

/// Where every script was had, the batch of a parse holds one script for
/// each script request, in the order of the requests.
pub proof fn lemma_all_scripts_in_batch(
    requests: Seq<DiscoveryRequestView>,
    outcomes: Seq<Result<(String, Vec<u8>), FetchError>>,
)
    requires
        forall|k: int|
            0 <= k < requests.len() ==> (#[trigger] requests[k] is ScriptByUrl || requests[k]
                is ScriptInline),
        forall|k: int|
            0 <= k < scripted_slots(requests, outcomes).len() ==> #[trigger] scripted_slots(
                requests,
                outcomes,
            )[k] is Ready,
    ensures
        files(scripted_slots(requests, outcomes)).len() == requests.len(),
        forall|k: int|
            0 <= k < requests.len() ==> #[trigger] files(scripted_slots(requests, outcomes))[k]
                == scripted_slots(requests, outcomes)[k]->Ready_0,
{
    lemma_scripted_slots_len(requests, outcomes);
    lemma_files_of_ready(scripted_slots(requests, outcomes));
}

/// A script that could not be had is missing from the batch of a parse and
/// nothing else is: the batch is that of the other slots, in their order.
pub proof fn lemma_failed_script_is_left_out(
    requests: Seq<DiscoveryRequestView>,
    outcomes: Seq<Result<(String, Vec<u8>), FetchError>>,
    i: int,
)
    requires
        0 <= i < scripted_slots(requests, outcomes).len(),
        scripted_slots(requests, outcomes)[i] is Dropped,
    ensures
        files(scripted_slots(requests, outcomes)) == files(
            scripted_slots(requests, outcomes).remove(i),
        ),
{
    lemma_files_skip_dropped(scripted_slots(requests, outcomes), i);
}

/// Announces the sub-documents of a parse to the aggregator, in their order.
fn announce_frames<S>(port: &mut Aggregator<S>, frames: &Vec<IFrameDiscovery>)
    requires
        old(port)@.bridge_open,
    ensures
        final(port)@ == (AggregatorView {
            queue: old(port)@.queue + frame_messages::<S>(frame_views(frames@)),
            ..old(port)@
        }),
{
    let ghost before = port@;
    let ghost all = frame_views(frames@);
    let mut k: usize = 0;
    proof {
        assert(before.queue + frame_messages::<S>(all.take(0)) =~= before.queue);
    }
    while k < frames.len()
        invariant
            k <= frames.len(),
            all == frame_views(frames@),
            before.bridge_open,
            port@ == (AggregatorView {
                queue: before.queue + frame_messages::<S>(all.take(k as int)),
                ..before
            }),
        decreases frames.len() - k,
    {
        let f = &frames[k];
        let copy = IFrameDiscovery {
            url: f.url.clone(),
            subpage_id: f.subpage_id,
            sandboxed: f.sandboxed,
        };
        port.send(Producer::Bridge, HtmlDiscoveryMessage::HtmlDiscoveredIFrame(copy));
        proof {
            assert(all.take(k + 1) =~= all.take(k as int).push(f@));
            assert(frame_messages::<S>(all.take(k + 1)) =~= frame_messages::<S>(
                all.take(k as int),
            ).push(HtmlDiscoveryMessageView::HtmlDiscoveredIFrame(f@)));
            assert(port@.queue =~= before.queue + frame_messages::<S>(all.take(k + 1)));
        }
        k = k + 1;
    }
    proof {
        assert(all.take(k as int) =~= all);
    }
}

/// Hands stylesheets to the aggregator, in their order.
fn forward_sheets<S>(port: &mut Aggregator<S>, ready: Vec<S>)
    requires
        old(port)@.stylesheet_worker_open,
    ensures
        final(port)@ == (AggregatorView {
            queue: old(port)@.queue + style_messages(ready@),
            ..old(port)@
        }),
{
    let ghost before = port@;
    let ghost all = ready@;
    let ghost mut sent: Seq<S> = Seq::empty();
    let mut rest = ready;
    proof {
        assert(before.queue + style_messages(sent) =~= before.queue);
        assert(sent + rest@ =~= all);
    }
    while rest.len() > 0
        invariant
            before.stylesheet_worker_open,
            sent + rest@ == all,
            port@ == (AggregatorView { queue: before.queue + style_messages(sent), ..before }),
        decreases rest.len(),
    {
        let ghost held = rest@;
        let sheet = rest.remove(0);
        port.send(Producer::StylesheetWorker, HtmlDiscoveryMessage::HtmlDiscoveredStyle(sheet));
        proof {
            let longer = sent.push(sheet);
            assert(style_messages(longer) =~= style_messages(sent).push(
                HtmlDiscoveryMessageView::HtmlDiscoveredStyle(sheet),
            ));
            assert(port@.queue =~= before.queue + style_messages(longer));
            assert(longer + rest@ =~= sent + held);
            sent = longer;
        }
    }
    proof {
        assert(sent =~= all);
    }
}

/// Runs the stylesheet worker over what a parse sent to it, stylesheet
/// requests and then Terminate, each request ending as the record says, and
/// hands what it flushes to the aggregator.
fn run_stylesheet_worker<S>(
    port: &mut Aggregator<S>,
    requests: &Vec<DiscoveryRequest>,
    outcomes: Vec<Result<S, FetchError>>,
) -> (noted: Vec<Diagnostic>)
    requires
        old(port)@.stylesheet_worker_open,
        requests@.len() > 0,
        forall|k: int|
            0 <= k < requests@.len() - 1 ==> #[trigger] request_views(requests@)[k]
                is StylesheetByUrl,
    ensures
        final(port)@ == (AggregatorView {
            queue: old(port)@.queue + style_messages(
                delivered_sheets((requests@.len() - 1) as nat, outcomes@),
            ),
            stylesheet_worker_open: false,
            ..old(port)@
        }),
        diagnostic_views(noted@) == style_failures(
            request_views(requests@).drop_last(),
            outcomes@,
        ),
{
    let ghost before = port@;
    let ghost all = outcomes@;
    let ghost reqs = request_views(requests@).drop_last();
    let n = requests.len() - 1;
    let mut worker: StylesheetWorker<S> = StylesheetWorker::new();
    let mut rest = outcomes;
    let mut k: usize = 0;
    proof {
        assert(before.queue + style_messages(delivered_sheets(0, all)) =~= before.queue);
        assert(reqs.take(0) =~= Seq::empty());
        assert(rest@ =~= all.skip(0));
    }
    while k < n
        invariant
            k <= n,
            n == requests.len() - 1,
            reqs == request_views(requests@).drop_last(),
            forall|j: int| 0 <= j < reqs.len() ==> #[trigger] reqs[j] is StylesheetByUrl,
            before.stylesheet_worker_open,
            worker.wf(),
            worker@.phase is Running,
            worker@.slots.len() == k,
            worker@.flushed == k,
            worker@.diagnostics == style_failures(reqs.take(k as int), all),
            port@ == (AggregatorView {
                queue: before.queue + style_messages(delivered_sheets(k as nat, all)),
                ..before
            }),
            k <= all.len() ==> rest@ == all.skip(k as int),
            k > all.len() ==> rest@.len() == 0,
        decreases n - k,
    {
        let ghost w0 = worker@;
        proof {
            worker.lemma_wf();
            lemma_settled_prefix_is_settled(w0.slots);
            assert(reqs[k as int] == request_views(requests@)[k as int]);
            assert(reqs[k as int] == requests@[k as int]@);
            assert(reqs[k as int] is StylesheetByUrl);
        }
        match &requests[k] {
            DiscoveryRequest::StylesheetByUrl(url) => {
                worker.request(url.as_str());
                let ghost w1 = worker@;
                let outcome = if rest.len() > 0 {
                    rest.remove(0)
                } else {
                    Err(FetchError)
                };
                proof {
                    assert(outcome_sheet(outcome) == sheet_for(all, k as int));
                    assert(w1.slots =~= w0.slots.push(SlotView::Pending(url@)));
                }
                let ready = worker.complete(k as u64, outcome);
                proof {
                    let w2 = worker@;
                    assert forall|j: int| 0 <= j < k + 1 implies !(#[trigger] w2.slots[j]
                        is Pending) by {
                        if j < k {
                            assert(w2.slots[j] == w0.slots[j]);
                        }
                    }
                    lemma_settled_prefix(w2.slots, k + 1);
                    let piece = w2.slots.subrange(k as int, k + 1);
                    assert(piece.drop_last() =~= Seq::empty());
                    assert(piece.last() == w2.slots[k as int]);
                    assert(sheets(piece.drop_last()) =~= Seq::empty());
                    let taken = reqs.take(k + 1);
                    assert(taken.drop_last() =~= reqs.take(k as int));
                    assert(taken.last() == reqs[k as int]);
                    assert(ready@ =~= match sheet_for(all, k as int) {
                        Some(sheet) => seq![sheet],
                        None => Seq::empty(),
                    });
                    assert(delivered_sheets((k + 1) as nat, all) =~= delivered_sheets(
                        k as nat,
                        all,
                    ) + ready@);
                    assert(style_messages(delivered_sheets((k + 1) as nat, all))
                        =~= style_messages(delivered_sheets(k as nat, all)) + style_messages(
                        ready@,
                    ));
                }
                forward_sheets(port, ready);
                proof {
                    assert(port@.queue =~= before.queue + style_messages(
                        delivered_sheets((k + 1) as nat, all),
                    ));
                    if k < all.len() {
                        assert(rest@ =~= all.skip(k + 1));
                    }
                }
            },
            _ => {},
        }
        k = k + 1;
    }
    worker.terminate();
    port.finish(Producer::StylesheetWorker);
    proof {
        assert(reqs.take(k as int) =~= reqs);
    }
    worker.into_diagnostics()
}

/// A copy of a request.
fn copy_request(request: &DiscoveryRequest) -> (r: DiscoveryRequest)
    ensures
        r@ == request@,
{
    match request {
        DiscoveryRequest::StylesheetByUrl(url) => DiscoveryRequest::StylesheetByUrl(url.clone()),
        DiscoveryRequest::ScriptByUrl(url) => DiscoveryRequest::ScriptByUrl(url.clone()),
        DiscoveryRequest::ScriptInline(data, url) => DiscoveryRequest::ScriptInline(
            data.clone(),
            url.clone(),
        ),
        DiscoveryRequest::Terminate => DiscoveryRequest::Terminate,
    }
}

/// Runs the script worker over what a parse sent to it, script requests
/// and then Terminate, each fetch ending as the record says, and hands its
/// batch to the aggregator.
fn run_script_worker<S>(
    port: &mut Aggregator<S>,
    requests: &Vec<DiscoveryRequest>,
    outcomes: Vec<Result<(String, Vec<u8>), FetchError>>,
) -> (noted: Vec<Diagnostic>)
    requires
        old(port)@.script_worker_open,
        requests@.len() > 0,
        request_views(requests@).last() is Terminate,
        forall|k: int|
            0 <= k < requests@.len() - 1 ==> (#[trigger] request_views(requests@)[k] is ScriptByUrl
                || request_views(requests@)[k] is ScriptInline),
    ensures
        final(port)@ == (AggregatorView {
            queue: old(port)@.queue.push(
                HtmlDiscoveryMessageView::HtmlDiscoveredScript(
                    files(scripted_slots(request_views(requests@).drop_last(), outcomes@)),
                ),
            ),
            script_worker_open: false,
            ..old(port)@
        }),
        diagnostic_views(noted@) == script_failures(
            request_views(requests@).drop_last(),
            outcomes@,
        ),
{
    let ghost all = outcomes@;
    let ghost reqs = request_views(requests@).drop_last();
    let n = requests.len() - 1;
    let mut worker = ScriptWorker::new();
    let mut rest = outcomes;
    let mut k: usize = 0;
    proof {
        assert(reqs.take(0) =~= Seq::empty());
        assert(rest@ =~= all.skip(0));
    }
    while k < n
        invariant
            k <= n,
            n == requests.len() - 1,
            reqs == request_views(requests@).drop_last(),
            forall|j: int|
                0 <= j < reqs.len() ==> (#[trigger] reqs[j] is ScriptByUrl || reqs[j]
                    is ScriptInline),
            worker.wf(),
            worker@.phase is Running,
            worker@.slots == scripted_slots(reqs.take(k as int), all),
            worker@.slots.len() == k,
            pending_count(worker@.slots) == 0,
            worker@.diagnostics == script_failures(reqs.take(k as int), all),
            by_url_count(reqs.take(k as int)) <= all.len() ==> rest@ == all.skip(
                by_url_count(reqs.take(k as int)) as int,
            ),
            by_url_count(reqs.take(k as int)) > all.len() ==> rest@.len() == 0,
        decreases n - k,
    {
        let ghost w0 = worker@;
        let ghost used = by_url_count(reqs.take(k as int));
        proof {
            assert(reqs[k as int] == request_views(requests@)[k as int]);
            assert(reqs[k as int] == requests@[k as int]@);
            let taken = reqs.take(k + 1);
            assert(taken.drop_last() =~= reqs.take(k as int));
            assert(taken.last() == reqs[k as int]);
        }
        let action = worker.handle(copy_request(&requests[k]));
        let ghost w1 = worker@;
        proof {
            assert(w1.slots.len() == k + 1);
            assert(w1.slots.drop_last() =~= w0.slots);
        }
        match action {
            ScriptAction::Fetch(seq, _) => {
                let outcome = if rest.len() > 0 {
                    rest.remove(0)
                } else {
                    Err(FetchError)
                };
                proof {
                    assert(reqs[k as int] is ScriptByUrl);
                    assert(seq == k);
                    assert(script_body(outcome) == body_for(all, used as int));
                    lemma_pending_count_update(
                        w1.slots,
                        k as int,
                        settled_slot(script_body(outcome)),
                    );
                }
                worker.fetched(seq, outcome);
                proof {
                    assert(worker@.slots =~= w0.slots.push(
                        settled_slot(body_for(all, used as int)),
                    ));
                    if used < all.len() {
                        assert(rest@ =~= all.skip((used + 1) as int));
                    }
                }
            },
            _ => {
                proof {
                    assert(reqs[k as int] is ScriptInline);
                }
            },
        }
        k = k + 1;
    }
    proof {
        assert(reqs.take(k as int) =~= reqs);
        assert(request_views(requests@).last() == requests@[n as int]@);
    }
    let last = worker.handle(copy_request(&requests[n]));
    match last {
        ScriptAction::Emit(batch) => {
            port.send(Producer::ScriptWorker, HtmlDiscoveryMessage::HtmlDiscoveredScript(batch));
        },
        _ => {},
    }
    port.finish(Producer::ScriptWorker);
    worker.into_diagnostics()
}

/// Parses one document from a recorded load.
///
/// `response` is the answer to the request for `url`. `stylesheets` and
/// `scripts` record how the fetches of the resources end: the `k`-th
/// stylesheet request ends with the `k`-th entry of `stylesheets`, the
/// `k`-th request for a script by its URL with the `k`-th entry of
/// `scripts`; a request beyond the end of its record fails.
///
/// Where the request for the document failed, there is no tree and no
/// discovery: the error names `url`. Otherwise the tree events of the
/// chunks go through the bridge up to the message that ends the load, both
/// workers get Terminate, and the aggregator holds everything that was
/// discovered. A load that did not end well leaves the tree as far as it
/// was built, with an error that names the final URL.
pub fn parse_html<S>(
    page: &Page,
    url: &str,
    response: Result<LoadResponse, FetchError>,
    stylesheets: Vec<Result<S, FetchError>>,
    scripts: Vec<Result<(String, Vec<u8>), FetchError>>,
) -> (r: Result<HtmlParserResult<S>, LoadError>)
    ensures
        match response {
            Err(_) => r matches Err(e) && e.url@ == url@,
            Ok(load) => r matches Ok(out) && ({
                let s = replayed(
                    initial_session(load.final_url@, *page),
                    fed(progress_views(load.progress@)),
                );
                &&& out.document.wf()
                &&& out.document@ == s.document
                &&& out.discovery_port@ == gathered(s, stylesheets@, scripts@)
                &&& diagnostic_views(out.diagnostics@) == s.diagnostics + style_failures(
                    s.stylesheet_requests,
                    stylesheets@,
                ) + script_failures(s.script_requests, scripts@)
                &&& opt_url(out.load_error) == if ended_well(progress_views(load.progress@)) {
                    None
                } else {
                    Some(load.final_url@)
                }
                &&& out.next_subpage_id.0 == s.next_subpage_id
            }),
        },
{
    let load = match response {
        Ok(load) => load,
        Err(_) => {
            return Err(LoadError { url: String::from_str(url) });
        },
    };
    let final_url = load.final_url;
    let progress = load.progress;
    let ghost all = progress_views(progress@);
    let ghost s0 = initial_session(final_url@, *page);
    let started = ParseSession::start(url, Ok(final_url), page.id, page.next_subpage_id);
    let mut session = match started {
        Ok(session) => session,
        Err(e) => {
            return Err(e);
        },
    };
    let mut k: usize = 0;
    let mut ended = false;
    let mut well = false;
    let ghost mut acc: Seq<TreeEventView> = Seq::empty();
    proof {
        assert(all.skip(0) =~= all);
        assert(acc + fed(all) =~= fed(all));
    }
    while k < progress.len() && !ended
        invariant
            k <= progress.len(),
            all == progress_views(progress@),
            session.wf(),
            session@ == replayed(s0, acc),
            !ended ==> fed(all) == acc + fed(all.skip(k as int)),
            !ended ==> ended_well(all) == ended_well(all.skip(k as int)),
            ended ==> fed(all) == acc && ended_well(all) == well,
        decreases progress.len() - k,
    {
        let ghost tail = all.skip(k as int);
        proof {
            assert(tail[0] == progress@[k as int]@);
            assert(tail.drop_first() =~= all.skip(k + 1));
        }
        match &progress[k] {
            ProgressMsg::Payload(events) => {
                session.replay(events);
                proof {
                    lemma_replayed_concat(s0, acc, event_views(events@));
                    assert(acc + (event_views(events@) + fed(all.skip(k + 1))) =~= (acc
                        + event_views(events@)) + fed(all.skip(k + 1)));
                    acc = acc + event_views(events@);
                }
            },
            ProgressMsg::Done(status) => {
                ended = true;
                well = status.is_ok();
                proof {
                    assert(acc + Seq::<TreeEventView>::empty() =~= acc);
                }
            },
        }
        k = k + 1;
    }
    proof {
        if !ended {
            assert(all.skip(k as int) =~= Seq::empty());
            assert(acc + Seq::<TreeEventView>::empty() =~= acc);
        }
        session.lemma_wf();
        lemma_replayed_keeps_base(s0, acc);
    }
    let ghost s = session@;
    let status = if ended && well {
        Ok(())
    } else {
        Err(FetchError)
    };
    let out = session.finish(status);
    proof {
        let sent = request_views(out.stylesheet_requests@);
        assert(sent.drop_last() =~= s.stylesheet_requests);
        assert forall|j: int| 0 <= j < sent.len() - 1 implies #[trigger] sent[j]
            is StylesheetByUrl by {
            assert(sent[j] == s.stylesheet_requests[j]);
        }
        let asked = request_views(out.script_requests@);
        assert(asked.drop_last() =~= s.script_requests);
        assert forall|j: int| 0 <= j < asked.len() - 1 implies (#[trigger] asked[j] is ScriptByUrl
            || asked[j] is ScriptInline) by {
            assert(asked[j] == s.script_requests[j]);
        }
    }
    let mut port: Aggregator<S> = Aggregator::new();
    announce_frames(&mut port, &out.frames);
    port.finish(Producer::Bridge);
    let mut style_noted = run_stylesheet_worker(&mut port, &out.stylesheet_requests, stylesheets);
    let mut script_noted = run_script_worker(&mut port, &out.script_requests, scripts);
    let mut diagnostics = out.diagnostics;
    let ghost d0 = diagnostics@;
    let ghost d1 = style_noted@;
    let ghost d2 = script_noted@;
    diagnostics.append(&mut style_noted);
    diagnostics.append(&mut script_noted);
    proof {
        assert(diagnostics@ =~= d0 + d1 + d2);
        assert(diagnostic_views(diagnostics@) =~= diagnostic_views(d0) + diagnostic_views(d1)
            + diagnostic_views(d2));
        let s = replayed(s0, fed(all));
        assert(port@.queue =~= gathered(s, stylesheets@, scripts@).queue);
    }
    Ok(
        HtmlParserResult {
            document: out.document,
            discovery_port: port,
            diagnostics,
            load_error: out.load_error,
            next_subpage_id: out.next_subpage_id,
        },
    )
}

} // verus!
