//! What the script runtime decides around its JavaScript engine: the steps
//! that set a runtime up, the memory reports of a runtime, and the
//! bookkeeping of garbage-collection timing.

use vstd::prelude::*;

verus! {

/// The kinds of event that a script thread handles.
#[derive(Clone, Copy, Debug, PartialEq, Eq, Hash)]
pub enum ScriptThreadEventCategory {
    AttachLayout,
    ConstellationMsg,
    DevtoolsMsg,
    DocumentEvent,
    DomEvent,
    FileRead,
    FormPlannedNavigation,
    ImageCacheMsg,
    InputEvent,
    NetworkEvent,
    Resize,
    ScriptEvent,
    SetViewport,
    StylesheetLoad,
    TimerEvent,
    UpdateReplacedElement,
    WebSocketEvent,
    WorkerEvent,
}

/// What an extra tracer of garbage-collection roots traces.
#[derive(Clone, Copy, Debug, PartialEq, Eq, Structural)]
pub enum RootsTracer {
    /// The roots that the threads, the traceables and the stack hold.
    RustRoots,
    /// The objects that are kept alive by counted references.
    RefcountedObjects,
}

/// One step in the setting up of a runtime.
#[derive(Clone, Copy, Debug, PartialEq, Eq, Structural)]
pub enum RuntimeStep {
    InitializeLiveReferences,
    CreateRuntime,
    AddExtraGCRootsTracer(RootsTracer),
    SetGCCallback,
    SetGCSliceCallback,
    SetDOMCallbacks,
    SetPreserveWrapperCallback,
    DisableIncrementalGC,
}

/// The steps that set a runtime up, in their order. The callback that
/// tracks whether a collection is running goes in only where debug
/// assertions are on, the callback that times the slices only where the
/// collector is profiled.
pub open spec fn setup_steps(debug_assertions: bool, gc_profile: bool) -> Seq<RuntimeStep> {
    seq![
        RuntimeStep::InitializeLiveReferences,
        RuntimeStep::CreateRuntime,
        RuntimeStep::AddExtraGCRootsTracer(RootsTracer::RustRoots),
        RuntimeStep::AddExtraGCRootsTracer(RootsTracer::RefcountedObjects),
    ] + (if debug_assertions {
        seq![RuntimeStep::SetGCCallback]
    } else {
        Seq::empty()
    }) + (if gc_profile {
        seq![RuntimeStep::SetGCSliceCallback]
    } else {
        Seq::empty()
    }) + seq![
        RuntimeStep::SetDOMCallbacks,
        RuntimeStep::SetPreserveWrapperCallback,
        RuntimeStep::DisableIncrementalGC,
    ]
}

/// The steps that set a runtime up, in their order.
pub fn runtime_setup(debug_assertions: bool, gc_profile: bool) -> (steps: Vec<RuntimeStep>)
    ensures
        steps@ == setup_steps(debug_assertions, gc_profile),
{
    let mut steps: Vec<RuntimeStep> = Vec::new();
    steps.push(RuntimeStep::InitializeLiveReferences);
    steps.push(RuntimeStep::CreateRuntime);
    steps.push(RuntimeStep::AddExtraGCRootsTracer(RootsTracer::RustRoots));
    steps.push(RuntimeStep::AddExtraGCRootsTracer(RootsTracer::RefcountedObjects));
    if debug_assertions {
        steps.push(RuntimeStep::SetGCCallback);
    }
    if gc_profile {
        steps.push(RuntimeStep::SetGCSliceCallback);
    }
    steps.push(RuntimeStep::SetDOMCallbacks);
    steps.push(RuntimeStep::SetPreserveWrapperCallback);
    steps.push(RuntimeStep::DisableIncrementalGC);
    assert(steps@ =~= setup_steps(debug_assertions, gc_profile));
    steps
}

/// Where the memory of a report lies.
#[derive(Clone, Copy, Debug, PartialEq, Eq, Structural)]
pub enum ReportKind {
    ExplicitJemallocHeapSize,
    ExplicitSystemHeapSize,
    ExplicitNonHeapSize,
    ExplicitUnknownLocationSize,
    NonExplicitSize,
}

/// One measurement of memory: where in the tree of reports it stands, where
/// its memory lies, and its size in bytes.
#[derive(Clone, Debug, PartialEq, Eq)]
pub struct Report {
    pub path: Vec<String>,
    pub kind: ReportKind,
    pub size: usize,
}

/// What a `Report` holds, as mathematical values.
pub struct ReportView {
    pub path: Seq<Seq<char>>,
    pub kind: ReportKind,
    pub size: usize,
}

impl View for Report {
    type V = ReportView;

    open spec fn view(&self) -> ReportView {
        ReportView {
            path: self.path@.map_values(|s: String| s@),
            kind: self.kind,
            size: self.size,
        }
    }
}

/// What a list of reports holds, as mathematical values.
pub open spec fn report_views(reports: Seq<Report>) -> Seq<ReportView> {
    reports.map_values(|r: Report| r@)
}

/// The sizes that the engine measures of a runtime, in bytes.
#[derive(Clone, Copy, Debug, PartialEq, Eq, Structural)]
pub struct ServoSizes {
    pub gc_heap_used: usize,
    pub gc_heap_unused: usize,
    pub gc_heap_admin: usize,
    pub gc_heap_decommitted: usize,
    pub malloc_heap: usize,
    pub non_heap: usize,
}

/// The report of one size: its path is `seg`, `js` and the suffix.
pub open spec fn report_of(
    seg: Seq<char>,
    suffix: Seq<Seq<char>>,
    kind: ReportKind,
    size: usize,
) -> ReportView {
    ReportView { path: seq![seg, "js"@] + suffix, kind, size }
}

/// The reports of a runtime under the path segment `seg`: none where the
/// engine could not measure; otherwise the four parts of the collected
/// heap, which is mapped memory and so no heap memory, then the engine's
/// own heap, which is the system's, then what lies outside any heap.
pub open spec fn reports_of(stats: Option<ServoSizes>, seg: Seq<char>) -> Seq<ReportView> {
    match stats {
        None => Seq::empty(),
        Some(sizes) => seq![
            report_of(
                seg,
                seq!["gc-heap"@, "used"@],
                ReportKind::ExplicitNonHeapSize,
                sizes.gc_heap_used,
            ),
            report_of(
                seg,
                seq!["gc-heap"@, "unused"@],
                ReportKind::ExplicitNonHeapSize,
                sizes.gc_heap_unused,
            ),
            report_of(
                seg,
                seq!["gc-heap"@, "admin"@],
                ReportKind::ExplicitNonHeapSize,
                sizes.gc_heap_admin,
            ),
            report_of(
                seg,
                seq!["gc-heap"@, "decommitted"@],
                ReportKind::ExplicitNonHeapSize,
                sizes.gc_heap_decommitted,
            ),
            report_of(
                seg,
                seq!["malloc-heap"@],
                ReportKind::ExplicitSystemHeapSize,
                sizes.malloc_heap,
            ),
            report_of(seg, seq!["non-heap"@], ReportKind::ExplicitNonHeapSize, sizes.non_heap),
        ],
    }
}

/// A report whose path is `seg`, `js`, `first` and, if there is one, `second`.
fn report(seg: &str, first: &str, second: Option<&str>, kind: ReportKind, size: usize) -> (r:
    Report)
    ensures
        r@ == report_of(
            seg@,
            match second {
                Some(s) => seq![first@, s@],
                None => seq![first@],
            },
            kind,
            size,
        ),
{
    let mut path: Vec<String> = Vec::new();
    path.push(String::from_str(seg));
    path.push(String::from_str("js"));
    path.push(String::from_str(first));
    match second {
        Some(s) => {
            path.push(String::from_str(s));
        },
        None => {},
    }
    let r = Report { path, kind, size };
    assert(r@.path =~= seq![seg@, "js"@] + match second {
        Some(s) => seq![first@, s@],
        None => seq![first@],
    });
    r
}

/// The memory reports of a runtime, from the sizes that the engine
/// measured, if it could measure.
pub fn get_reports(stats: Option<ServoSizes>, path_seg: String) -> (reports: Vec<Report>)
    ensures
        report_views(reports@) == reports_of(stats, path_seg@),
{
    let mut reports: Vec<Report> = Vec::new();
    match stats {
        None => {},
        Some(sizes) => {
            let seg = path_seg.as_str();
            let non_heap = ReportKind::ExplicitNonHeapSize;
            reports.push(report(seg, "gc-heap", Some("used"), non_heap, sizes.gc_heap_used));
            reports.push(report(seg, "gc-heap", Some("unused"), non_heap, sizes.gc_heap_unused));
            reports.push(report(seg, "gc-heap", Some("admin"), non_heap, sizes.gc_heap_admin));
            reports.push(
                report(seg, "gc-heap", Some("decommitted"), non_heap, sizes.gc_heap_decommitted),
            );
            reports.push(
                report(
                    seg,
                    "malloc-heap",
                    None,
                    ReportKind::ExplicitSystemHeapSize,
                    sizes.malloc_heap,
                ),
            );
            reports.push(report(seg, "non-heap", None, non_heap, sizes.non_heap));
        },
    }
    assert(report_views(reports@) =~= reports_of(stats, path_seg@));
    reports
}

/// How far a garbage collection has come.
#[derive(Clone, Copy, Debug, PartialEq, Eq, Structural)]
pub enum GCProgress {
    CycleBegin,
    SliceBegin,
    SliceEnd,
    CycleEnd,
}

/// What there is to say of a step of a garbage collection. A step that ends
/// a cycle or a slice says when it had begun and when it ended.
#[derive(Clone, Copy, Debug, PartialEq, Eq)]
pub enum GcNote<T> {
    CycleBegan,
    SliceBegan,
    SliceEnded { began: T, ended: T },
    CycleEnded { began: T, ended: T },
}

/// When the running cycle and the running slice of a garbage collection
/// began. `T` is a point in time.
pub struct GcClock<T> {
    pub cycle_start: Option<T>,
    pub slice_start: Option<T>,
}

impl<T> GcClock<T> {
    /// A clock of a collector that is at rest.
    pub fn new() -> (clock: GcClock<T>)
        ensures
            clock.cycle_start is None,
            clock.slice_start is None,
    {
        GcClock { cycle_start: None, slice_start: None }
    }

    /// The clock can take this step: the end of a cycle or of a slice needs
    /// its beginning.
    pub open spec fn expects(&self, progress: GCProgress) -> bool {
        match progress {
            GCProgress::SliceEnd => self.slice_start is Some,
            GCProgress::CycleEnd => self.cycle_start is Some,
            _ => true,
        }
    }

    /// Whether the clock can take this step.
    pub fn can_take(&self, progress: GCProgress) -> (r: bool)
        ensures
            r == self.expects(progress),
    {
        match progress {
            GCProgress::SliceEnd => self.slice_start.is_some(),
            GCProgress::CycleEnd => self.cycle_start.is_some(),
            _ => true,
        }
    }

    /// Takes a step of the collection at the time `now`. A beginning is
    /// kept until its end; an end hands out the beginning, which is then
    /// forgotten, and its own time.
    pub fn on_progress(&mut self, progress: GCProgress, now: T) -> (note: GcNote<T>)
        requires
            old(self).expects(progress),
        ensures
            match progress {
                GCProgress::CycleBegin => note == GcNote::<T>::CycleBegan && final(self).cycle_start
                    == Some(now) && final(self).slice_start == old(self).slice_start,
                GCProgress::SliceBegin => note == GcNote::<T>::SliceBegan && final(self).slice_start
                    == Some(now) && final(self).cycle_start == old(self).cycle_start,
                GCProgress::SliceEnd => note matches GcNote::SliceEnded { began, ended } && Some(
                    began,
                ) == old(self).slice_start && ended == now && final(self).slice_start is None
                    && final(self).cycle_start == old(self).cycle_start,
                GCProgress::CycleEnd => note matches GcNote::CycleEnded { began, ended } && Some(
                    began,
                ) == old(self).cycle_start && ended == now && final(self).cycle_start is None
                    && final(self).slice_start == old(self).slice_start,
            },
    {
        match progress {
            GCProgress::CycleBegin => {
                self.cycle_start = Some(now);
                GcNote::CycleBegan
            },
            GCProgress::SliceBegin => {
                self.slice_start = Some(now);
                GcNote::SliceBegan
            },
            GCProgress::SliceEnd => {
                let start = self.slice_start.take();
                GcNote::SliceEnded { began: start.unwrap(), ended: now }
            },
            GCProgress::CycleEnd => {
                let start = self.cycle_start.take();
                GcNote::CycleEnded { began: start.unwrap(), ended: now }
            },
        }
    }
}

/// How a garbage collection was called for.
#[derive(Clone, Copy, Debug, PartialEq, Eq, Structural)]
pub enum JSGCInvocationKind {
    Normal,
    Shrink,
}

/// The name under which the kind of a collection is printed.
pub fn invocation_kind_name(kind: JSGCInvocationKind) -> (name: &'static str)
    ensures
        name@ == match kind {
            JSGCInvocationKind::Normal => "GC_NORMAL"@,
            JSGCInvocationKind::Shrink => "GC_SHRINK"@,
        },
{
    match kind {
        JSGCInvocationKind::Normal => "GC_NORMAL",
        JSGCInvocationKind::Shrink => "GC_SHRINK",
    }
}

/// What the engine says of a collection when it reports a step.
#[derive(Clone, Copy, Debug, PartialEq, Eq, Structural)]
pub struct GCDescription {
    pub is_compartment: bool,
    pub invocation_kind: JSGCInvocationKind,
}

/// The number of nanoseconds in a second.
pub const NANOS_PER_SEC: i32 = 1_000_000_000;

/// The longest span of time that can be told, in seconds either way.
pub const SPAN_LIMIT_SECS: i64 = 9_223_372_036_854_775;

/// A point in time: the seconds since the beginning of 1970, and the
/// nanoseconds from the beginning of that second.
#[derive(Clone, Copy, Debug, PartialEq, Eq, Structural)]
pub struct Timespec {
    pub sec: i64,
    pub nsec: i32,
}

impl Timespec {
    /// The nanoseconds lie within one second.
    pub open spec fn wf(self) -> bool {
        0 <= self.nsec < NANOS_PER_SEC
    }
}

/// A span of time: whole seconds, which may be negative, and the
/// nanoseconds on top of them, which lie within one second.
#[derive(Clone, Copy, Debug, PartialEq, Eq, Structural)]
pub struct Span {
    pub secs: i64,
    pub nanos: i32,
}

/// The whole seconds of the span from `earlier` to `later`, rounded down.
pub open spec fn span_secs(later: Timespec, earlier: Timespec) -> int {
    later.sec - earlier.sec - if later.nsec < earlier.nsec {
        1int
    } else {
        0int
    }
}

/// The nanoseconds of the span from `earlier` to `later` on top of its
/// whole seconds.
pub open spec fn span_nanos(later: Timespec, earlier: Timespec) -> int {
    later.nsec - earlier.nsec + if later.nsec < earlier.nsec {
        NANOS_PER_SEC as int
    } else {
        0int
    }
}

/// The span from `earlier` to `later` can be told: both are points in time
/// and the span is within the limit.
pub open spec fn span_tellable(later: Timespec, earlier: Timespec) -> bool {
    &&& later.wf()
    &&& earlier.wf()
    &&& -SPAN_LIMIT_SECS <= span_secs(later, earlier) <= SPAN_LIMIT_SECS
}

/// The span from `earlier` to `later`, if it can be told.
pub fn span_between(later: Timespec, earlier: Timespec) -> (span: Option<Span>)
    ensures
        span is Some <==> span_tellable(later, earlier),
        span matches Some(s) ==> s.secs == span_secs(later, earlier) && s.nanos == span_nanos(
            later,
            earlier,
        ),
{
    if later.nsec < 0 || later.nsec >= NANOS_PER_SEC || earlier.nsec < 0 || earlier.nsec
        >= NANOS_PER_SEC {
        return None;
    }
    let mut secs: i128 = later.sec as i128 - earlier.sec as i128;
    let mut nanos: i32 = later.nsec - earlier.nsec;
    if nanos < 0 {
        nanos = nanos + NANOS_PER_SEC;
        secs = secs - 1;
    }
    if secs < -(SPAN_LIMIT_SECS as i128) || secs > SPAN_LIMIT_SECS as i128 {
        return None;
    }
    Some(Span { secs: secs as i64, nanos })
}

/// The text of the span of `secs` seconds and `nanos` nanoseconds, as the
/// `time` crate writes a duration.
pub uninterp spec fn duration_text(secs: int, nanos: int) -> Seq<char>;

/// The time that it is.
///
/// Trusted: the body calls `time::get_time`, which reads the clock of the
/// machine and builds its result with `Timespec::new`, which holds the
/// nanoseconds to one second. The contract claims that and nothing else.
#[verifier::external_body]
fn now() -> (t: Timespec)
    ensures
        t.wf(),
{
    let t = time::get_time();
    Timespec { sec: t.sec, nsec: t.nsec }
}

/// A span of time as text.
///
/// Trusted: the body makes the duration with `time::Duration::seconds` and
/// `time::Duration::nanoseconds`, adds the two and formats the sum with the
/// `Display` of `time::Duration`. The text depends on the two numbers
/// alone; the contract gives it the name `duration_text` and claims nothing
/// else of it. Outside the limit `Duration::seconds` does not return.
#[verifier::external_body]
fn span_text(secs: i64, nanos: i32) -> (text: String)
    requires
        -SPAN_LIMIT_SECS <= secs <= SPAN_LIMIT_SECS,
        0 <= nanos < NANOS_PER_SEC,
    ensures
        text@ == duration_text(secs as int, nanos as int),
{
    format!("{}", time::Duration::seconds(secs) + time::Duration::nanoseconds(nanos as i64))
}

/// The line that tells of a step of a collection. For the end of a cycle
/// or of a slice, `span` is how long it took, as text.
pub open spec fn progress_line(progress: GCProgress, span: Seq<char>) -> Seq<char> {
    match progress {
        GCProgress::CycleBegin => "GC cycle began"@,
        GCProgress::SliceBegin => "GC slice began"@,
        GCProgress::SliceEnd => "GC slice ended: duration="@ + span,
        GCProgress::CycleEnd => "GC cycle ended: duration="@ + span,
    }
}

/// The line that tells of a collection.
pub open spec fn description_line(desc: GCDescription) -> Seq<char> {
    "  isCompartment="@ + (if desc.is_compartment {
        "true"@
    } else {
        "false"@
    }) + ", invocationKind="@ + (match desc.invocation_kind {
        JSGCInvocationKind::Normal => "GC_NORMAL"@,
        JSGCInvocationKind::Shrink => "GC_SHRINK"@,
    })
}

/// The line that tells of a step of a collection, given how long the cycle
/// or the slice took that the step ends.
pub fn progress_text(progress: GCProgress, span: &str) -> (line: String)
    ensures
        line@ == progress_line(progress, span@),
{
    match progress {
        GCProgress::CycleBegin => String::from_str("GC cycle began"),
        GCProgress::SliceBegin => String::from_str("GC slice began"),
        GCProgress::SliceEnd => String::from_str("GC slice ended: duration=").concat(span),
        GCProgress::CycleEnd => String::from_str("GC cycle ended: duration=").concat(span),
    }
}

/// The line that tells of a collection.
pub fn description_text(desc: GCDescription) -> (line: String)
    ensures
        line@ == description_line(desc),
{
    let flag = if desc.is_compartment {
        "true"
    } else {
        "false"
    };
    String::from_str("  isCompartment=").concat(flag).concat(", invocationKind=").concat(
        invocation_kind_name(desc.invocation_kind),
    )
}

/// The clock after a step at the time `now`: a beginning is kept, an end
/// forgets its beginning.
pub open spec fn stepped(clock: GcClock<Timespec>, progress: GCProgress, now: Timespec) -> GcClock<
    Timespec,
> {
    match progress {
        GCProgress::CycleBegin => GcClock { cycle_start: Some(now), ..clock },
        GCProgress::SliceBegin => GcClock { slice_start: Some(now), ..clock },
        GCProgress::SliceEnd => GcClock { slice_start: None, ..clock },
        GCProgress::CycleEnd => GcClock { cycle_start: None, ..clock },
    }
}

/// The beginning of what a step ends, if the step ends something.
pub open spec fn beginning(clock: GcClock<Timespec>, progress: GCProgress) -> Option<Timespec> {
    match progress {
        GCProgress::SliceEnd => clock.slice_start,
        GCProgress::CycleEnd => clock.cycle_start,
        _ => None,
    }
}

/// The lines that tell of a step: one for the step, and one for the
/// collection if the engine described it.
pub open spec fn report_lines(
    progress: GCProgress,
    span: Seq<char>,
    desc: Option<GCDescription>,
) -> Seq<Seq<char>> {
    match desc {
        Some(d) => seq![progress_line(progress, span), description_line(d)],
        None => seq![progress_line(progress, span)],
    }
}

/// The characters of the lines of a report that may be absent.
pub open spec fn lines_view(lines: Option<Vec<String>>) -> Option<Seq<Seq<char>>> {
    match lines {
        Some(v) => Some(v@.map_values(|line: String| line@)),
        None => None,
    }
}

/// What a step at the time `now` does to a clock and what it reports. A
/// step that ends a cycle or a slice whose span cannot be told reports
/// nothing and leaves the clock as it is. Any other step moves the clock
/// and reports its lines; the line of an end tells the span from the
/// beginning to `now`.
pub open spec fn step_reported(
    before: GcClock<Timespec>,
    progress: GCProgress,
    desc: Option<GCDescription>,
    now: Timespec,
    after: GcClock<Timespec>,
    lines: Option<Seq<Seq<char>>>,
) -> bool {
    match beginning(before, progress) {
        Some(began) => if span_tellable(now, began) {
            &&& after == stepped(before, progress, now)
            &&& lines == Some(
                report_lines(
                    progress,
                    duration_text(span_secs(now, began), span_nanos(now, began)),
                    desc,
                ),
            )
        } else {
            after == before && lines is None
        },
        None => {
            &&& after == stepped(before, progress, now)
            &&& lines == Some(report_lines(progress, Seq::empty(), desc))
        },
    }
}

/// Takes a step of a collection at the time `now` and gives the lines to
/// print: one for the step, which for an end says how long the cycle or the
/// slice took, and one for the collection if the engine described it. An
/// end whose span cannot be told gives nothing and changes nothing.
pub fn gc_slice_report(
    clock: &mut GcClock<Timespec>,
    progress: GCProgress,
    desc: Option<GCDescription>,
    now: Timespec,
) -> (lines: Option<Vec<String>>)
    requires
        old(clock).expects(progress),
    ensures
        step_reported(*old(clock), progress, desc, now, *final(clock), lines_view(lines)),
{
    let began = match progress {
        GCProgress::SliceEnd => clock.slice_start,
        GCProgress::CycleEnd => clock.cycle_start,
        _ => None,
    };
    let first = match began {
        Some(start) => {
            match span_between(now, start) {
                Some(span) => {
                    let text = span_text(span.secs, span.nanos);
                    progress_text(progress, text.as_str())
                },
                None => {
                    return None;
                },
            }
        },
        None => progress_text(progress, ""),
    };
    clock.on_progress(progress, now);
    let mut lines: Vec<String> = Vec::new();
    lines.push(first);
    match desc {
        Some(d) => {
            lines.push(description_text(d));
        },
        None => {},
    }
    proof {
        let span = match began {
            Some(start) => duration_text(span_secs(now, start), span_nanos(now, start)),
            None => Seq::empty(),
        };
        assert(""@ =~= Seq::<char>::empty()) by {
            reveal_strlit("");
        }
        assert(lines@.map_values(|line: String| line@) =~= report_lines(progress, span, desc));
    }
    Some(lines)
}

/// Takes a step of a collection that the engine reports, at the time that
/// it is, and gives the lines to print. The time is read from the clock of
/// the machine, so that all that is known of it is that it is a point in
/// time; what the step does and reports is what `gc_slice_report` does and
/// reports at that time.
pub fn gc_slice_callback(
    clock: &mut GcClock<Timespec>,
    progress: GCProgress,
    desc: Option<GCDescription>,
) -> (lines: Option<Vec<String>>)
    requires
        old(clock).expects(progress),
    ensures
        exists|at: Timespec|
            at.wf() && #[trigger] step_reported(
                *old(clock),
                progress,
                desc,
                at,
                *final(clock),
                lines_view(lines),
            ),
{
    let at = now();
    gc_slice_report(clock, progress, desc, at)
}

} // verus!
