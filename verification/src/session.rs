//! The bridge between the tree builder and the document: one handler for
//! each tree-construction event, and the discovery of linked resources on
//! the elements that pass through.

use vstd::prelude::*;
use crate::dom::{
    append_error, appended, attr_value, attribute_views, build_element_from_tag, data_with_attr,
    data_with_frame, is_attribute_name, set_frame_error, text_of_children, well_formed,
    Attribute, AttributeView, Document, DocumentView, IFrameSize, NodeDataView, NodeHandle,
    QuirksMode,
};
use crate::element::{element_type_of, ElementTypeId};
use crate::msg::{
    diagnostic_views, frame_views, request_views, Diagnostic, DiagnosticView, DiscoveryRequest,
    DiscoveryRequestView, DomError, FetchError, IFrameDiscovery, IFrameDiscoveryView, LoadError,
    MalformedMarkupError, PipelineId, SubpageId,
};
use crate::resolve::{join_url, resolved_url};
use crate::text::{has_token, opt_chars, str_has_token};

verus! {

/// What a `ParseSession` holds, as mathematical values.
pub struct SessionView {
    pub document: DocumentView,
    pub base_url: Seq<char>,
    pub pipeline_id: PipelineId,
    /// The identifier that the first sub-document of the session gets.
    pub first_subpage_id: u64,
    /// The identifier that the next sub-document gets.
    pub next_subpage_id: u64,
    /// The requests sent to the stylesheet worker, first to last.
    pub stylesheet_requests: Seq<DiscoveryRequestView>,
    /// The requests sent to the script worker, first to last.
    pub script_requests: Seq<DiscoveryRequestView>,
    /// The sub-documents announced to the aggregator, first to last.
    pub frames: Seq<IFrameDiscoveryView>,
    /// The failures that were recorded, first to last.
    pub diagnostics: Seq<DiagnosticView>,
}

impl SessionView {
    /// This session with one more diagnostic.
    pub open spec fn with_diagnostic(self, d: DiagnosticView) -> SessionView {
        SessionView { diagnostics: self.diagnostics.push(d), ..self }
    }

    /// This session with another document.
    pub open spec fn with_document(self, document: DocumentView) -> SessionView {
        SessionView { document, ..self }
    }
}

/// Sub-document identifiers were handed out one after the other from the
/// first: the `k`-th sub-document that was announced has the `k`-th identifier.
pub open spec fn ids_in_sequence(s: SessionView) -> bool {
    &&& s.first_subpage_id <= s.next_subpage_id
    &&& s.frames.len() == s.next_subpage_id - s.first_subpage_id
    &&& forall|k: int|
        0 <= k < s.frames.len() ==> (#[trigger] s.frames[k]).subpage_id.0 == s.first_subpage_id + k
}

/// What every session keeps: a well-formed document; sub-document
/// identifiers handed out one after the other from the first, so that the
/// `k`-th sub-document has the `k`-th identifier; and request lists that hold
/// stylesheet requests and script requests only.
pub open spec fn well_formed_session(s: SessionView) -> bool {
    &&& well_formed(s.document)
    &&& ids_in_sequence(s)
    &&& forall|k: int|
        0 <= k < s.stylesheet_requests.len() ==> #[trigger] s.stylesheet_requests[k]
            is StylesheetByUrl
    &&& forall|k: int|
        0 <= k < s.script_requests.len() ==> (#[trigger] s.script_requests[k] is ScriptByUrl
            || s.script_requests[k] is ScriptInline)
}

/// The document after the attributes `attrs` were attached to the element
/// `h` one after the other; an attribute whose name is no attribute name is
/// passed over.
pub open spec fn attach(d: DocumentView, h: NodeHandle, attrs: Seq<AttributeView>) -> DocumentView
    decreases attrs.len(),
{
    if attrs.len() == 0 {
        d
    } else {
        let before = attach(d, h, attrs.drop_last());
        let a = attrs.last();
        if is_attribute_name(a.name) {
            before.with_data(h, data_with_attr(before.node(h).data, a.name, a.value))
        } else {
            before
        }
    }
}

/// One diagnostic for each attribute of `attrs` whose name is no attribute
/// name, in their order.
pub open spec fn rejected(attrs: Seq<AttributeView>) -> Seq<DiagnosticView>
    decreases attrs.len(),
{
    if attrs.len() == 0 {
        Seq::empty()
    } else {
        let before = rejected(attrs.drop_last());
        if is_attribute_name(attrs.last().name) {
            before
        } else {
            before.push(DiagnosticView::MalformedAttributeName(attrs.last().name))
        }
    }
}

/// The reference of a stylesheet link: the `href` of a `link` element whose
/// `rel` names `stylesheet` among its space-separated tokens.
pub open spec fn link_target(d: DocumentView, h: NodeHandle) -> Option<Seq<char>> {
    if d.is_element(h) && d.node(h).data->type_id == ElementTypeId::HTMLLinkElement {
        match attr_value(d.attrs(h), "rel"@) {
            Some(rel) => if has_token(rel, "stylesheet"@) {
                attr_value(d.attrs(h), "href"@)
            } else {
                None
            },
            None => None,
        }
    } else {
        None
    }
}

/// The reference of a sub-document: the `src` of an `iframe` element.
pub open spec fn frame_source(d: DocumentView, h: NodeHandle) -> Option<Seq<char>> {
    if d.is_element(h) && d.node(h).data->type_id == ElementTypeId::HTMLIFrameElement {
        attr_value(d.attrs(h), "src"@)
    } else {
        None
    }
}

/// The session after a stylesheet link with the reference `href` was met,
/// where `resolved` is what the reference resolved to.
pub open spec fn stylesheet_found(
    s: SessionView,
    href: Seq<char>,
    resolved: Option<Seq<char>>,
) -> SessionView {
    match resolved {
        Some(url) => SessionView {
            stylesheet_requests: s.stylesheet_requests.push(
                DiscoveryRequestView::StylesheetByUrl(url),
            ),
            ..s
        },
        None => s.with_diagnostic(DiagnosticView::MalformedReference(href)),
    }
}

/// The session after a script with the reference `src` was completed, where
/// `resolved` is what the reference resolved to.
pub open spec fn script_found(
    s: SessionView,
    src: Seq<char>,
    resolved: Option<Seq<char>>,
) -> SessionView {
    match resolved {
        Some(url) => SessionView {
            script_requests: s.script_requests.push(DiscoveryRequestView::ScriptByUrl(url)),
            ..s
        },
        None => s.with_diagnostic(DiagnosticView::MalformedReference(src)),
    }
}

/// The session after the frame element `h` with the reference `src` was
/// met, where `resolved` is what the reference resolved to. A sub-document
/// gets the next identifier, the element is bound to it, and it is
/// announced; it is sandboxed where the element has a `sandbox` attribute.
pub open spec fn frame_found(
    s: SessionView,
    h: NodeHandle,
    src: Seq<char>,
    resolved: Option<Seq<char>>,
) -> SessionView {
    match resolved {
        None => s.with_diagnostic(DiagnosticView::MalformedReference(src)),
        Some(url) => match set_frame_error(s.document, h) {
            Some(e) => s.with_diagnostic(DiagnosticView::Dom(e)),
            None => if s.next_subpage_id == u64::MAX {
                s.with_diagnostic(DiagnosticView::Dom(DomError::QuotaExceeded))
            } else {
                let id = SubpageId(s.next_subpage_id);
                let size = IFrameSize { pipeline_id: s.pipeline_id, subpage_id: id };
                SessionView {
                    document: s.document.with_data(
                        h,
                        data_with_frame(s.document.node(h).data, url, size),
                    ),
                    next_subpage_id: (s.next_subpage_id + 1) as u64,
                    frames: s.frames.push(
                        IFrameDiscoveryView {
                            url,
                            subpage_id: id,
                            sandboxed: attr_value(s.document.attrs(h), "sandbox"@) is Some,
                        },
                    ),
                    ..s
                }
            },
        },
    }
}

/// The session after the resources that the element `h` refers to were
/// looked for.
pub open spec fn discovered(s: SessionView, h: NodeHandle) -> SessionView {
    match link_target(s.document, h) {
        Some(href) => stylesheet_found(s, href, resolved_url(s.base_url, href)),
        None => match frame_source(s.document, h) {
            Some(src) => frame_found(s, h, src, resolved_url(s.base_url, src)),
            None => s,
        },
    }
}

/// The session after an element was created for `tag` with the attributes `attrs`.
pub open spec fn element_created(
    s: SessionView,
    tag: Seq<char>,
    attrs: Seq<AttributeView>,
) -> SessionView {
    let h = NodeHandle(s.document.nodes.len() as usize);
    let fresh = s.document.with_new_node(
        NodeDataView::Element {
            type_id: element_type_of(tag),
            local_name: tag,
            attrs: Seq::empty(),
            frame: None,
        },
    );
    discovered(
        SessionView {
            document: attach(fresh, h, attrs),
            diagnostics: s.diagnostics + rejected(attrs),
            ..s
        },
        h,
    )
}

/// The session after the script element `node` was completed: a script with
/// a `src` is requested by its URL, any other by the text of its children.
pub open spec fn script_completed(s: SessionView, node: NodeHandle) -> SessionView {
    if !s.document.has(node) {
        s.with_diagnostic(DiagnosticView::Dom(DomError::NotFound))
    } else if !s.document.is_element(node) {
        s.with_diagnostic(DiagnosticView::Dom(DomError::InvalidNodeType))
    } else {
        match attr_value(s.document.attrs(node), "src"@) {
            Some(src) => script_found(s, src, resolved_url(s.base_url, src)),
            None => SessionView {
                script_requests: s.script_requests.push(
                    DiscoveryRequestView::ScriptInline(
                        text_of_children(s.document, s.document.node(node).children),
                        s.base_url,
                    ),
                ),
                ..s
            },
        }
    }
}

/// What the tree builder reports while it reads the document.
#[derive(Clone, Debug, PartialEq, Eq)]
pub enum TreeEvent {
    CreateComment(String),
    CreateDoctype { name: String, public_id: String, system_id: String },
    CreateElement { tag: String, attributes: Vec<Attribute> },
    CreateText(String),
    AppendChild { parent: NodeHandle, child: NodeHandle },
    SetQuirksMode(QuirksMode),
    EncodingChange(String),
    CompleteScript(NodeHandle),
    CompleteStyle(NodeHandle),
}

/// What a `TreeEvent` holds, as mathematical values.
pub enum TreeEventView {
    CreateComment(Seq<char>),
    CreateDoctype { name: Seq<char>, public_id: Seq<char>, system_id: Seq<char> },
    CreateElement { tag: Seq<char>, attributes: Seq<AttributeView> },
    CreateText(Seq<char>),
    AppendChild { parent: NodeHandle, child: NodeHandle },
    SetQuirksMode(QuirksMode),
    EncodingChange(Seq<char>),
    CompleteScript(NodeHandle),
    CompleteStyle(NodeHandle),
}

impl View for TreeEvent {
    type V = TreeEventView;

    open spec fn view(&self) -> TreeEventView {
        match self {
            TreeEvent::CreateComment(data) => TreeEventView::CreateComment(data@),
            TreeEvent::CreateDoctype { name, public_id, system_id } => TreeEventView::CreateDoctype {
                name: name@,
                public_id: public_id@,
                system_id: system_id@,
            },
            TreeEvent::CreateElement { tag, attributes } => TreeEventView::CreateElement {
                tag: tag@,
                attributes: attribute_views(attributes@),
            },
            TreeEvent::CreateText(data) => TreeEventView::CreateText(data@),
            TreeEvent::AppendChild { parent, child } => TreeEventView::AppendChild {
                parent: *parent,
                child: *child,
            },
            TreeEvent::SetQuirksMode(mode) => TreeEventView::SetQuirksMode(*mode),
            TreeEvent::EncodingChange(name) => TreeEventView::EncodingChange(name@),
            TreeEvent::CompleteScript(node) => TreeEventView::CompleteScript(*node),
            TreeEvent::CompleteStyle(node) => TreeEventView::CompleteStyle(*node),
        }
    }
}

/// What a list of tree events holds, as mathematical values.
pub open spec fn event_views(events: Seq<TreeEvent>) -> Seq<TreeEventView> {
    events.map_values(|e: TreeEvent| e@)
}

/// The session after `child` was appended to `parent`, or after the
/// document refused.
pub open spec fn child_appended(
    s: SessionView,
    parent: NodeHandle,
    child: NodeHandle,
) -> SessionView {
    match append_error(s.document, parent, child) {
        Some(e) => s.with_diagnostic(DiagnosticView::Dom(e)),
        None => s.with_document(appended(s.document, parent, child)),
    }
}

/// The session after a tree event. The completion of a style element
/// changes nothing: the document looks after its style elements itself.
pub open spec fn applied(s: SessionView, e: TreeEventView) -> SessionView {
    match e {
        TreeEventView::CreateComment(data) => s.with_document(
            s.document.with_new_node(NodeDataView::Comment { data }),
        ),
        TreeEventView::CreateDoctype { name, public_id, system_id } => s.with_document(
            s.document.with_new_node(NodeDataView::Doctype { name, public_id, system_id }),
        ),
        TreeEventView::CreateElement { tag, attributes } => element_created(s, tag, attributes),
        TreeEventView::CreateText(data) => s.with_document(
            s.document.with_new_node(NodeDataView::Text { data }),
        ),
        TreeEventView::AppendChild { parent, child } => child_appended(s, parent, child),
        TreeEventView::SetQuirksMode(mode) => s.with_document(
            DocumentView { quirks_mode: mode, ..s.document },
        ),
        TreeEventView::EncodingChange(name) => s.with_document(
            DocumentView { encoding_name: name, ..s.document },
        ),
        TreeEventView::CompleteScript(node) => script_completed(s, node),
        TreeEventView::CompleteStyle(_) => s,
    }
}

/// The session after a run of tree events.
pub open spec fn replayed(s: SessionView, events: Seq<TreeEventView>) -> SessionView
    decreases events.len(),
{
    if events.len() == 0 {
        s
    } else {
        applied(replayed(s, events.drop_last()), events.last())
    }
}

/// A run of events is the run of its first part followed by the run of the rest.
pub proof fn lemma_replayed_concat(s: SessionView, a: Seq<TreeEventView>, b: Seq<TreeEventView>)
    ensures
        replayed(s, a + b) == replayed(replayed(s, a), b),
    decreases b.len(),
{
    if b.len() == 0 {
        assert(a + b =~= a);
    } else {
        assert((a + b).drop_last() =~= a + b.drop_last());
        assert((a + b).last() == b.last());
        lemma_replayed_concat(s, a, b.drop_last());
    }
}

/// A tree event keeps the identifiers in sequence, keeps the first
/// identifier, and takes none of the announced sub-documents back.
pub proof fn lemma_applied_keeps_ids(s: SessionView, e: TreeEventView)
    requires
        ids_in_sequence(s),
    ensures
        ids_in_sequence(applied(s, e)),
        applied(s, e).first_subpage_id == s.first_subpage_id,
        s.frames.len() <= applied(s, e).frames.len(),
        forall|k: int|
            0 <= k < s.frames.len() ==> #[trigger] applied(s, e).frames[k] == s.frames[k],
{
}

/// A run of tree events keeps the identifiers in sequence, keeps the first
/// identifier, and takes none of the announced sub-documents back.
pub proof fn lemma_replayed_keeps_ids(s: SessionView, events: Seq<TreeEventView>)
    requires
        ids_in_sequence(s),
    ensures
        ids_in_sequence(replayed(s, events)),
        replayed(s, events).first_subpage_id == s.first_subpage_id,
        s.frames.len() <= replayed(s, events).frames.len(),
        forall|k: int|
            0 <= k < s.frames.len() ==> #[trigger] replayed(s, events).frames[k] == s.frames[k],
    decreases events.len(),
{
    if events.len() > 0 {
        let m = replayed(s, events.drop_last());
        lemma_replayed_keeps_ids(s, events.drop_last());
        lemma_applied_keeps_ids(m, events.last());
        assert forall|k: int| 0 <= k < s.frames.len() implies #[trigger] replayed(
            s,
            events,
        ).frames[k] == s.frames[k] by {
            assert(m.frames[k] == s.frames[k]);
        }
    }
}

/// Every completed script is requested once. The completion of a script
/// element whose `src`, if it has one, resolves adds exactly one request to
/// those for the script worker, after all earlier ones, and records nothing.
pub proof fn lemma_script_complete_requests_once(s: SessionView, node: NodeHandle)
    requires
        s.document.is_element(node),
        attr_value(s.document.attrs(node), "src"@) matches Some(src) ==> resolved_url(
            s.base_url,
            src,
        ) is Some,
    ensures
        script_completed(s, node).script_requests.len() == s.script_requests.len() + 1,
        script_completed(s, node).script_requests.drop_last() == s.script_requests,
        script_completed(s, node).diagnostics == s.diagnostics,
        script_completed(s, node).stylesheet_requests == s.stylesheet_requests,
{
    assert(script_completed(s, node).script_requests.drop_last() =~= s.script_requests);
}

/// What a session sent and recorded before a tree event is still there
/// after it, in the same places: an event only adds at the end of a list.
pub proof fn lemma_applied_appends(s: SessionView, e: TreeEventView)
    ensures
        s.stylesheet_requests.is_prefix_of(applied(s, e).stylesheet_requests),
        s.script_requests.is_prefix_of(applied(s, e).script_requests),
        s.frames.is_prefix_of(applied(s, e).frames),
        s.diagnostics.is_prefix_of(applied(s, e).diagnostics),
{
    let n = applied(s, e);
    assert(n.stylesheet_requests.subrange(0, s.stylesheet_requests.len() as int)
        =~= s.stylesheet_requests);
    assert(n.script_requests.subrange(0, s.script_requests.len() as int) =~= s.script_requests);
    assert(n.frames.subrange(0, s.frames.len() as int) =~= s.frames);
    assert(n.diagnostics.subrange(0, s.diagnostics.len() as int) =~= s.diagnostics);
}

/// Requests, announcements and diagnostics leave a session in source
/// order: what was sent and recorded before a run of tree events is still
/// there after it, in the same places, and what the run adds comes after.
pub proof fn lemma_replayed_appends(s: SessionView, events: Seq<TreeEventView>)
    ensures
        s.stylesheet_requests.is_prefix_of(replayed(s, events).stylesheet_requests),
        s.script_requests.is_prefix_of(replayed(s, events).script_requests),
        s.frames.is_prefix_of(replayed(s, events).frames),
        s.diagnostics.is_prefix_of(replayed(s, events).diagnostics),
    decreases events.len(),
{
    if events.len() == 0 {
        assert(s.stylesheet_requests.subrange(0, s.stylesheet_requests.len() as int)
            =~= s.stylesheet_requests);
        assert(s.script_requests.subrange(0, s.script_requests.len() as int)
            =~= s.script_requests);
        assert(s.frames.subrange(0, s.frames.len() as int) =~= s.frames);
        assert(s.diagnostics.subrange(0, s.diagnostics.len() as int) =~= s.diagnostics);
    } else {
        let m = replayed(s, events.drop_last());
        let n = replayed(s, events);
        lemma_replayed_appends(s, events.drop_last());
        lemma_applied_appends(m, events.last());
        assert(n.stylesheet_requests.subrange(0, s.stylesheet_requests.len() as int)
            =~= m.stylesheet_requests.subrange(0, s.stylesheet_requests.len() as int));
        assert(n.script_requests.subrange(0, s.script_requests.len() as int)
            =~= m.script_requests.subrange(0, s.script_requests.len() as int));
        assert(n.frames.subrange(0, s.frames.len() as int) =~= m.frames.subrange(
            0,
            s.frames.len() as int,
        ));
        assert(n.diagnostics.subrange(0, s.diagnostics.len() as int) =~= m.diagnostics.subrange(
            0,
            s.diagnostics.len() as int,
        ));
    }
}

/// The base URL is fixed for the whole session, and so is the pipeline:
/// no run of tree events changes either.
pub proof fn lemma_replayed_keeps_base(s: SessionView, events: Seq<TreeEventView>)
    ensures
        replayed(s, events).base_url == s.base_url,
        replayed(s, events).pipeline_id == s.pipeline_id,
    decreases events.len(),
{
    if events.len() > 0 {
        lemma_replayed_keeps_base(s, events.drop_last());
    }
}

/// Sub-document identifiers are unique within a session and grow with the
/// order of discovery. Whatever tree events a session has handled, of any
/// two sub-documents that it announced the earlier one has the strictly
/// smaller identifier, and no identifier lies below the first.
pub proof fn lemma_subpage_ids_strictly_increase(s: SessionView, events: Seq<TreeEventView>)
    requires
        ids_in_sequence(s),
    ensures
        forall|i: int, j: int|
            0 <= i < j < replayed(s, events).frames.len() ==> (#[trigger] replayed(
                s,
                events,
            ).frames[i]).subpage_id.0 < (#[trigger] replayed(s, events).frames[j]).subpage_id.0,
        forall|i: int|
            0 <= i < replayed(s, events).frames.len() ==> s.first_subpage_id <= (
            #[trigger] replayed(s, events).frames[i]).subpage_id.0,
{
    lemma_replayed_keeps_ids(s, events);
}

/// What a session leaves behind when the parse has ended.
pub struct ParseOutcome {
    /// The tree, as far as it was built.
    pub document: Document,
    pub base_url: String,
    /// Everything sent to the stylesheet worker, first to last; Terminate is last.
    pub stylesheet_requests: Vec<DiscoveryRequest>,
    /// Everything sent to the script worker, first to last; Terminate is last.
    pub script_requests: Vec<DiscoveryRequest>,
    /// The sub-documents that were announced, first to last.
    pub frames: Vec<IFrameDiscovery>,
    pub diagnostics: Vec<Diagnostic>,
    /// The identifier that the next sub-document would get.
    pub next_subpage_id: SubpageId,
    /// The transport error that cut the load short, if one did.
    pub load_error: Option<LoadError>,
}

/// The URL that a load error names, if there is an error.
pub open spec fn opt_url(e: Option<LoadError>) -> Option<Seq<char>> {
    match e {
        Some(e) => Some(e.url@),
        None => None,
    }
}

/// The state of one document parse: the tree under construction, the base
/// URL, the counter of sub-document identifiers, and what was sent to the
/// workers and to the aggregator so far.
pub struct ParseSession {
    document: Document,
    base_url: String,
    pipeline_id: PipelineId,
    first_subpage_id: SubpageId,
    next_subpage_id: SubpageId,
    stylesheet_requests: Vec<DiscoveryRequest>,
    script_requests: Vec<DiscoveryRequest>,
    frames: Vec<IFrameDiscovery>,
    diagnostics: Vec<Diagnostic>,
}

impl View for ParseSession {
    type V = SessionView;

    closed spec fn view(&self) -> SessionView {
        SessionView {
            document: self.document@,
            base_url: self.base_url@,
            pipeline_id: self.pipeline_id,
            first_subpage_id: self.first_subpage_id.0,
            next_subpage_id: self.next_subpage_id.0,
            stylesheet_requests: request_views(self.stylesheet_requests@),
            script_requests: request_views(self.script_requests@),
            frames: frame_views(self.frames@),
            diagnostics: diagnostic_views(self.diagnostics@),
        }
    }
}

impl ParseSession {
    /// The session is in a state that its operations keep.
    pub closed spec fn wf(&self) -> bool {
        self.document.wf() && well_formed_session(self@)
    }

    /// A session in a state that its operations keep is well formed.
    pub proof fn lemma_wf(&self)
        requires
            self.wf(),
        ensures
            well_formed_session(self@),
    {
    }

    /// Begins the parse of the document that was asked for at
    /// `initial_url`, given the answer to that request: the final URL of
    /// the document, which becomes the base URL, or a failure. On a failure
    /// there is no session and no tree; the error names the initial URL.
    pub fn start(
        initial_url: &str,
        response: Result<String, FetchError>,
        pipeline_id: PipelineId,
        next_subpage_id: SubpageId,
    ) -> (r: Result<ParseSession, LoadError>)
        ensures
            match response {
                Ok(final_url) => r matches Ok(session) && session.wf() && session@ == (SessionView {
                    document: Document::new_view(),
                    base_url: final_url@,
                    pipeline_id,
                    first_subpage_id: next_subpage_id.0,
                    next_subpage_id: next_subpage_id.0,
                    stylesheet_requests: Seq::empty(),
                    script_requests: Seq::empty(),
                    frames: Seq::empty(),
                    diagnostics: Seq::empty(),
                }),
                Err(_) => r matches Err(e) && e.url@ == initial_url@,
            },
    {
        match response {
            Ok(final_url) => {
                let session = ParseSession {
                    document: Document::new(),
                    base_url: final_url,
                    pipeline_id,
                    first_subpage_id: next_subpage_id,
                    next_subpage_id,
                    stylesheet_requests: Vec::new(),
                    script_requests: Vec::new(),
                    frames: Vec::new(),
                    diagnostics: Vec::new(),
                };
                proof {
                    session.document.lemma_wf();
                    assert(session@.stylesheet_requests =~= Seq::empty());
                    assert(session@.script_requests =~= Seq::empty());
                    assert(session@.frames =~= Seq::empty());
                    assert(session@.diagnostics =~= Seq::empty());
                }
                Ok(session)
            },
            Err(_) => Err(LoadError { url: String::from_str(initial_url) }),
        }
    }

    /// The document under construction.
    pub fn document(&self) -> (d: &Document)
        requires
            self.wf(),
        ensures
            d.wf(),
            d@ == self@.document,
    {
        &self.document
    }

    /// The base URL of the document: the final URL of the first response.
    pub fn base_url(&self) -> (url: &str)
        ensures
            url@ == self@.base_url,
    {
        self.base_url.as_str()
    }

    /// The identifier that the next sub-document gets.
    pub fn next_subpage_id(&self) -> (id: SubpageId)
        ensures
            id.0 == self@.next_subpage_id,
    {
        self.next_subpage_id
    }

    /// The requests sent to the stylesheet worker so far, first to last.
    pub fn stylesheet_requests(&self) -> (r: &Vec<DiscoveryRequest>)
        ensures
            request_views(r@) == self@.stylesheet_requests,
    {
        &self.stylesheet_requests
    }

    /// The requests sent to the script worker so far, first to last.
    pub fn script_requests(&self) -> (r: &Vec<DiscoveryRequest>)
        ensures
            request_views(r@) == self@.script_requests,
    {
        &self.script_requests
    }

    /// The sub-documents announced to the aggregator so far, first to last.
    pub fn frames(&self) -> (r: &Vec<IFrameDiscovery>)
        ensures
            frame_views(r@) == self@.frames,
    {
        &self.frames
    }

    /// The failures recorded so far, first to last.
    pub fn diagnostics(&self) -> (r: &Vec<Diagnostic>)
        ensures
            diagnostic_views(r@) == self@.diagnostics,
    {
        &self.diagnostics
    }

    /// Records a failure.
    fn note(&mut self, d: Diagnostic)
        requires
            old(self).wf(),
        ensures
            final(self).wf(),
            final(self)@ == old(self)@.with_diagnostic(d@),
    {
        self.diagnostics.push(d);
        proof {
            assert(self@.diagnostics =~= old(self)@.diagnostics.push(d@));
        }
    }

    /// Takes note of a stylesheet link with the reference `href`, given
    /// what the reference resolved to: the stylesheet is requested by its
    /// URL, or the reference is recorded as malformed.
    pub fn stylesheet_found(&mut self, href: &str, resolved: Option<String>)
        requires
            old(self).wf(),
        ensures
            final(self).wf(),
            final(self)@ == stylesheet_found(old(self)@, href@, opt_chars(resolved)),
    {
        match resolved {
            Some(url) => {
                let request = DiscoveryRequest::StylesheetByUrl(url);
                self.stylesheet_requests.push(request);
                proof {
                    assert(self@.stylesheet_requests =~= old(self)@.stylesheet_requests.push(
                        request@,
                    ));
                }
            },
            None => {
                self.note(
                    Diagnostic::MalformedMarkup(
                        MalformedMarkupError::Reference(String::from_str(href)),
                    ),
                );
            },
        }
    }

    /// Takes note of a completed script with the reference `src`, given
    /// what the reference resolved to: the script is requested by its URL,
    /// or the reference is recorded as malformed.
    pub fn script_found(&mut self, src: &str, resolved: Option<String>)
        requires
            old(self).wf(),
        ensures
            final(self).wf(),
            final(self)@ == script_found(old(self)@, src@, opt_chars(resolved)),
    {
        match resolved {
            Some(url) => {
                let request = DiscoveryRequest::ScriptByUrl(url);
                self.script_requests.push(request);
                proof {
                    assert(self@.script_requests =~= old(self)@.script_requests.push(request@));
                }
            },
            None => {
                self.note(
                    Diagnostic::MalformedMarkup(
                        MalformedMarkupError::Reference(String::from_str(src)),
                    ),
                );
            },
        }
    }

    /// Takes note of a frame element with the reference `src`, given what
    /// the reference resolved to: the sub-document gets the next
    /// identifier, the element is bound to it and it is announced; or the
    /// failure is recorded and nothing else changes.
    pub fn frame_found(&mut self, element: NodeHandle, src: &str, resolved: Option<String>)
        requires
            old(self).wf(),
        ensures
            final(self).wf(),
            final(self)@ == frame_found(old(self)@, element, src@, opt_chars(resolved)),
    {
        match resolved {
            None => {
                self.note(
                    Diagnostic::MalformedMarkup(
                        MalformedMarkupError::Reference(String::from_str(src)),
                    ),
                );
            },
            Some(url) => {
                let is_frame = match self.document.type_id(element) {
                    Some(ElementTypeId::HTMLIFrameElement) => true,
                    _ => false,
                };
                if !is_frame {
                    let e = if self.document.contains(element) {
                        DomError::InvalidNodeType
                    } else {
                        DomError::NotFound
                    };
                    self.note(Diagnostic::Dom(e));
                } else if self.next_subpage_id.0 == u64::MAX {
                    self.note(Diagnostic::Dom(DomError::QuotaExceeded));
                } else {
                    let id = self.next_subpage_id;
                    let sandboxed = self.document.get_attribute(element, "sandbox").is_some();
                    let size = IFrameSize { pipeline_id: self.pipeline_id, subpage_id: id };
                    let bound = self.document.set_frame(element, url.as_str(), size);
                    assert(bound is Ok);
                    self.next_subpage_id = SubpageId(id.0 + 1);
                    let found = IFrameDiscovery { url, subpage_id: id, sandboxed };
                    self.frames.push(found);
                    proof {
                        self.document.lemma_wf();
                        assert(self@.frames =~= old(self)@.frames.push(found@));
                    }
                }
            },
        }
    }

    /// Looks for the resources that a new element refers to.
    fn discover(&mut self, h: NodeHandle)
        requires
            old(self).wf(),
        ensures
            final(self).wf(),
            final(self)@ == discovered(old(self)@, h),
    {
        match self.document.type_id(h) {
            Some(ElementTypeId::HTMLLinkElement) => {
                let rel = self.document.get_attribute(h, "rel");
                let href = self.document.get_attribute(h, "href");
                match rel {
                    Some(rel) => {
                        if str_has_token(rel.as_str(), "stylesheet") {
                            match href {
                                Some(href) => {
                                    let resolved = join_url(self.base_url.as_str(), href.as_str());
                                    self.stylesheet_found(href.as_str(), resolved);
                                },
                                None => {},
                            }
                        }
                    },
                    None => {},
                }
            },
            Some(ElementTypeId::HTMLIFrameElement) => {
                match self.document.get_attribute(h, "src") {
                    Some(src) => {
                        let resolved = join_url(self.base_url.as_str(), src.as_str());
                        self.frame_found(h, src.as_str(), resolved);
                    },
                    None => {},
                }
            },
            _ => {},
        }
    }

    /// Handles the creation of an element: creates it for `tag`, attaches
    /// the attributes in order, recording and passing over each one that
    /// the document refuses, and then looks for the resources that the
    /// element refers to.
    pub fn create_element(&mut self, tag: &str, attributes: &Vec<Attribute>) -> (h: NodeHandle)
        requires
            old(self).wf(),
        ensures
            final(self).wf(),
            h.0 == old(self)@.document.nodes.len(),
            final(self)@ == element_created(old(self)@, tag@, attribute_views(attributes@)),
    {
        let ghost before = self@;
        let ghost views = attribute_views(attributes@);
        let h = build_element_from_tag(tag, &mut self.document);
        let ghost fresh = self.document@;
        let mut k: usize = 0;
        proof {
            assert(views.take(0) =~= Seq::empty());
            assert(self@.diagnostics =~= before.diagnostics + rejected(views.take(0)));
            self.document.lemma_wf();
        }
        while k < attributes.len()
            invariant
                k <= attributes.len(),
                views == attribute_views(attributes@),
                self.document.wf(),
                self.document@.is_element(h),
                self.document@ == attach(fresh, h, views.take(k as int)),
                self@.diagnostics == before.diagnostics + rejected(views.take(k as int)),
                self@ == (SessionView {
                    document: self.document@,
                    diagnostics: self@.diagnostics,
                    ..before
                }),
                well_formed_session(before),
            decreases attributes.len() - k,
        {
            let a = &attributes[k];
            proof {
                let next = views.take(k + 1);
                assert(next.drop_last() =~= views.take(k as int));
                assert(next.last() == a@);
            }
            let attached = self.document.set_attribute(h, a.name.as_str(), a.value.as_str());
            match attached {
                Ok(()) => {},
                Err(_) => {
                    let d = Diagnostic::MalformedMarkup(
                        MalformedMarkupError::AttributeName(a.name.clone()),
                    );
                    let ghost noted = self@.diagnostics;
                    self.diagnostics.push(d);
                    proof {
                        let next = views.take(k + 1);
                        assert(self@.diagnostics =~= noted.push(d@));
                        assert(!is_attribute_name(a@.name));
                        assert(d@ == DiagnosticView::MalformedAttributeName(a@.name));
                        assert(rejected(next) == rejected(next.drop_last()).push(d@));
                        assert(self@.diagnostics =~= before.diagnostics + rejected(next));
                    }
                },
            }
            k = k + 1;
        }
        proof {
            assert(views.take(k as int) =~= views);
            self.document.lemma_wf();
        }
        self.discover(h);
        h
    }

    /// Handles the creation of a text node.
    pub fn create_text(&mut self, data: &str) -> (h: NodeHandle)
        requires
            old(self).wf(),
        ensures
            final(self).wf(),
            h.0 == old(self)@.document.nodes.len(),
            final(self)@ == old(self)@.with_document(
                old(self)@.document.with_new_node(NodeDataView::Text { data: data@ }),
            ),
    {
        let h = self.document.create_text(data);
        proof {
            self.document.lemma_wf();
        }
        h
    }

    /// Handles the creation of a comment node.
    pub fn create_comment(&mut self, data: &str) -> (h: NodeHandle)
        requires
            old(self).wf(),
        ensures
            final(self).wf(),
            h.0 == old(self)@.document.nodes.len(),
            final(self)@ == old(self)@.with_document(
                old(self)@.document.with_new_node(NodeDataView::Comment { data: data@ }),
            ),
    {
        let h = self.document.create_comment(data);
        proof {
            self.document.lemma_wf();
        }
        h
    }

    /// Handles the creation of a document type node.
    pub fn create_doctype(&mut self, name: &str, public_id: &str, system_id: &str) -> (h:
        NodeHandle)
        requires
            old(self).wf(),
        ensures
            final(self).wf(),
            h.0 == old(self)@.document.nodes.len(),
            final(self)@ == old(self)@.with_document(
                old(self)@.document.with_new_node(
                    NodeDataView::Doctype {
                        name: name@,
                        public_id: public_id@,
                        system_id: system_id@,
                    },
                ),
            ),
    {
        let h = self.document.create_doctype(name, public_id, system_id);
        proof {
            self.document.lemma_wf();
        }
        h
    }

    /// Handles the appending of `child` to `parent` and hands the child
    /// back. Where the document refuses, the failure is recorded and the
    /// tree stays as it is.
    pub fn append_child(&mut self, parent: NodeHandle, child: NodeHandle) -> (h: NodeHandle)
        requires
            old(self).wf(),
        ensures
            final(self).wf(),
            h == child,
            final(self)@ == match append_error(old(self)@.document, parent, child) {
                Some(e) => old(self)@.with_diagnostic(DiagnosticView::Dom(e)),
                None => old(self)@.with_document(appended(old(self)@.document, parent, child)),
            },
    {
        match self.document.append_child(parent, child) {
            Ok(()) => {
                proof {
                    self.document.lemma_wf();
                }
            },
            Err(e) => {
                self.note(Diagnostic::Dom(e));
            },
        }
        child
    }

    /// Handles the tree builder's choice of a quirks mode.
    pub fn set_quirks_mode(&mut self, mode: QuirksMode)
        requires
            old(self).wf(),
        ensures
            final(self).wf(),
            final(self)@ == old(self)@.with_document(
                DocumentView { quirks_mode: mode, ..old(self)@.document },
            ),
    {
        self.document.set_quirks_mode(mode);
        proof {
            self.document.lemma_wf();
        }
    }

    /// Handles a change of the document's encoding.
    pub fn set_encoding(&mut self, name: &str)
        requires
            old(self).wf(),
        ensures
            final(self).wf(),
            final(self)@ == old(self)@.with_document(
                DocumentView { encoding_name: name@, ..old(self)@.document },
            ),
    {
        self.document.set_encoding_name(name);
        proof {
            self.document.lemma_wf();
        }
    }

    /// Handles the completion of a script element: a script with a `src`
    /// is requested by its resolved URL; any other is requested with the
    /// text of its text children, in document order, and the base URL.
    pub fn script_complete(&mut self, node: NodeHandle)
        requires
            old(self).wf(),
        ensures
            final(self).wf(),
            final(self)@ == script_completed(old(self)@, node),
    {
        if !self.document.contains(node) {
            self.note(Diagnostic::Dom(DomError::NotFound));
            return ;
        }
        if self.document.type_id(node).is_none() {
            self.note(Diagnostic::Dom(DomError::InvalidNodeType));
            return ;
        }
        match self.document.get_attribute(node, "src") {
            Some(src) => {
                let resolved = join_url(self.base_url.as_str(), src.as_str());
                self.script_found(src.as_str(), resolved);
            },
            None => {
                let text = self.document.child_text(node);
                let request = DiscoveryRequest::ScriptInline(text, self.base_url.clone());
                self.script_requests.push(request);
                proof {
                    assert(self@.script_requests =~= old(self)@.script_requests.push(request@));
                }
            },
        }
    }
    /// Handles one tree event with the handler of its kind.
    pub fn handle(&mut self, event: &TreeEvent)
        requires
            old(self).wf(),
        ensures
            final(self).wf(),
            final(self)@ == applied(old(self)@, event@),
    {
        match event {
            TreeEvent::CreateComment(data) => {
                self.create_comment(data.as_str());
            },
            TreeEvent::CreateDoctype { name, public_id, system_id } => {
                self.create_doctype(name.as_str(), public_id.as_str(), system_id.as_str());
            },
            TreeEvent::CreateElement { tag, attributes } => {
                self.create_element(tag.as_str(), attributes);
            },
            TreeEvent::CreateText(data) => {
                self.create_text(data.as_str());
            },
            TreeEvent::AppendChild { parent, child } => {
                self.append_child(*parent, *child);
            },
            TreeEvent::SetQuirksMode(mode) => {
                self.set_quirks_mode(*mode);
            },
            TreeEvent::EncodingChange(name) => {
                self.set_encoding(name.as_str());
            },
            TreeEvent::CompleteScript(node) => {
                self.script_complete(*node);
            },
            TreeEvent::CompleteStyle(_) => {},
        }
    }

    /// Handles a run of tree events, one after the other.
    pub fn replay(&mut self, events: &Vec<TreeEvent>)
        requires
            old(self).wf(),
        ensures
            final(self).wf(),
            final(self)@ == replayed(old(self)@, event_views(events@)),
    {
        let ghost all = event_views(events@);
        let mut k: usize = 0;
        assert(all.take(0) =~= Seq::empty());
        while k < events.len()
            invariant
                k <= events.len(),
                all == event_views(events@),
                self.wf(),
                self@ == replayed(old(self)@, all.take(k as int)),
            decreases events.len() - k,
        {
            proof {
                let next = all.take(k + 1);
                assert(next.drop_last() =~= all.take(k as int));
                assert(next.last() == events@[k as int]@);
            }
            self.handle(&events[k]);
            k = k + 1;
        }
        assert(all.take(k as int) =~= all);
    }

    /// Ends the session when the load of the document has ended, well or
    /// with a transport error. Both workers get Terminate as their last
    /// request, whichever way the load ended. After a transport error the
    /// tree is handed out as far as it was built, with a load error that
    /// names the base URL.
    pub fn finish(self, status: Result<(), FetchError>) -> (out: ParseOutcome)
        requires
            self.wf(),
        ensures
            out.document.wf(),
            out.document@ == self@.document,
            out.base_url@ == self@.base_url,
            request_views(out.stylesheet_requests@) == self@.stylesheet_requests.push(
                DiscoveryRequestView::Terminate,
            ),
            request_views(out.script_requests@) == self@.script_requests.push(
                DiscoveryRequestView::Terminate,
            ),
            frame_views(out.frames@) == self@.frames,
            diagnostic_views(out.diagnostics@) == self@.diagnostics,
            out.next_subpage_id.0 == self@.next_subpage_id,
            opt_url(out.load_error) == if status is Ok {
                None
            } else {
                Some(self@.base_url)
            },
    {
        let load_error = match status {
            Ok(()) => None,
            Err(_) => Some(LoadError { url: self.base_url.clone() }),
        };
        let mut stylesheet_requests = self.stylesheet_requests;
        let mut script_requests = self.script_requests;
        stylesheet_requests.push(DiscoveryRequest::Terminate);
        script_requests.push(DiscoveryRequest::Terminate);
        proof {
            assert(request_views(stylesheet_requests@) =~= self@.stylesheet_requests.push(
                DiscoveryRequestView::Terminate,
            ));
            assert(request_views(script_requests@) =~= self@.script_requests.push(
                DiscoveryRequestView::Terminate,
            ));
        }
        ParseOutcome {
            document: self.document,
            base_url: self.base_url,
            stylesheet_requests,
            script_requests,
            frames: self.frames,
            diagnostics: self.diagnostics,
            next_subpage_id: self.next_subpage_id,
            load_error,
        }
    }
}

} // verus!
