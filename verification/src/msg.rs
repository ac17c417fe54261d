//! Identifiers, requests and results that travel between the parts of a parse.

use vstd::prelude::*;

verus! {

/// Identifies the pipeline that a document belongs to.
#[derive(Clone, Copy, Debug, PartialEq, Eq, Structural)]
pub struct PipelineId(pub u64);

/// Identifies a sub-document within the session that discovered it.
#[derive(Clone, Copy, Debug, PartialEq, Eq, Structural)]
pub struct SubpageId(pub u64);

/// A script that is ready to run: its source text and the URL it belongs to.
#[derive(Clone, Debug, PartialEq, Eq)]
pub struct JSFile {
    pub data: String,
    pub url: String,
}

/// The scripts of one document, in the order in which they were met.
pub type JSResult = Vec<JSFile>;

/// What a `JSFile` holds, as mathematical values.
pub struct JSFileView {
    pub data: Seq<char>,
    pub url: Seq<char>,
}

impl View for JSFile {
    type V = JSFileView;

    open spec fn view(&self) -> JSFileView {
        JSFileView { data: self.data@, url: self.url@ }
    }
}

/// What a list of scripts holds, as mathematical values.
pub open spec fn script_views(files: Seq<JSFile>) -> Seq<JSFileView> {
    files.map_values(|f: JSFile| f@)
}

/// A sub-document that the tree construction came across.
#[derive(Clone, Debug, PartialEq, Eq)]
pub struct IFrameDiscovery {
    pub url: String,
    pub subpage_id: SubpageId,
    pub sandboxed: bool,
}

/// What an `IFrameDiscovery` holds, as mathematical values.
pub struct IFrameDiscoveryView {
    pub url: Seq<char>,
    pub subpage_id: SubpageId,
    pub sandboxed: bool,
}

impl View for IFrameDiscovery {
    type V = IFrameDiscoveryView;

    open spec fn view(&self) -> IFrameDiscoveryView {
        IFrameDiscoveryView {
            url: self.url@,
            subpage_id: self.subpage_id,
            sandboxed: self.sandboxed,
        }
    }
}

/// A unit of work that the tree construction hands to a discovery worker.
#[derive(Clone, Debug, PartialEq, Eq)]
pub enum DiscoveryRequest {
    /// Fetch and parse the stylesheet at this URL.
    StylesheetByUrl(String),
    /// Fetch the script at this URL.
    ScriptByUrl(String),
    /// Take this literal script text; the second field is the document's base URL.
    ScriptInline(String, String),
    /// No further request follows.
    Terminate,
}

/// What a `DiscoveryRequest` holds, as mathematical values.
pub enum DiscoveryRequestView {
    StylesheetByUrl(Seq<char>),
    ScriptByUrl(Seq<char>),
    ScriptInline(Seq<char>, Seq<char>),
    Terminate,
}

impl View for DiscoveryRequest {
    type V = DiscoveryRequestView;

    open spec fn view(&self) -> DiscoveryRequestView {
        match self {
            DiscoveryRequest::StylesheetByUrl(url) => DiscoveryRequestView::StylesheetByUrl(url@),
            DiscoveryRequest::ScriptByUrl(url) => DiscoveryRequestView::ScriptByUrl(url@),
            DiscoveryRequest::ScriptInline(text, base) => DiscoveryRequestView::ScriptInline(
                text@,
                base@,
            ),
            DiscoveryRequest::Terminate => DiscoveryRequestView::Terminate,
        }
    }
}

/// What a list of requests holds, as mathematical values.
pub open spec fn request_views(requests: Seq<DiscoveryRequest>) -> Seq<DiscoveryRequestView> {
    requests.map_values(|r: DiscoveryRequest| r@)
}

/// What a list of discovered sub-documents holds, as mathematical values.
pub open spec fn frame_views(frames: Seq<IFrameDiscovery>) -> Seq<IFrameDiscoveryView> {
    frames.map_values(|f: IFrameDiscovery| f@)
}

/// Messages generated by the HTML parser upon discovery of additional resources.
/// `S` is the parsed form of a stylesheet.
#[derive(Clone, Debug, PartialEq, Eq)]
pub enum HtmlDiscoveryMessage<S> {
    HtmlDiscoveredStyle(S),
    HtmlDiscoveredIFrame(IFrameDiscovery),
    HtmlDiscoveredScript(JSResult),
}

/// What an `HtmlDiscoveryMessage` holds, as mathematical values.
pub enum HtmlDiscoveryMessageView<S> {
    HtmlDiscoveredStyle(S),
    HtmlDiscoveredIFrame(IFrameDiscoveryView),
    HtmlDiscoveredScript(Seq<JSFileView>),
}

impl<S> View for HtmlDiscoveryMessage<S> {
    type V = HtmlDiscoveryMessageView<S>;

    open spec fn view(&self) -> HtmlDiscoveryMessageView<S> {
        match self {
            HtmlDiscoveryMessage::HtmlDiscoveredStyle(sheet) => {
                HtmlDiscoveryMessageView::HtmlDiscoveredStyle(*sheet)
            },
            HtmlDiscoveryMessage::HtmlDiscoveredIFrame(frame) => {
                HtmlDiscoveryMessageView::HtmlDiscoveredIFrame(frame@)
            },
            HtmlDiscoveryMessage::HtmlDiscoveredScript(files) => {
                HtmlDiscoveryMessageView::HtmlDiscoveredScript(script_views(files@))
            },
        }
    }
}

/// The initial document, a script or a stylesheet could not be fetched.
#[derive(Clone, Debug, PartialEq, Eq)]
pub struct LoadError {
    /// The URL whose load failed.
    pub url: String,
}

/// A construct of the markup was refused; the parse goes on without it.
#[derive(Clone, Debug, PartialEq, Eq)]
pub enum MalformedMarkupError {
    /// An attribute with this name could not be attached to its element.
    AttributeName(String),
    /// This reference could not be resolved against the base URL.
    Reference(String),
}

/// A tree mutation was rejected.
#[derive(Clone, Copy, Debug, PartialEq, Eq, Structural)]
pub enum DomError {
    /// A handle names no node of the document.
    NotFound,
    /// The child cannot stand under the parent.
    HierarchyRequest,
    /// A name holds a character that no name may hold.
    InvalidCharacter,
    /// The node is not of the kind that the operation works on.
    InvalidNodeType,
    /// The session has no sub-document identifier left to give.
    QuotaExceeded,
}

/// The body of a script or stylesheet is not text in UTF-8.
#[derive(Clone, Debug, PartialEq, Eq)]
pub struct DecodeError {
    /// The URL of the resource that could not be decoded.
    pub url: String,
}

/// A failure that was recorded and did not stop the parse.
#[derive(Clone, Debug, PartialEq, Eq)]
pub enum Diagnostic {
    Load(LoadError),
    MalformedMarkup(MalformedMarkupError),
    Dom(DomError),
    Decode(DecodeError),
}

/// What a `Diagnostic` holds, as mathematical values.
pub enum DiagnosticView {
    Load(Seq<char>),
    MalformedAttributeName(Seq<char>),
    MalformedReference(Seq<char>),
    Dom(DomError),
    Decode(Seq<char>),
}

impl View for Diagnostic {
    type V = DiagnosticView;

    open spec fn view(&self) -> DiagnosticView {
        match self {
            Diagnostic::Load(e) => DiagnosticView::Load(e.url@),
            Diagnostic::MalformedMarkup(MalformedMarkupError::AttributeName(name)) => {
                DiagnosticView::MalformedAttributeName(name@)
            },
            Diagnostic::MalformedMarkup(MalformedMarkupError::Reference(text)) => {
                DiagnosticView::MalformedReference(text@)
            },
            Diagnostic::Dom(e) => DiagnosticView::Dom(*e),
            Diagnostic::Decode(e) => DiagnosticView::Decode(e.url@),
        }
    }
}

/// What a list of diagnostics holds, as mathematical values.
pub open spec fn diagnostic_views(diagnostics: Seq<Diagnostic>) -> Seq<DiagnosticView> {
    diagnostics.map_values(|d: Diagnostic| d@)
}

/// A resource could not be fetched.
#[derive(Clone, Copy, Debug, PartialEq, Eq, Structural)]
pub struct FetchError;

} // verus!
