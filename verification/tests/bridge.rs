use html_discovery::dom::{Attribute, IFrameSize, NodeHandle, QuirksMode};
use html_discovery::element::ElementTypeId;
use html_discovery::msg::{
    Diagnostic, DiscoveryRequest, DomError, FetchError, IFrameDiscovery, LoadError,
    MalformedMarkupError, PipelineId, SubpageId,
};
use html_discovery::session::{ParseSession, TreeEvent};

fn attr(name: &str, value: &str) -> Attribute {
    Attribute { name: name.to_string(), value: value.to_string() }
}

fn session_at(base: &str, first_id: u64) -> ParseSession {
    ParseSession::start(
        "http://example.com/start",
        Ok(base.to_string()),
        PipelineId(7),
        SubpageId(first_id),
    )
    .unwrap()
}

#[test]
fn start_fails_with_the_initial_url_when_the_fetch_failed() {
    let r = ParseSession::start(
        "http://example.com/missing",
        Err(FetchError),
        PipelineId(1),
        SubpageId(0),
    );
    match r {
        Err(e) => assert_eq!(e, LoadError { url: "http://example.com/missing".to_string() }),
        Ok(_) => panic!("a session was started without a document"),
    }
}

#[test]
fn start_takes_the_final_url_as_base() {
    let s = session_at("http://example.org/dir/page.html", 3);
    assert_eq!(s.base_url(), "http://example.org/dir/page.html");
    assert_eq!(s.next_subpage_id(), SubpageId(3));
    assert_eq!(s.document().len(), 1);
    assert!(s.stylesheet_requests().is_empty());
    assert!(s.script_requests().is_empty());
    assert!(s.frames().is_empty());
    assert!(s.diagnostics().is_empty());
}

#[test]
fn stylesheet_link_is_requested_by_its_resolved_url() {
    let mut s = session_at("http://example.com/a/b.html", 0);
    let h = s.create_element("link", &vec![attr("rel", "stylesheet"), attr("href", "c.css")]);
    assert_eq!(h, NodeHandle(1));
    assert_eq!(
        s.stylesheet_requests(),
        &vec![DiscoveryRequest::StylesheetByUrl("http://example.com/a/c.css".to_string())]
    );
    assert!(s.script_requests().is_empty());
    assert!(s.diagnostics().is_empty());
    assert_eq!(s.document().type_id(h), Some(ElementTypeId::HTMLLinkElement));
    assert_eq!(s.document().get_attribute(h, "href"), Some("c.css".to_string()));
}

#[test]
fn references_are_resolved_as_urls_are() {
    let mut s = session_at("https://alice.com/x/y", 0);
    for href in ["/v1/meta.css", "//eve.com/b.css", "http://other.net/z.css", "../up.css"] {
        s.create_element("link", &vec![attr("rel", "stylesheet"), attr("href", href)]);
    }
    assert_eq!(
        s.stylesheet_requests(),
        &vec![
            DiscoveryRequest::StylesheetByUrl("https://alice.com/v1/meta.css".to_string()),
            DiscoveryRequest::StylesheetByUrl("https://eve.com/b.css".to_string()),
            DiscoveryRequest::StylesheetByUrl("http://other.net/z.css".to_string()),
            DiscoveryRequest::StylesheetByUrl("https://alice.com/up.css".to_string()),
        ]
    );
}

#[test]
fn rel_is_matched_by_token_and_without_case() {
    let mut s = session_at("http://example.com/", 0);
    s.create_element("link", &vec![attr("rel", "Alternate  StyleSheet"), attr("href", "1.css")]);
    s.create_element("link", &vec![attr("rel", "icon"), attr("href", "2.ico")]);
    s.create_element("link", &vec![attr("rel", "stylesheets"), attr("href", "3.css")]);
    s.create_element("link", &vec![attr("href", "4.css")]);
    s.create_element("link", &vec![attr("rel", "stylesheet")]);
    s.create_element("a", &vec![attr("rel", "stylesheet"), attr("href", "6.css")]);
    assert_eq!(
        s.stylesheet_requests(),
        &vec![DiscoveryRequest::StylesheetByUrl("http://example.com/1.css".to_string())]
    );
    assert!(s.diagnostics().is_empty());
}

#[test]
fn unresolvable_reference_is_recorded_and_dropped() {
    let mut s = session_at("http://example.com/", 0);
    s.create_element("link", &vec![attr("rel", "stylesheet"), attr("href", "http://[bad")]);
    assert!(s.stylesheet_requests().is_empty());
    assert_eq!(
        s.diagnostics(),
        &vec![Diagnostic::MalformedMarkup(MalformedMarkupError::Reference(
            "http://[bad".to_string()
        ))]
    );
    // a base that is no absolute URL resolves nothing
    let mut t = session_at("not a url", 0);
    t.create_element("link", &vec![attr("rel", "stylesheet"), attr("href", "a.css")]);
    assert!(t.stylesheet_requests().is_empty());
    assert_eq!(t.diagnostics().len(), 1);
}

#[test]
fn malformed_attribute_is_skipped_and_the_element_stays() {
    let mut s = session_at("http://example.com/", 0);
    let h = s.create_element(
        "link",
        &vec![attr("rel", "stylesheet"), attr("bad name", "x"), attr("href", "a.css"), attr("", "y")],
    );
    assert_eq!(
        s.diagnostics(),
        &vec![
            Diagnostic::MalformedMarkup(MalformedMarkupError::AttributeName("bad name".to_string())),
            Diagnostic::MalformedMarkup(MalformedMarkupError::AttributeName("".to_string())),
        ]
    );
    assert_eq!(s.document().get_attribute(h, "bad name"), None);
    assert_eq!(s.document().get_attribute(h, "rel"), Some("stylesheet".to_string()));
    assert_eq!(
        s.stylesheet_requests(),
        &vec![DiscoveryRequest::StylesheetByUrl("http://example.com/a.css".to_string())]
    );
}

#[test]
fn later_attribute_of_the_same_name_wins() {
    let mut s = session_at("http://example.com/", 0);
    let h = s.create_element("a", &vec![attr("id", "one"), attr("id", "two")]);
    assert_eq!(s.document().get_attribute(h, "id"), Some("two".to_string()));
}

#[test]
fn frames_get_sequential_identifiers() {
    let mut s = session_at("http://example.com/top/", 5);
    let f1 = s.create_element("iframe", &vec![attr("src", "one.html")]);
    let f2 = s.create_element("iframe", &vec![attr("sandbox", ""), attr("src", "/two.html")]);
    let f3 = s.create_element("iframe", &vec![attr("name", "no-src")]);
    let f4 = s.create_element("iframe", &vec![attr("src", "three.html")]);
    assert_eq!(
        s.frames(),
        &vec![
            IFrameDiscovery {
                url: "http://example.com/top/one.html".to_string(),
                subpage_id: SubpageId(5),
                sandboxed: false,
            },
            IFrameDiscovery {
                url: "http://example.com/two.html".to_string(),
                subpage_id: SubpageId(6),
                sandboxed: true,
            },
            IFrameDiscovery {
                url: "http://example.com/top/three.html".to_string(),
                subpage_id: SubpageId(7),
                sandboxed: false,
            },
        ]
    );
    assert_eq!(s.next_subpage_id(), SubpageId(8));
    assert_eq!(
        s.document().frame(f1),
        Some((
            "http://example.com/top/one.html".to_string(),
            IFrameSize { pipeline_id: PipelineId(7), subpage_id: SubpageId(5) }
        ))
    );
    assert_eq!(
        s.document().frame(f2).map(|f| f.1.subpage_id),
        Some(SubpageId(6))
    );
    assert_eq!(s.document().frame(f3), None);
    assert_eq!(s.document().frame(f4).map(|f| f.1.subpage_id), Some(SubpageId(7)));
    assert!(s.stylesheet_requests().is_empty());
}

#[test]
fn frame_identifiers_never_repeat() {
    let mut s = session_at("http://example.com/", 0);
    for k in 0..50 {
        s.create_element("iframe", &vec![attr("src", &format!("f{}.html", k))]);
        s.create_element("div", &vec![]);
    }
    let ids: Vec<u64> = s.frames().iter().map(|f| f.subpage_id.0).collect();
    assert_eq!(ids.len(), 50);
    for k in 1..ids.len() {
        assert!(ids[k - 1] < ids[k]);
    }
    assert_eq!(ids[0], 0);
    assert_eq!(ids[49], 49);
}

#[test]
fn exhausted_identifiers_are_recorded_not_reused() {
    let mut s = session_at("http://example.com/", u64::MAX - 1);
    s.create_element("iframe", &vec![attr("src", "a.html")]);
    let h = s.create_element("iframe", &vec![attr("src", "b.html")]);
    assert_eq!(s.frames().len(), 1);
    assert_eq!(s.frames()[0].subpage_id, SubpageId(u64::MAX - 1));
    assert_eq!(s.next_subpage_id(), SubpageId(u64::MAX));
    assert_eq!(s.diagnostics(), &vec![Diagnostic::Dom(DomError::QuotaExceeded)]);
    assert_eq!(s.document().frame(h), None);
}

#[test]
fn frame_found_refuses_what_is_no_frame() {
    let mut s = session_at("http://example.com/", 0);
    let d = s.create_element("div", &vec![]);
    s.frame_found(d, "x.html", Some("http://example.com/x.html".to_string()));
    s.frame_found(NodeHandle(40), "x.html", Some("http://example.com/x.html".to_string()));
    s.frame_found(d, "::", None);
    assert!(s.frames().is_empty());
    assert_eq!(
        s.diagnostics(),
        &vec![
            Diagnostic::Dom(DomError::InvalidNodeType),
            Diagnostic::Dom(DomError::NotFound),
            Diagnostic::MalformedMarkup(MalformedMarkupError::Reference("::".to_string())),
        ]
    );
    assert_eq!(s.next_subpage_id(), SubpageId(0));
}

#[test]
fn found_functions_take_the_resolved_url_as_given() {
    let mut s = session_at("http://example.com/", 0);
    s.stylesheet_found("a.css", Some("http://cdn.test/a.css".to_string()));
    s.stylesheet_found("b.css", None);
    s.script_found("a.js", Some("http://cdn.test/a.js".to_string()));
    s.script_found("b.js", None);
    assert_eq!(
        s.stylesheet_requests(),
        &vec![DiscoveryRequest::StylesheetByUrl("http://cdn.test/a.css".to_string())]
    );
    assert_eq!(
        s.script_requests(),
        &vec![DiscoveryRequest::ScriptByUrl("http://cdn.test/a.js".to_string())]
    );
    assert_eq!(
        s.diagnostics(),
        &vec![
            Diagnostic::MalformedMarkup(MalformedMarkupError::Reference("b.css".to_string())),
            Diagnostic::MalformedMarkup(MalformedMarkupError::Reference("b.js".to_string())),
        ]
    );
}

#[test]
fn external_script_is_requested_by_url_when_complete() {
    let mut s = session_at("http://example.com/dir/", 0);
    let h = s.create_element("script", &vec![attr("src", "b.js")]);
    assert!(s.script_requests().is_empty());
    s.script_complete(h);
    assert_eq!(
        s.script_requests(),
        &vec![DiscoveryRequest::ScriptByUrl("http://example.com/dir/b.js".to_string())]
    );
}

#[test]
fn inline_script_is_requested_with_its_text_and_the_base_url() {
    let mut s = session_at("http://example.com/dir/p.html", 0);
    let h = s.create_element("script", &vec![attr("type", "text/javascript")]);
    let t1 = s.create_text("let x = ");
    let t2 = s.create_text("1;");
    assert_eq!(s.append_child(h, t1), t1);
    assert_eq!(s.append_child(h, t2), t2);
    s.script_complete(h);
    assert_eq!(
        s.script_requests(),
        &vec![DiscoveryRequest::ScriptInline(
            "let x = 1;".to_string(),
            "http://example.com/dir/p.html".to_string()
        )]
    );
    // an empty script is still a script
    let e = s.create_element("script", &vec![]);
    s.script_complete(e);
    assert_eq!(s.script_requests().len(), 2);
    assert_eq!(
        s.script_requests()[1],
        DiscoveryRequest::ScriptInline(String::new(), "http://example.com/dir/p.html".to_string())
    );
}

#[test]
fn script_complete_on_what_is_no_element_is_recorded() {
    let mut s = session_at("http://example.com/", 0);
    let t = s.create_text("x");
    s.script_complete(t);
    s.script_complete(NodeHandle(1000));
    assert!(s.script_requests().is_empty());
    assert_eq!(
        s.diagnostics(),
        &vec![Diagnostic::Dom(DomError::InvalidNodeType), Diagnostic::Dom(DomError::NotFound)]
    );
}

#[test]
fn refused_append_is_recorded_and_the_parse_goes_on() {
    let mut s = session_at("http://example.com/", 0);
    let a = s.create_element("div", &vec![]);
    let t = s.create_text("x");
    assert_eq!(s.append_child(t, a), a);
    assert_eq!(s.diagnostics(), &vec![Diagnostic::Dom(DomError::HierarchyRequest)]);
    assert_eq!(s.document().parent(a), None);
    assert_eq!(s.append_child(a, t), t);
    assert_eq!(s.document().parent(t), Some(a));
}

#[test]
fn other_handlers_build_the_tree() {
    let mut s = session_at("http://example.com/", 0);
    let dt = s.create_doctype("html", "-//W3C//DTD HTML 4.01//EN", "http://www.w3.org/TR/html4/strict.dtd");
    let c = s.create_comment(" note ");
    s.set_quirks_mode(QuirksMode::LimitedQuirks);
    s.set_encoding("ISO-8859-1");
    let root = s.document().root();
    s.append_child(root, dt);
    s.append_child(root, c);
    assert_eq!(s.document().children(root), vec![dt, c]);
    assert_eq!(s.document().quirks_mode(), QuirksMode::LimitedQuirks);
    assert_eq!(s.document().encoding_name(), "ISO-8859-1");
    assert_eq!(s.document().character_data(c), Some(" note ".to_string()));
}

#[test]
fn replay_is_the_handlers_one_after_the_other() {
    let events = vec![
        TreeEvent::CreateElement { tag: "html".to_string(), attributes: vec![] },
        TreeEvent::AppendChild { parent: NodeHandle(0), child: NodeHandle(1) },
        TreeEvent::CreateElement {
            tag: "link".to_string(),
            attributes: vec![attr("rel", "stylesheet"), attr("href", "s.css")],
        },
        TreeEvent::AppendChild { parent: NodeHandle(1), child: NodeHandle(2) },
        TreeEvent::CreateElement { tag: "style".to_string(), attributes: vec![] },
        TreeEvent::CompleteStyle(NodeHandle(3)),
        TreeEvent::CreateElement { tag: "script".to_string(), attributes: vec![] },
        TreeEvent::CreateText("go()".to_string()),
        TreeEvent::AppendChild { parent: NodeHandle(4), child: NodeHandle(5) },
        TreeEvent::CompleteScript(NodeHandle(4)),
        TreeEvent::CreateComment("end".to_string()),
        TreeEvent::SetQuirksMode(QuirksMode::FullQuirks),
        TreeEvent::EncodingChange("utf-16".to_string()),
    ];
    let mut s = session_at("http://h.test/", 0);
    s.replay(&events);
    let mut t = session_at("http://h.test/", 0);
    for e in &events {
        t.handle(e);
    }
    assert_eq!(s.stylesheet_requests(), t.stylesheet_requests());
    assert_eq!(s.script_requests(), t.script_requests());
    assert_eq!(s.document().len(), 7);
    assert_eq!(t.document().len(), 7);
    assert_eq!(
        s.stylesheet_requests(),
        &vec![DiscoveryRequest::StylesheetByUrl("http://h.test/s.css".to_string())]
    );
    assert_eq!(
        s.script_requests(),
        &vec![DiscoveryRequest::ScriptInline("go()".to_string(), "http://h.test/".to_string())]
    );
    assert_eq!(s.document().quirks_mode(), QuirksMode::FullQuirks);
    assert_eq!(s.document().encoding_name(), "utf-16");
    let out = s.finish(Ok(()));
    assert_eq!(out.document.len(), 7);
    assert_eq!(out.base_url, "http://h.test/");
    assert_eq!(
        out.stylesheet_requests,
        vec![
            DiscoveryRequest::StylesheetByUrl("http://h.test/s.css".to_string()),
            DiscoveryRequest::Terminate,
        ]
    );
    assert_eq!(
        out.script_requests,
        vec![
            DiscoveryRequest::ScriptInline("go()".to_string(), "http://h.test/".to_string()),
            DiscoveryRequest::Terminate,
        ]
    );
    assert!(out.frames.is_empty());
    assert!(out.diagnostics.is_empty());
    assert_eq!(out.next_subpage_id, SubpageId(0));
    assert_eq!(out.load_error, None);
}

#[test]
fn finish_terminates_both_workers_after_a_transport_error_too() {
    let mut s = session_at("http://h.test/page", 4);
    s.create_element("html", &vec![]);
    let out = s.finish(Err(FetchError));
    assert_eq!(out.stylesheet_requests, vec![DiscoveryRequest::Terminate]);
    assert_eq!(out.script_requests, vec![DiscoveryRequest::Terminate]);
    assert_eq!(out.load_error, Some(LoadError { url: "http://h.test/page".to_string() }));
    assert_eq!(out.document.len(), 2);
    assert_eq!(out.next_subpage_id, SubpageId(4));
}
