use html_discovery::aggregator::{Aggregator, Received};
use html_discovery::dom::{Attribute, NodeHandle};
use html_discovery::element::ElementTypeId;
use html_discovery::msg::{
    Diagnostic, FetchError, HtmlDiscoveryMessage, IFrameDiscovery, JSFile, LoadError, PipelineId,
    SubpageId,
};
use html_discovery::parser::{parse_html, LoadResponse, Page, ProgressMsg};
use html_discovery::session::TreeEvent;

fn attr(name: &str, value: &str) -> Attribute {
    Attribute { name: name.to_string(), value: value.to_string() }
}

fn element(tag: &str, attributes: Vec<Attribute>) -> TreeEvent {
    TreeEvent::CreateElement { tag: tag.to_string(), attributes }
}

fn append(parent: usize, child: usize) -> TreeEvent {
    TreeEvent::AppendChild { parent: NodeHandle(parent), child: NodeHandle(child) }
}

fn drain<S>(port: &mut Aggregator<S>) -> Vec<HtmlDiscoveryMessage<S>> {
    let mut out = Vec::new();
    loop {
        match port.recv() {
            Received::Message(m) => out.push(m),
            Received::Closed => return out,
            Received::Empty => panic!("the aggregator was left open"),
        }
    }
}

const PAGE: Page = Page { id: PipelineId(3), next_subpage_id: SubpageId(10) };

// <html><head><link rel="stylesheet" href="a.css"></head>
// <body><script src="b.js"></script></body></html>
fn link_and_script() -> Vec<TreeEvent> {
    vec![
        element("html", vec![]),
        append(0, 1),
        element("head", vec![]),
        append(1, 2),
        element("link", vec![attr("rel", "stylesheet"), attr("href", "a.css")]),
        append(2, 3),
        element("body", vec![]),
        append(1, 4),
        element("script", vec![attr("src", "b.js")]),
        append(4, 5),
        TreeEvent::CompleteScript(NodeHandle(5)),
    ]
}

#[test]
fn failed_initial_fetch_gives_no_tree_and_no_discovery() {
    let r = parse_html::<String>(
        &PAGE,
        "http://example.com/index.html",
        Err(FetchError),
        vec![Ok("unused".to_string())],
        vec![Ok(("u".to_string(), b"unused".to_vec()))],
    );
    match r {
        Err(e) => assert_eq!(e, LoadError { url: "http://example.com/index.html".to_string() }),
        Ok(_) => panic!("a result came out of a failed load"),
    }
}

#[test]
fn one_link_and_one_script_give_one_style_and_a_batch_of_one() {
    let load = LoadResponse {
        final_url: "http://example.com/dir/index.html".to_string(),
        progress: vec![ProgressMsg::Payload(link_and_script()), ProgressMsg::Done(Ok(()))],
    };
    let mut out = parse_html(
        &PAGE,
        "http://example.com/dir/",
        Ok(load),
        vec![Ok("parsed a.css".to_string())],
        vec![Ok(("http://example.com/dir/b.js".to_string(), b"run()".to_vec()))],
    )
    .unwrap();
    let d = &out.document;
    assert_eq!(d.len(), 6);
    let (html, head, link, body, script) =
        (NodeHandle(1), NodeHandle(2), NodeHandle(3), NodeHandle(4), NodeHandle(5));
    assert_eq!(d.children(d.root()), vec![html]);
    assert_eq!(d.children(html), vec![head, body]);
    assert_eq!(d.children(head), vec![link]);
    assert_eq!(d.children(body), vec![script]);
    assert_eq!(d.type_id(link), Some(ElementTypeId::HTMLLinkElement));
    assert_eq!(d.type_id(script), Some(ElementTypeId::HTMLScriptElement));
    assert_eq!(d.parent(link), Some(head));
    assert_eq!(d.parent(script), Some(body));
    assert_eq!(
        drain(&mut out.discovery_port),
        vec![
            HtmlDiscoveryMessage::HtmlDiscoveredStyle("parsed a.css".to_string()),
            HtmlDiscoveryMessage::HtmlDiscoveredScript(vec![JSFile {
                data: "run()".to_string(),
                url: "http://example.com/dir/b.js".to_string(),
            }]),
        ]
    );
    assert!(out.diagnostics.is_empty());
    assert_eq!(out.load_error, None);
    assert_eq!(out.next_subpage_id, SubpageId(10));
}

#[test]
fn chunks_are_fed_in_order_up_to_the_end_of_the_load() {
    let mut events = link_and_script();
    let second = events.split_off(6);
    let load = LoadResponse {
        final_url: "http://example.com/".to_string(),
        progress: vec![
            ProgressMsg::Payload(events),
            ProgressMsg::Payload(vec![]),
            ProgressMsg::Payload(second),
            ProgressMsg::Done(Ok(())),
            ProgressMsg::Payload(vec![element("iframe", vec![attr("src", "late.html")])]),
        ],
    };
    let mut out =
        parse_html::<u8>(&PAGE, "http://example.com/", Ok(load), vec![Ok(1)], vec![]).unwrap();
    assert_eq!(out.document.len(), 6);
    assert_eq!(
        drain(&mut out.discovery_port),
        vec![
            HtmlDiscoveryMessage::HtmlDiscoveredStyle(1),
            HtmlDiscoveryMessage::HtmlDiscoveredScript(vec![]),
        ]
    );
    assert_eq!(
        out.diagnostics,
        vec![Diagnostic::Load(LoadError { url: "http://example.com/b.js".to_string() })]
    );
    assert_eq!(out.load_error, None);
}

#[test]
fn transport_error_keeps_the_partial_tree_and_reports_a_load_error() {
    let load = LoadResponse {
        final_url: "http://example.com/p".to_string(),
        progress: vec![
            ProgressMsg::Payload(vec![element("html", vec![]), append(0, 1)]),
            ProgressMsg::Done(Err(FetchError)),
        ],
    };
    let mut out = parse_html::<u8>(&PAGE, "http://example.com/", Ok(load), vec![], vec![]).unwrap();
    assert_eq!(out.document.len(), 2);
    assert_eq!(out.document.children(NodeHandle(0)), vec![NodeHandle(1)]);
    assert_eq!(out.load_error, Some(LoadError { url: "http://example.com/p".to_string() }));
    assert_eq!(
        drain(&mut out.discovery_port),
        vec![HtmlDiscoveryMessage::HtmlDiscoveredScript(vec![])]
    );
    // a load that never says it is done did not end well either
    let cut = LoadResponse {
        final_url: "http://example.com/q".to_string(),
        progress: vec![ProgressMsg::Payload(vec![element("html", vec![])])],
    };
    let out = parse_html::<u8>(&PAGE, "http://example.com/", Ok(cut), vec![], vec![]).unwrap();
    assert_eq!(out.document.len(), 2);
    assert_eq!(out.load_error, Some(LoadError { url: "http://example.com/q".to_string() }));
}

#[test]
fn everything_discovered_is_gathered_by_kind_in_source_order() {
    let events = vec![
        element("html", vec![]),
        element("link", vec![attr("rel", "stylesheet"), attr("href", "1.css")]),
        element("iframe", vec![attr("src", "f1.html")]),
        element("script", vec![]),
        TreeEvent::CreateText("inline()".to_string()),
        append(4, 5),
        TreeEvent::CompleteScript(NodeHandle(4)),
        element("link", vec![attr("rel", "stylesheet"), attr("href", "2.css")]),
        element("script", vec![attr("src", "x.js")]),
        TreeEvent::CompleteScript(NodeHandle(7)),
        element("iframe", vec![attr("src", "f2.html"), attr("sandbox", "allow-scripts")]),
        element("link", vec![attr("rel", "stylesheet"), attr("href", "3.css")]),
        element("script", vec![attr("src", "y.js")]),
        TreeEvent::CompleteScript(NodeHandle(10)),
    ];
    let load = LoadResponse {
        final_url: "http://h.test/".to_string(),
        progress: vec![ProgressMsg::Payload(events), ProgressMsg::Done(Ok(()))],
    };
    let mut out = parse_html(
        &PAGE,
        "http://h.test/",
        Ok(load),
        vec![Ok("one"), Err(FetchError), Ok("three")],
        vec![Err(FetchError), Ok(("http://h.test/y.js".to_string(), b"y()".to_vec()))],
    )
    .unwrap();
    assert_eq!(
        drain(&mut out.discovery_port),
        vec![
            HtmlDiscoveryMessage::HtmlDiscoveredIFrame(IFrameDiscovery {
                url: "http://h.test/f1.html".to_string(),
                subpage_id: SubpageId(10),
                sandboxed: false,
            }),
            HtmlDiscoveryMessage::HtmlDiscoveredIFrame(IFrameDiscovery {
                url: "http://h.test/f2.html".to_string(),
                subpage_id: SubpageId(11),
                sandboxed: true,
            }),
            HtmlDiscoveryMessage::HtmlDiscoveredStyle("one"),
            HtmlDiscoveryMessage::HtmlDiscoveredStyle("three"),
            HtmlDiscoveryMessage::HtmlDiscoveredScript(vec![
                JSFile { data: "inline()".to_string(), url: "http://h.test/".to_string() },
                JSFile { data: "y()".to_string(), url: "http://h.test/y.js".to_string() },
            ]),
        ]
    );
    assert_eq!(
        out.diagnostics,
        vec![
            Diagnostic::Load(LoadError { url: "http://h.test/2.css".to_string() }),
            Diagnostic::Load(LoadError { url: "http://h.test/x.js".to_string() }),
        ]
    );
    assert_eq!(out.next_subpage_id, SubpageId(12));
    assert_eq!(out.load_error, None);
}
