use html_discovery::aggregator::{Aggregator, Producer, Received};
use html_discovery::msg::{
    DecodeError, Diagnostic, DiscoveryRequest, FetchError, HtmlDiscoveryMessage, IFrameDiscovery,
    JSFile, LoadError, SubpageId,
};
use html_discovery::script_worker::{ScriptAction, ScriptWorker};
use html_discovery::style_worker::{StylesheetWorker, WorkerPhase};

fn js(data: &str, url: &str) -> JSFile {
    JSFile { data: data.to_string(), url: url.to_string() }
}

#[test]
fn stylesheets_come_out_in_request_order_when_the_second_finishes_first() {
    let mut w: StylesheetWorker<&'static str> = StylesheetWorker::new();
    assert_eq!(w.request("http://h/1.css"), Some(0));
    assert_eq!(w.request("http://h/2.css"), Some(1));
    assert_eq!(w.complete(1, Ok("sheet two")), Vec::<&str>::new());
    assert_eq!(w.outstanding(), 2);
    assert_eq!(w.complete(0, Ok("sheet one")), vec!["sheet one", "sheet two"]);
    assert_eq!(w.outstanding(), 0);
    assert_eq!(w.phase(), WorkerPhase::Running);
}

#[test]
fn stylesheets_come_out_at_once_when_they_finish_in_order() {
    let mut w: StylesheetWorker<u32> = StylesheetWorker::new();
    for k in 0..4u64 {
        assert_eq!(w.request("u"), Some(k));
    }
    assert_eq!(w.complete(0, Ok(10)), vec![10]);
    assert_eq!(w.complete(1, Ok(11)), vec![11]);
    assert_eq!(w.complete(3, Ok(13)), Vec::<u32>::new());
    assert_eq!(w.complete(2, Ok(12)), vec![12, 13]);
}

#[test]
fn every_completion_order_gives_the_same_stylesheets() {
    let orders: [[u64; 3]; 6] =
        [[0, 1, 2], [0, 2, 1], [1, 0, 2], [1, 2, 0], [2, 0, 1], [2, 1, 0]];
    for order in orders {
        let mut w: StylesheetWorker<u64> = StylesheetWorker::new();
        for _ in 0..3 {
            w.request("u");
        }
        let mut out = Vec::new();
        for seq in order {
            out.extend(w.complete(seq, Ok(100 + seq)));
        }
        assert_eq!(out, vec![100, 101, 102]);
    }
}

#[test]
fn failed_stylesheet_is_dropped_with_a_diagnostic() {
    let mut w: StylesheetWorker<u32> = StylesheetWorker::new();
    w.request("http://h/a.css");
    w.request("http://h/b.css");
    w.request("http://h/c.css");
    assert_eq!(w.complete(2, Ok(3)), Vec::<u32>::new());
    assert_eq!(w.complete(1, Err(FetchError)), Vec::<u32>::new());
    assert_eq!(w.complete(0, Ok(1)), vec![1, 3]);
    assert_eq!(
        w.diagnostics(),
        &vec![Diagnostic::Load(LoadError { url: "http://h/b.css".to_string() })]
    );
}

#[test]
fn completion_that_is_not_awaited_changes_nothing() {
    let mut w: StylesheetWorker<u32> = StylesheetWorker::new();
    assert_eq!(w.complete(0, Ok(1)), Vec::<u32>::new());
    w.request("u");
    assert_eq!(w.complete(5, Ok(1)), Vec::<u32>::new());
    assert_eq!(w.complete(0, Ok(7)), vec![7]);
    assert_eq!(w.complete(0, Ok(8)), Vec::<u32>::new());
    assert_eq!(w.complete(0, Err(FetchError)), Vec::<u32>::new());
    assert!(w.diagnostics().is_empty());
    assert_eq!(w.outstanding(), 0);
}

#[test]
fn terminate_drains_what_is_outstanding_and_then_exits() {
    let mut w: StylesheetWorker<u32> = StylesheetWorker::new();
    w.request("a");
    w.request("b");
    w.terminate();
    assert_eq!(w.phase(), WorkerPhase::Draining);
    assert_eq!(w.request("late"), None);
    assert_eq!(w.complete(1, Ok(2)), Vec::<u32>::new());
    assert_eq!(w.phase(), WorkerPhase::Draining);
    assert_eq!(w.complete(0, Ok(1)), vec![1, 2]);
    assert_eq!(w.phase(), WorkerPhase::Exited);
    assert_eq!(w.complete(0, Ok(9)), Vec::<u32>::new());
    assert_eq!(w.request("later"), None);
    w.terminate();
    assert_eq!(w.phase(), WorkerPhase::Exited);
    assert!(w.into_diagnostics().is_empty());
}

#[test]
fn terminate_with_nothing_outstanding_exits_at_once() {
    let mut w: StylesheetWorker<u32> = StylesheetWorker::new();
    w.terminate();
    assert_eq!(w.phase(), WorkerPhase::Exited);
    let mut v: StylesheetWorker<u32> = StylesheetWorker::new();
    v.request("a");
    assert_eq!(v.complete(0, Err(FetchError)), Vec::<u32>::new());
    v.terminate();
    assert_eq!(v.phase(), WorkerPhase::Exited);
}

#[test]
fn scripts_are_emitted_once_in_source_order() {
    let mut w = ScriptWorker::new();
    assert_eq!(
        w.handle(DiscoveryRequest::ScriptInline("a()".to_string(), "http://h/".to_string())),
        ScriptAction::Continue
    );
    assert_eq!(
        w.handle(DiscoveryRequest::ScriptByUrl("http://h/b.js".to_string())),
        ScriptAction::Fetch(1, "http://h/b.js".to_string())
    );
    assert_eq!(
        w.fetched(1, Ok(("http://h/b.js".to_string(), b"b()".to_vec()))),
        ScriptAction::Continue
    );
    assert_eq!(
        w.handle(DiscoveryRequest::ScriptInline("c()".to_string(), "http://h/".to_string())),
        ScriptAction::Continue
    );
    assert_eq!(
        w.handle(DiscoveryRequest::Terminate),
        ScriptAction::Emit(vec![
            js("a()", "http://h/"),
            js("b()", "http://h/b.js"),
            js("c()", "http://h/"),
        ])
    );
    assert_eq!(w.phase(), WorkerPhase::Exited);
    // nothing comes after the batch
    assert_eq!(w.handle(DiscoveryRequest::Terminate), ScriptAction::Continue);
    assert_eq!(
        w.handle(DiscoveryRequest::ScriptInline("d()".to_string(), "u".to_string())),
        ScriptAction::Continue
    );
    assert_eq!(w.fetched(1, Err(FetchError)), ScriptAction::Continue);
    assert_eq!(w.batch().len(), 3);
}

#[test]
fn fetched_script_takes_the_final_url_and_keeps_its_place() {
    let mut w = ScriptWorker::new();
    w.handle(DiscoveryRequest::ScriptByUrl("http://h/one.js".to_string()));
    w.handle(DiscoveryRequest::ScriptByUrl("http://h/two.js".to_string()));
    w.handle(DiscoveryRequest::ScriptInline("three".to_string(), "http://h/".to_string()));
    w.fetched(1, Ok(("http://cdn/two.js".to_string(), "zwei é".as_bytes().to_vec())));
    w.fetched(0, Ok(("http://h/one.js".to_string(), b"eins".to_vec())));
    assert_eq!(
        w.batch(),
        vec![js("eins", "http://h/one.js"), js("zwei é", "http://cdn/two.js"), js("three", "http://h/")]
    );
}

#[test]
fn failed_script_is_left_out_and_the_others_keep_their_order() {
    let mut w = ScriptWorker::new();
    w.handle(DiscoveryRequest::ScriptByUrl("http://h/1.js".to_string()));
    w.handle(DiscoveryRequest::ScriptByUrl("http://h/404.js".to_string()));
    w.handle(DiscoveryRequest::ScriptInline("3".to_string(), "http://h/".to_string()));
    w.handle(DiscoveryRequest::ScriptByUrl("http://h/4.js".to_string()));
    w.fetched(0, Ok(("http://h/1.js".to_string(), b"1".to_vec())));
    w.fetched(1, Err(FetchError));
    w.fetched(3, Ok(("http://h/4.js".to_string(), b"4".to_vec())));
    assert_eq!(
        w.handle(DiscoveryRequest::Terminate),
        ScriptAction::Emit(vec![js("1", "http://h/1.js"), js("3", "http://h/"), js("4", "http://h/4.js")])
    );
    assert_eq!(
        w.diagnostics(),
        &vec![Diagnostic::Load(LoadError { url: "http://h/404.js".to_string() })]
    );
}

#[test]
fn undecodable_script_is_dropped_with_a_decode_diagnostic() {
    let mut w = ScriptWorker::new();
    w.handle(DiscoveryRequest::ScriptByUrl("http://h/bin.js".to_string()));
    w.fetched(0, Ok(("http://h/bin.js".to_string(), vec![0x66, 0xff, 0xfe])));
    assert_eq!(w.handle(DiscoveryRequest::Terminate), ScriptAction::Emit(vec![]));
    assert_eq!(
        w.into_diagnostics(),
        vec![Diagnostic::Decode(DecodeError { url: "http://h/bin.js".to_string() })]
    );
}

#[test]
fn script_batch_waits_for_the_last_fetch() {
    let mut w = ScriptWorker::new();
    w.handle(DiscoveryRequest::ScriptByUrl("http://h/a.js".to_string()));
    w.handle(DiscoveryRequest::ScriptByUrl("http://h/b.js".to_string()));
    assert_eq!(w.handle(DiscoveryRequest::Terminate), ScriptAction::Continue);
    assert_eq!(w.phase(), WorkerPhase::Draining);
    assert_eq!(
        w.handle(DiscoveryRequest::ScriptByUrl("http://h/late.js".to_string())),
        ScriptAction::Continue
    );
    assert_eq!(w.fetched(1, Ok(("http://h/b.js".to_string(), b"b".to_vec()))), ScriptAction::Continue);
    assert_eq!(w.fetched(7, Ok(("x".to_string(), b"x".to_vec()))), ScriptAction::Continue);
    assert_eq!(
        w.fetched(0, Ok(("http://h/a.js".to_string(), b"a".to_vec()))),
        ScriptAction::Emit(vec![js("a", "http://h/a.js"), js("b", "http://h/b.js")])
    );
    assert_eq!(w.phase(), WorkerPhase::Exited);
}

#[test]
fn script_worker_passes_over_what_is_not_for_it() {
    let mut w = ScriptWorker::new();
    assert_eq!(
        w.handle(DiscoveryRequest::StylesheetByUrl("http://h/a.css".to_string())),
        ScriptAction::Continue
    );
    assert_eq!(w.handle(DiscoveryRequest::Terminate), ScriptAction::Emit(vec![]));
}

#[test]
fn aggregator_keeps_order_and_closes_with_its_last_producer() {
    let mut a: Aggregator<u8> = Aggregator::new();
    assert_eq!(a.recv(), Received::Empty);
    assert!(a.send(Producer::StylesheetWorker, HtmlDiscoveryMessage::HtmlDiscoveredStyle(1)));
    let frame = IFrameDiscovery { url: "u".to_string(), subpage_id: SubpageId(0), sandboxed: false };
    assert!(a.send(Producer::Bridge, HtmlDiscoveryMessage::HtmlDiscoveredIFrame(frame.clone())));
    assert!(a.send(Producer::StylesheetWorker, HtmlDiscoveryMessage::HtmlDiscoveredStyle(2)));
    assert_eq!(a.len(), 3);
    a.finish(Producer::StylesheetWorker);
    assert!(!a.is_open(Producer::StylesheetWorker));
    assert!(a.is_open(Producer::Bridge));
    assert!(!a.send(Producer::StylesheetWorker, HtmlDiscoveryMessage::HtmlDiscoveredStyle(3)));
    assert_eq!(a.len(), 3);
    a.finish(Producer::Bridge);
    assert!(!a.is_closed());
    assert!(a.send(Producer::ScriptWorker, HtmlDiscoveryMessage::HtmlDiscoveredScript(vec![])));
    a.finish(Producer::ScriptWorker);
    assert!(a.is_closed());
    assert_eq!(a.recv(), Received::Message(HtmlDiscoveryMessage::HtmlDiscoveredStyle(1)));
    assert_eq!(a.recv(), Received::Message(HtmlDiscoveryMessage::HtmlDiscoveredIFrame(frame)));
    assert_eq!(a.recv(), Received::Message(HtmlDiscoveryMessage::HtmlDiscoveredStyle(2)));
    assert_eq!(a.recv(), Received::Message(HtmlDiscoveryMessage::HtmlDiscoveredScript(vec![])));
    assert_eq!(a.recv(), Received::Closed);
    assert_eq!(a.recv(), Received::Closed);
}

#[test]
fn closed_channel_is_terminate_for_the_script_worker() {
    let mut w = ScriptWorker::new();
    assert_eq!(
        w.receive(Some(DiscoveryRequest::ScriptInline("a".to_string(), "u".to_string()))),
        ScriptAction::Continue
    );
    assert_eq!(w.receive(None), ScriptAction::Emit(vec![js("a", "u")]));
    assert_eq!(w.phase(), WorkerPhase::Exited);
    let mut v = ScriptWorker::new();
    assert_eq!(
        v.receive(Some(DiscoveryRequest::ScriptByUrl("http://h/x.js".to_string()))),
        ScriptAction::Fetch(0, "http://h/x.js".to_string())
    );
    assert_eq!(v.receive(Some(DiscoveryRequest::Terminate)), ScriptAction::Continue);
    assert_eq!(v.phase(), WorkerPhase::Draining);
}

#[test]
fn closed_channel_is_terminate_for_the_stylesheet_worker() {
    let mut w: StylesheetWorker<u8> = StylesheetWorker::new();
    assert_eq!(w.receive(Some(DiscoveryRequest::StylesheetByUrl("http://h/a.css".to_string()))), Some(0));
    assert_eq!(w.receive(Some(DiscoveryRequest::ScriptByUrl("http://h/a.js".to_string()))), None);
    assert_eq!(w.outstanding(), 1);
    assert_eq!(w.phase(), WorkerPhase::Running);
    assert_eq!(w.receive(None), None);
    assert_eq!(w.phase(), WorkerPhase::Draining);
    assert_eq!(w.receive(Some(DiscoveryRequest::StylesheetByUrl("http://h/b.css".to_string()))), None);
    assert_eq!(w.complete(0, Ok(1)), vec![1]);
    assert_eq!(w.phase(), WorkerPhase::Exited);
    let mut v: StylesheetWorker<u8> = StylesheetWorker::new();
    assert_eq!(v.receive(Some(DiscoveryRequest::Terminate)), None);
    assert_eq!(v.phase(), WorkerPhase::Exited);
}
