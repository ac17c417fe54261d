use html_discovery::dom::{
    build_element_from_tag, find_attribute, name_breaker, valid_attribute_name, Attribute,
    Document, IFrameSize, NodeHandle, QuirksMode,
};
use html_discovery::element::{element_type_for, ElementTypeId, HeadingLevel};
use html_discovery::msg::{DomError, PipelineId, SubpageId};
use html_discovery::text::{
    chars_of, contains_token, html_space, slice_eq_ignore_ascii_case, spells, str_eq,
    str_has_token, to_ascii_lower,
};

#[test]
fn html_space_characters_are_the_five() {
    for c in [' ', '\t', '\n', '\u{c}', '\r'] {
        assert!(html_space(c));
    }
    assert!(!html_space('a'));
    assert!(!html_space('\u{b}'));
    assert!(!html_space('\u{a0}'));
}

#[test]
fn ascii_lowering_touches_capitals_only() {
    assert_eq!(to_ascii_lower('A'), 'a');
    assert_eq!(to_ascii_lower('Z'), 'z');
    assert_eq!(to_ascii_lower('q'), 'q');
    assert_eq!(to_ascii_lower('@'), '@');
    assert_eq!(to_ascii_lower('['), '[');
    assert_eq!(to_ascii_lower('É'), 'É');
}

#[test]
fn str_eq_compares_characters() {
    assert!(str_eq("", ""));
    assert!(str_eq("link", "link"));
    assert!(!str_eq("link", "Link"));
    assert!(!str_eq("link", "links"));
    assert!(!str_eq("links", "link"));
    assert!(str_eq("héllo", "héllo"));
}

#[test]
fn chars_of_gives_the_characters() {
    assert_eq!(chars_of("aé b"), vec!['a', 'é', ' ', 'b']);
}

#[test]
fn token_is_found_among_space_separated_words() {
    assert!(str_has_token("stylesheet", "stylesheet"));
    assert!(str_has_token("alternate stylesheet", "stylesheet"));
    assert!(str_has_token("  stylesheet\talternate", "stylesheet"));
    assert!(str_has_token("a\nStyleSheet\rb", "stylesheet"));
    assert!(str_has_token("x\u{c}STYLESHEET", "stylesheet"));
}

#[test]
fn token_must_be_a_whole_word() {
    assert!(!str_has_token("", "stylesheet"));
    assert!(!str_has_token("   ", "stylesheet"));
    assert!(!str_has_token("stylesheets", "stylesheet"));
    assert!(!str_has_token("my-stylesheet", "stylesheet"));
    assert!(!str_has_token("style sheet", "stylesheet"));
    assert!(!str_has_token("stylesheet,alternate", "stylesheet"));
    assert!(!str_has_token("icon", "stylesheet"));
}

#[test]
fn contains_token_works_on_characters() {
    let v = chars_of("one Two");
    assert!(contains_token(&v, &chars_of("two")));
    assert!(!contains_token(&v, &chars_of("tw")));
}

#[test]
fn tags_map_to_their_interfaces() {
    assert_eq!(element_type_for("a"), ElementTypeId::HTMLAnchorElement);
    assert_eq!(element_type_for("link"), ElementTypeId::HTMLLinkElement);
    assert_eq!(element_type_for("iframe"), ElementTypeId::HTMLIFrameElement);
    assert_eq!(element_type_for("script"), ElementTypeId::HTMLScriptElement);
    assert_eq!(element_type_for("video"), ElementTypeId::HTMLVideoElement);
    assert_eq!(element_type_for("tbody"), ElementTypeId::HTMLTableSectionElement);
}

#[test]
fn several_tags_share_an_interface() {
    for tag in ["aside", "b", "em", "i", "section", "small", "strong"] {
        assert_eq!(element_type_for(tag), ElementTypeId::HTMLElement);
    }
    assert_eq!(element_type_for("col"), ElementTypeId::HTMLTableColElement);
    assert_eq!(element_type_for("colgroup"), ElementTypeId::HTMLTableColElement);
    assert_eq!(element_type_for("del"), ElementTypeId::HTMLModElement);
    assert_eq!(element_type_for("ins"), ElementTypeId::HTMLModElement);
}

#[test]
fn headings_carry_their_level() {
    assert_eq!(
        element_type_for("h1"),
        ElementTypeId::HTMLHeadingElement(HeadingLevel::Heading1)
    );
    assert_eq!(
        element_type_for("h6"),
        ElementTypeId::HTMLHeadingElement(HeadingLevel::Heading6)
    );
    assert_eq!(element_type_for("h7"), ElementTypeId::HTMLUnknownElement);
}

#[test]
fn unknown_and_capitalised_tags_are_unknown_elements() {
    assert_eq!(element_type_for("blink"), ElementTypeId::HTMLUnknownElement);
    assert_eq!(element_type_for(""), ElementTypeId::HTMLUnknownElement);
    assert_eq!(element_type_for("A"), ElementTypeId::HTMLUnknownElement);
    assert_eq!(element_type_for("Link"), ElementTypeId::HTMLUnknownElement);
}

#[test]
fn new_document_has_only_its_root() {
    let d = Document::new();
    assert_eq!(d.len(), 1);
    assert_eq!(d.root(), NodeHandle(0));
    assert_eq!(d.parent(NodeHandle(0)), None);
    assert!(d.children(NodeHandle(0)).is_empty());
    assert_eq!(d.quirks_mode(), QuirksMode::NoQuirks);
    assert_eq!(d.encoding_name(), "UTF-8");
    assert!(d.contains(NodeHandle(0)));
    assert!(!d.contains(NodeHandle(1)));
}

#[test]
fn build_element_creates_a_detached_element() {
    let mut d = Document::new();
    let h = build_element_from_tag("div", &mut d);
    assert_eq!(h, NodeHandle(1));
    assert_eq!(d.len(), 2);
    assert_eq!(d.type_id(h), Some(ElementTypeId::HTMLDivElement));
    assert_eq!(d.local_name(h), Some("div".to_string()));
    assert_eq!(d.parent(h), None);
    assert!(d.children(h).is_empty());
    assert_eq!(d.get_attribute(h, "id"), None);
    assert!(d.frame(h).is_none());
}

#[test]
fn append_child_links_both_ways() {
    let mut d = Document::new();
    let html = build_element_from_tag("html", &mut d);
    let body = build_element_from_tag("body", &mut d);
    let text = d.create_text("hi");
    assert_eq!(d.append_child(d.root(), html), Ok(()));
    assert_eq!(d.append_child(html, body), Ok(()));
    assert_eq!(d.append_child(body, text), Ok(()));
    assert_eq!(d.children(d.root()), vec![html]);
    assert_eq!(d.children(html), vec![body]);
    assert_eq!(d.children(body), vec![text]);
    assert_eq!(d.parent(text), Some(body));
    assert_eq!(d.parent(body), Some(html));
    assert_eq!(d.parent(html), Some(NodeHandle(0)));
}

#[test]
fn append_child_moves_a_child_that_has_a_parent() {
    let mut d = Document::new();
    let a = build_element_from_tag("div", &mut d);
    let b = build_element_from_tag("div", &mut d);
    let x = build_element_from_tag("span", &mut d);
    let y = build_element_from_tag("span", &mut d);
    let z = build_element_from_tag("span", &mut d);
    for c in [x, y, z] {
        assert_eq!(d.append_child(a, c), Ok(()));
    }
    assert_eq!(d.append_child(b, y), Ok(()));
    assert_eq!(d.children(a), vec![x, z]);
    assert_eq!(d.children(b), vec![y]);
    assert_eq!(d.parent(y), Some(b));
    // appending again under the same parent moves the child to the end
    assert_eq!(d.append_child(a, x), Ok(()));
    assert_eq!(d.children(a), vec![z, x]);
}

#[test]
fn append_child_refuses_cycles_and_wrong_kinds() {
    let mut d = Document::new();
    let a = build_element_from_tag("div", &mut d);
    let b = build_element_from_tag("div", &mut d);
    let c = build_element_from_tag("div", &mut d);
    let text = d.create_text("t");
    let comment = d.create_comment("c");
    assert_eq!(d.append_child(a, b), Ok(()));
    assert_eq!(d.append_child(b, c), Ok(()));
    assert_eq!(d.append_child(a, a), Err(DomError::HierarchyRequest));
    assert_eq!(d.append_child(c, a), Err(DomError::HierarchyRequest));
    assert_eq!(d.append_child(b, a), Err(DomError::HierarchyRequest));
    assert_eq!(d.append_child(text, c), Err(DomError::HierarchyRequest));
    assert_eq!(d.append_child(comment, text), Err(DomError::HierarchyRequest));
    assert_eq!(d.append_child(a, d.root()), Err(DomError::HierarchyRequest));
    assert_eq!(d.append_child(a, NodeHandle(99)), Err(DomError::NotFound));
    assert_eq!(d.append_child(NodeHandle(99), a), Err(DomError::NotFound));
    // nothing changed
    assert_eq!(d.children(a), vec![b]);
    assert_eq!(d.children(b), vec![c]);
    assert_eq!(d.parent(a), None);
}

#[test]
fn attributes_are_set_replaced_and_read() {
    let mut d = Document::new();
    let e = build_element_from_tag("a", &mut d);
    assert_eq!(d.set_attribute(e, "href", "x"), Ok(()));
    assert_eq!(d.set_attribute(e, "id", "one"), Ok(()));
    assert_eq!(d.get_attribute(e, "href"), Some("x".to_string()));
    assert_eq!(d.set_attribute(e, "href", "y"), Ok(()));
    assert_eq!(d.get_attribute(e, "href"), Some("y".to_string()));
    assert_eq!(d.get_attribute(e, "id"), Some("one".to_string()));
    assert_eq!(d.get_attribute(e, "HREF"), None);
    assert_eq!(d.get_attribute(NodeHandle(42), "href"), None);
}

#[test]
fn attribute_names_are_checked() {
    assert!(valid_attribute_name("href"));
    assert!(valid_attribute_name("data-x"));
    assert!(!valid_attribute_name(""));
    assert!(!valid_attribute_name("a b"));
    assert!(!valid_attribute_name("a=b"));
    assert!(!valid_attribute_name("a/"));
    assert!(!valid_attribute_name(">"));
    assert!(!valid_attribute_name("a\0"));
    let mut d = Document::new();
    let e = build_element_from_tag("a", &mut d);
    let t = d.create_text("t");
    assert_eq!(d.set_attribute(e, "a b", "v"), Err(DomError::InvalidCharacter));
    assert_eq!(d.set_attribute(t, "id", "v"), Err(DomError::InvalidNodeType));
    assert_eq!(d.set_attribute(NodeHandle(9), "id", "v"), Err(DomError::NotFound));
    assert_eq!(d.get_attribute(e, "a b"), None);
}

#[test]
fn child_text_joins_text_children_only() {
    let mut d = Document::new();
    let s = build_element_from_tag("script", &mut d);
    let t1 = d.create_text("var a");
    let c = d.create_comment("skip");
    let t2 = d.create_text(" = 1;");
    let inner = build_element_from_tag("b", &mut d);
    let t3 = d.create_text("deep");
    for n in [t1, c, t2, inner] {
        assert_eq!(d.append_child(s, n), Ok(()));
    }
    assert_eq!(d.append_child(inner, t3), Ok(()));
    assert_eq!(d.child_text(s), "var a = 1;");
    assert_eq!(d.child_text(inner), "deep");
    assert_eq!(d.child_text(t1), "");
    assert_eq!(d.child_text(NodeHandle(77)), "");
    assert_eq!(d.character_data(t1), Some("var a".to_string()));
    assert_eq!(d.character_data(c), Some("skip".to_string()));
    assert_eq!(d.character_data(s), None);
}

#[test]
fn document_modes_are_recorded() {
    let mut d = Document::new();
    d.set_quirks_mode(QuirksMode::FullQuirks);
    d.set_encoding_name("windows-1252");
    assert_eq!(d.quirks_mode(), QuirksMode::FullQuirks);
    assert_eq!(d.encoding_name(), "windows-1252");
    let dt = d.create_doctype("html", "", "");
    assert_eq!(dt, NodeHandle(1));
    assert_eq!(d.type_id(dt), None);
}

#[test]
fn spells_compares_characters_with_a_word() {
    assert!(spells(&chars_of("link"), "link"));
    assert!(!spells(&chars_of("link"), "lin"));
    assert!(!spells(&chars_of("lin"), "link"));
    assert!(!spells(&chars_of("link"), "lynk"));
    assert!(spells(&Vec::new(), ""));
}

#[test]
fn slices_are_compared_without_case() {
    let v = chars_of("a StyleSheet b");
    let w = chars_of("stylesheet");
    assert!(slice_eq_ignore_ascii_case(&v, 2, 12, &w));
    assert!(!slice_eq_ignore_ascii_case(&v, 2, 11, &w));
    assert!(!slice_eq_ignore_ascii_case(&v, 1, 11, &w));
    assert!(slice_eq_ignore_ascii_case(&v, 5, 5, &Vec::new()));
}

#[test]
fn name_breakers_are_spaces_and_markup() {
    for c in [' ', '\t', '\n', '\u{c}', '\r', '/', '>', '=', '\0'] {
        assert!(name_breaker(c));
    }
    for c in ['a', '-', ':', '"', '<', 'é'] {
        assert!(!name_breaker(c));
    }
}

#[test]
fn find_attribute_gives_the_first_position_or_the_length() {
    let attrs = vec![
        Attribute { name: "a".to_string(), value: "1".to_string() },
        Attribute { name: "b".to_string(), value: "2".to_string() },
        Attribute { name: "a".to_string(), value: "3".to_string() },
    ];
    assert_eq!(find_attribute(&attrs, "a"), 0);
    assert_eq!(find_attribute(&attrs, "b"), 1);
    assert_eq!(find_attribute(&attrs, "c"), 3);
    assert_eq!(find_attribute(&Vec::new(), "a"), 0);
}

#[test]
fn only_frame_elements_are_bound_to_sub_documents() {
    let mut d = Document::new();
    let frame = build_element_from_tag("iframe", &mut d);
    let div = build_element_from_tag("div", &mut d);
    let text = d.create_text("t");
    let size = IFrameSize { pipeline_id: PipelineId(2), subpage_id: SubpageId(9) };
    assert_eq!(d.set_frame(frame, "http://h/f.html", size), Ok(()));
    assert_eq!(d.frame(frame), Some(("http://h/f.html".to_string(), size)));
    assert_eq!(d.set_frame(div, "http://h/f.html", size), Err(DomError::InvalidNodeType));
    assert_eq!(d.set_frame(text, "http://h/f.html", size), Err(DomError::InvalidNodeType));
    assert_eq!(d.set_frame(NodeHandle(50), "http://h/f.html", size), Err(DomError::NotFound));
    assert_eq!(d.frame(div), None);
    assert_eq!(d.frame(NodeHandle(50)), None);
    // binding again replaces the binding
    let later = IFrameSize { pipeline_id: PipelineId(2), subpage_id: SubpageId(10) };
    assert_eq!(d.set_frame(frame, "http://h/g.html", later), Ok(()));
    assert_eq!(d.frame(frame), Some(("http://h/g.html".to_string(), later)));
}
