use sitegen::markdown::{render_body, render_events};
use sitegen::MdEvent;

#[test]
fn text_outside_code_blocks_passes_through() {
    let events = vec![
        MdEvent::Text("hello".to_string()),
        MdEvent::SoftBreak,
        MdEvent::Text("world".to_string()),
    ];
    let out = render_events(events).unwrap();
    assert_eq!(out.len(), 3);
    assert!(matches!(&out[0], MdEvent::Text(t) if t == "hello"));
}

#[test]
fn code_block_becomes_one_html_fragment() {
    let events = vec![
        MdEvent::Text("before".to_string()),
        MdEvent::CodeStart(None),
        MdEvent::Text("a < b".to_string()),
        MdEvent::Text(" && c".to_string()),
        MdEvent::CodeEnd,
        MdEvent::Text("after".to_string()),
    ];
    let out = render_events(events).unwrap();
    assert_eq!(out.len(), 3);
    match &out[1] {
        MdEvent::Html(h) => {
            assert!(h.contains("<pre"));
            assert!(h.contains("&lt;"));
            assert!(h.contains("&amp;&amp;"));
        }
        _ => panic!("expected the block to be replaced by one HTML fragment"),
    }
}

#[test]
fn empty_code_block_still_produces_a_fragment() {
    let events = vec![MdEvent::CodeStart(Some("rs".to_string())), MdEvent::CodeEnd];
    let out = render_events(events).unwrap();
    assert_eq!(out.len(), 1);
    assert!(matches!(&out[0], MdEvent::Html(_)));
}

#[test]
fn stray_code_end_is_dropped() {
    let events = vec![MdEvent::CodeEnd, MdEvent::Text("x".to_string())];
    let out = render_events(events).unwrap();
    assert_eq!(out.len(), 1);
    assert!(matches!(&out[0], MdEvent::Text(t) if t == "x"));
}

#[test]
fn unclosed_code_block_drops_its_text() {
    let events = vec![
        MdEvent::Text("kept".to_string()),
        MdEvent::CodeStart(None),
        MdEvent::Text("never closed".to_string()),
    ];
    let out = render_events(events).unwrap();
    assert_eq!(out.len(), 1);
    assert!(matches!(&out[0], MdEvent::Text(t) if t == "kept"));
}

#[test]
fn body_serializes_to_html() {
    let events = vec![
        MdEvent::Text("plain".to_string()),
        MdEvent::CodeStart(None),
        MdEvent::Text("x < 1".to_string()),
        MdEvent::CodeEnd,
    ];
    let html = render_body(events).unwrap();
    assert!(html.contains("plain"));
    assert!(html.contains("&lt;"));
}
