//! Markdown body rendering: a one-pass state machine over the event
//! stream that intercepts fenced code blocks for syntax highlighting.
//!
//! Outside a code block, events pass through unchanged.  A code-block
//! start switches the machine into its accumulating state and records the
//! block's language tag; text events are then collected instead of being
//! forwarded.  The block's end hands the accumulated text to the
//! highlighter and splices the returned fragment into the stream as one
//! raw-HTML event.  An unrecognized or absent language tag falls back to
//! plain text inside the highlighter and is never an error; only a failure
//! of the highlighting engine itself aborts the render.

use vstd::prelude::*;

use crate::events::{events_to_html, html_of, EventRep, MdEvent};

verus! {

/// The renderer's state: passing events through, or accumulating the text
/// of a code block with language tag `lang`.
pub enum CodeState {
    Normal,
    InCode { lang: Option<Seq<char>>, acc: Seq<char> },
}

/// The language tag handed to the highlighter: the fenced block's tag, or
/// the empty string for an indented block.
pub open spec fn lang_tag(lang: Option<Seq<char>>) -> Seq<char> {
    match lang {
        Some(l) => l,
        None => Seq::empty(),
    }
}

/// What the syntax highlighter returns for a code block: a self-contained
/// HTML fragment, or the engine's error message.  The default syntax and
/// theme sets are compiled into the library, so the outcome is a function
/// of the code and the language tag alone.
pub uninterp spec fn highlight_res(code: Seq<char>, lang: Seq<char>) -> Result<
    Seq<char>,
    Seq<char>,
>;

/// Relies on syntect: `SyntaxSet::load_defaults_newlines` and
/// `ThemeSet::load_defaults` load the compiled-in defaults,
/// `find_syntax_by_extension` resolves the language tag — falling back to
/// `find_syntax_plain_text` when the tag is unknown, so resolution never
/// fails — and `highlighted_html_for_string` produces the fragment.  All
/// are deterministic functions of the code and tag.
#[verifier::external_body]
fn highlight_block(code: &str, lang: &str) -> (r: Result<String, String>)
    ensures
        match r {
            Ok(h) => highlight_res(code@, lang@) == Ok::<Seq<char>, Seq<char>>(h@),
            Err(m) => highlight_res(code@, lang@) == Err::<Seq<char>, Seq<char>>(m@),
        },
{
    let ss = syntect::parsing::SyntaxSet::load_defaults_newlines();
    let ts = syntect::highlighting::ThemeSet::load_defaults();
    let theme = &ts.themes["base16-eighties.dark"];
    let syntax = match ss.find_syntax_by_extension(lang) {
        Some(s) => s,
        None => ss.find_syntax_plain_text(),
    };
    match syntect::html::highlighted_html_for_string(code, &ss, syntax, theme) {
        Ok(h) => Ok(h),
        Err(e) => Err(e.to_string()),
    }
}

/// The event stream after code-block interception, or the highlighter's
/// error message.
pub open spec fn process_events(evs: Seq<EventRep>, st: CodeState) -> Result<
    Seq<EventRep>,
    Seq<char>,
>
    decreases evs.len(),
{
    if evs.len() == 0 {
        Ok(Seq::empty())
    } else {
        let rest = evs.drop_first();
        match st {
            CodeState::Normal => match evs.first() {
                EventRep::CodeStart(l) => process_events(
                    rest,
                    CodeState::InCode { lang: l, acc: Seq::empty() },
                ),
                EventRep::CodeEnd => process_events(rest, CodeState::Normal),
                _ => match process_events(rest, CodeState::Normal) {
                    Ok(out) => Ok(seq![evs.first()] + out),
                    Err(m) => Err(m),
                },
            },
            CodeState::InCode { lang, acc } => match evs.first() {
                EventRep::Text(t) => process_events(
                    rest,
                    CodeState::InCode { lang, acc: acc + t },
                ),
                EventRep::CodeEnd => match highlight_res(acc, lang_tag(lang)) {
                    Ok(h) => match process_events(rest, CodeState::Normal) {
                        Ok(out) => Ok(seq![EventRep::Html(h)] + out),
                        Err(m) => Err(m),
                    },
                    Err(m) => Err(m),
                },
                EventRep::CodeStart(l2) => process_events(
                    rest,
                    CodeState::InCode { lang: l2, acc },
                ),
                _ => match process_events(rest, CodeState::InCode { lang, acc }) {
                    Ok(out) => Ok(seq![evs.first()] + out),
                    Err(m) => Err(m),
                },
            },
        }
    }
}

/// Runs the code-block state machine over an event stream.
pub fn render_events(events: Vec<MdEvent>) -> (r: Result<Vec<MdEvent>, String>)
    ensures
        match r {
            Ok(out) => process_events(events.deep_view(), CodeState::Normal) == Ok::<_, Seq<char>>(
                out.deep_view(),
            ),
            Err(m) => process_events(events.deep_view(), CodeState::Normal) == Err::<
                Seq<EventRep>,
                _,
            >(m@),
        },
{
    let ghost evs0 = events.deep_view();
    let mut evs = events;
    let mut out: Vec<MdEvent> = Vec::new();
    let mut in_code = false;
    let mut lang: Option<String> = None;
    let mut acc = String::new();
    loop
        invariant
            evs0 == events.deep_view(),
            ({
                let st = if in_code {
                    CodeState::InCode { lang: lang.deep_view(), acc: acc@ }
                } else {
                    CodeState::Normal
                };
                process_events(evs0, CodeState::Normal) == match process_events(
                    evs.deep_view(),
                    st,
                ) {
                    Ok(o) => Ok::<_, Seq<char>>(out.deep_view() + o),
                    Err(m) => Err::<Seq<EventRep>, _>(m),
                }
            }),
        decreases evs.len(),
    {
        let ghost st_in = if in_code {
            CodeState::InCode { lang: lang.deep_view(), acc: acc@ }
        } else {
            CodeState::Normal
        };
        if evs.len() == 0 {
            proof {
                assert(evs.deep_view() =~= Seq::<EventRep>::empty());
                assert(out.deep_view() + Seq::<EventRep>::empty() =~= out.deep_view());
            }
            return Ok(out);
        }
        let ghost dv = evs.deep_view();
        let ev = evs.remove(0);
        proof {
            assert(evs.deep_view() =~= dv.drop_first());
            assert(dv.first() == ev.deep_view());
        }
        match ev {
            MdEvent::CodeStart(l) => {
                if in_code {
                    lang = l;
                } else {
                    in_code = true;
                    lang = l;
                    acc = String::new();
                }
            },
            MdEvent::Text(t) => {
                if in_code {
                    acc.append(t.as_str());
                } else {
                    let ghost out0 = out.deep_view();
                    out.push(MdEvent::Text(t));
                    proof {
                        assert(out.deep_view() =~= out0 + seq![dv.first()]);
                        lemma_compose_shift(evs0, out0, dv.first(), evs.deep_view(), st_in);
                    }
                }
            },
            MdEvent::CodeEnd => {
                if in_code {
                    let tag_ref: &str = match &lang {
                        Some(l) => l.as_str(),
                        None => "",
                    };
                    proof {
                        reveal_strlit("");
                        assert(""@ =~= Seq::<char>::empty());
                    }
                    match highlight_block(acc.as_str(), tag_ref) {
                        Ok(h) => {
                            let ghost out0 = out.deep_view();
                            out.push(MdEvent::Html(h));
                            proof {
                                assert(out.deep_view() =~= out0 + seq![
                                    EventRep::Html(highlight_res(acc@, lang_tag(lang.deep_view()))->Ok_0),
                                ]);
                                lemma_compose_shift(
                                    evs0,
                                    out0,
                                    EventRep::Html(
                                        highlight_res(acc@, lang_tag(lang.deep_view()))->Ok_0,
                                    ),
                                    evs.deep_view(),
                                    CodeState::Normal,
                                );
                            }
                            in_code = false;
                            lang = None;
                            acc = String::new();
                        },
                        Err(m) => {
                            return Err(m);
                        },
                    }
                }
            },
            e => {
                let ghost out0 = out.deep_view();
                out.push(e);
                proof {
                    assert(out.deep_view() =~= out0 + seq![dv.first()]);
                    lemma_compose_shift(evs0, out0, dv.first(), evs.deep_view(), st_in);
                }
            },
        }
    }
}

/// Prefixing one pass-through event onto the pending output commutes with
/// the composition that the render loop maintains.
proof fn lemma_compose_shift(
    evs0: Seq<EventRep>,
    out0: Seq<EventRep>,
    e: EventRep,
    rest: Seq<EventRep>,
    st: CodeState,
)
    requires
        process_events(evs0, CodeState::Normal) == match process_events(rest, st) {
            Ok(o) => Ok::<_, Seq<char>>(out0 + (seq![e] + o)),
            Err(m) => Err::<Seq<EventRep>, _>(m),
        },
    ensures
        process_events(evs0, CodeState::Normal) == match process_events(rest, st) {
            Ok(o) => Ok::<_, Seq<char>>((out0 + seq![e]) + o),
            Err(m) => Err::<Seq<EventRep>, _>(m),
        },
{
    match process_events(rest, st) {
        Ok(o) => {
            assert(out0 + (seq![e] + o) =~= (out0 + seq![e]) + o);
        },
        Err(_) => {},
    }
}

/// The HTML of a body event stream: the stream after code-block
/// interception, serialized; or the highlighter's error message.
pub open spec fn body_html(evs: Seq<EventRep>) -> Result<Seq<char>, Seq<char>> {
    match process_events(evs, CodeState::Normal) {
        Ok(out) => Ok(html_of(out)),
        Err(m) => Err(m),
    }
}

/// Renders a body event stream to HTML.
pub fn render_body(events: Vec<MdEvent>) -> (r: Result<String, String>)
    ensures
        r is Ok <==> body_html(events.deep_view()) is Ok,
        r matches Ok(h) ==> body_html(events.deep_view()) == Ok::<_, Seq<char>>(h@),
        r matches Err(m) ==> body_html(events.deep_view()) == Err::<Seq<char>, _>(m@),
{
    match render_events(events) {
        Ok(out) => Ok(events_to_html(out)),
        Err(m) => Err(m),
    }
}

/// A render fails only when the highlighting engine fails: every error
/// the state machine can produce is some code block's highlight error.
/// No event shape — in particular no unrecognized language tag — is an
/// error of its own.
pub proof fn lemma_process_error_is_highlight(evs: Seq<EventRep>, st: CodeState)
    ensures
        process_events(evs, st) matches Err(m) ==> exists|code: Seq<char>, lang: Seq<char>|
            highlight_res(code, lang) == Err::<Seq<char>, Seq<char>>(m),
    decreases evs.len(),
{
    if evs.len() == 0 {
    } else {
        let rest = evs.drop_first();
        match st {
            CodeState::Normal => match evs.first() {
                EventRep::CodeStart(l) => {
                    lemma_process_error_is_highlight(
                        rest,
                        CodeState::InCode { lang: l, acc: Seq::empty() },
                    );
                },
                EventRep::CodeEnd => {
                    lemma_process_error_is_highlight(rest, CodeState::Normal);
                },
                _ => {
                    lemma_process_error_is_highlight(rest, CodeState::Normal);
                },
            },
            CodeState::InCode { lang, acc } => match evs.first() {
                EventRep::Text(t) => {
                    lemma_process_error_is_highlight(
                        rest,
                        CodeState::InCode { lang, acc: acc + t },
                    );
                },
                EventRep::CodeEnd => {
                    lemma_process_error_is_highlight(rest, CodeState::Normal);
                    match highlight_res(acc, lang_tag(lang)) {
                        Ok(_) => {},
                        Err(m) => {
                            assert(highlight_res(acc, lang_tag(lang)) == Err::<
                                Seq<char>,
                                Seq<char>,
                            >(m));
                        },
                    }
                },
                EventRep::CodeStart(l2) => {
                    lemma_process_error_is_highlight(rest, CodeState::InCode { lang: l2, acc });
                },
                _ => {
                    lemma_process_error_is_highlight(rest, CodeState::InCode { lang, acc });
                },
            },
        }
    }
}

} // verus!
