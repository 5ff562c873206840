//! Frontmatter extraction from a markdown event stream.
//!
//! A frontmatter region is delimited by two rule markers.  Soft breaks
//! before the opening rule are skipped; any other leading event is
//! malformed.  Inside the region, text events accumulate into a buffer; a
//! soft break or the end of an element flushes the buffer as one
//! `key: value` entry, split on the first colon with the value trimmed.  A
//! flushed entry without a colon is malformed.  The second rule marker ends
//! the region and leaves the stream positioned at the body.

use vstd::prelude::*;

use crate::errors::FrontmatterError;
use crate::events::{EventRep, MdEvent};
use crate::strmap::StrMap;
use crate::text::{find_colon, next_colon, lemma_next_colon_bounds, spec_trim, trim_str};

verus! {

/// The `key: value` entry that a flushed buffer denotes: the text before
/// the first colon, and the trimmed text after it.  A buffer without a
/// colon denotes no entry.
pub open spec fn fm_entry(buf: Seq<char>) -> Option<(Seq<char>, Seq<char>)> {
    let p = next_colon(buf, 0);
    if p >= buf.len() {
        None
    } else {
        Some((buf.take(p), spec_trim(buf.subrange(p + 1, buf.len() as int))))
    }
}

/// Parsing inside the frontmatter region, with the entries seen so far in
/// `m` and the text of the current entry in `buf`.
pub open spec fn fm_inside(evs: Seq<EventRep>, m: Map<Seq<char>, Seq<char>>, buf: Seq<char>) -> Result<
    (Map<Seq<char>, Seq<char>>, Seq<EventRep>),
    (),
>
    decreases evs.len(),
{
    if evs.len() == 0 {
        Ok((m, Seq::empty()))
    } else {
        let rest = evs.drop_first();
        match evs.first() {
            EventRep::Rule => Ok((m, rest)),
            EventRep::SoftBreak => match fm_entry(buf) {
                None => Err(()),
                Some(kv) => fm_inside(rest, m.insert(kv.0, kv.1), Seq::empty()),
            },
            EventRep::CodeEnd => match fm_entry(buf) {
                None => Err(()),
                Some(kv) => fm_inside(rest, m.insert(kv.0, kv.1), Seq::empty()),
            },
            EventRep::OtherEnd(_) => match fm_entry(buf) {
                None => Err(()),
                Some(kv) => fm_inside(rest, m.insert(kv.0, kv.1), Seq::empty()),
            },
            EventRep::Text(t) => fm_inside(rest, m, buf + t),
            _ => fm_inside(rest, m, buf),
        }
    }
}

/// Parsing before the frontmatter region: soft breaks are skipped, a rule
/// marker opens the region, anything else is malformed.
pub open spec fn fm_parse(evs: Seq<EventRep>) -> Result<
    (Map<Seq<char>, Seq<char>>, Seq<EventRep>),
    (),
>
    decreases evs.len(),
{
    if evs.len() == 0 {
        Ok((Map::empty(), Seq::empty()))
    } else {
        match evs.first() {
            EventRep::Rule => fm_inside(evs.drop_first(), Map::empty(), Seq::empty()),
            EventRep::SoftBreak => fm_parse(evs.drop_first()),
            _ => Err(()),
        }
    }
}

/// Extracts the frontmatter mapping from the head of an event stream and
/// returns it with the remaining body events.
pub fn parse_frontmatter(events: Vec<MdEvent>) -> (r: Result<
    (StrMap, Vec<MdEvent>),
    FrontmatterError,
>)
    ensures
        r is Ok <==> fm_parse(events.deep_view()) is Ok,
        r matches Ok(p) ==> fm_parse(events.deep_view()) == Ok::<_, ()>(
            (p.0@, p.1.deep_view()),
        ),
{
    let ghost evs0 = events.deep_view();
    let mut evs = events;
    loop
        invariant_except_break
            fm_parse(evs0) == fm_parse(evs.deep_view()),
        invariant
            evs0 == events.deep_view(),
        ensures
            fm_parse(evs0) == fm_inside(
                evs.deep_view(),
                Map::<Seq<char>, Seq<char>>::empty(),
                Seq::<char>::empty(),
            ),
        decreases evs.len(),
    {
        if evs.len() == 0 {
            proof {
                assert(evs.deep_view() =~= Seq::<EventRep>::empty());
            }
            return Ok((StrMap::new(), evs));
        }
        let ghost dv = evs.deep_view();
        let ev = evs.remove(0);
        proof {
            assert(evs.deep_view() =~= dv.drop_first());
        }
        match ev {
            MdEvent::Rule => {
                proof {
                    assert(dv.first() == EventRep::Rule);
                }
                break ;
            },
            MdEvent::SoftBreak => {},
            _ => {
                return Err(FrontmatterError::Malformed);
            },
        }
    }
    let mut fm = StrMap::new();
    let mut building = String::new();
    loop
        invariant
            evs0 == events.deep_view(),
            fm_parse(evs0) == fm_inside(evs.deep_view(), fm@, building@),
        decreases evs.len(),
    {
        if evs.len() == 0 {
            proof {
                assert(evs.deep_view() =~= Seq::<EventRep>::empty());
            }
            return Ok((fm, evs));
        }
        let ghost dv = evs.deep_view();
        let ev = evs.remove(0);
        proof {
            assert(evs.deep_view() =~= dv.drop_first());
        }
        match ev {
            MdEvent::Rule => {
                return Ok((fm, evs));
            },
            MdEvent::SoftBreak | MdEvent::CodeEnd | MdEvent::OtherEnd(_) => {
                let n = building.as_str().unicode_len();
                let colon = find_colon(building.as_str());
                if colon >= n {
                    return Err(FrontmatterError::Malformed);
                }
                let key = String::from_str(building.as_str().substring_char(0, colon));
                let value = trim_str(building.as_str().substring_char(colon + 1, n));
                proof {
                    assert(building@.take(colon as int) =~= building@.subrange(0, colon as int));
                }
                fm.insert(key, value);
                building = String::new();
            },
            MdEvent::Text(t) => {
                building.append(t.as_str());
            },
            _ => {},
        }
    }
}

/// The event stream of a frontmatter body: each line as one text event
/// followed by a soft break.
pub open spec fn line_events(lines: Seq<Seq<char>>) -> Seq<EventRep>
    decreases lines.len(),
{
    if lines.len() == 0 {
        Seq::empty()
    } else {
        seq![EventRep::Text(lines.first()), EventRep::SoftBreak] + line_events(lines.drop_first())
    }
}

/// The mapping a list of `key: value` lines denotes, over `acc`: each
/// line split on its first colon, the value trimmed, later lines
/// overwriting earlier ones.
pub open spec fn lines_map(lines: Seq<Seq<char>>, acc: Map<Seq<char>, Seq<char>>) -> Map<
    Seq<char>,
    Seq<char>,
>
    decreases lines.len(),
{
    if lines.len() == 0 {
        acc
    } else {
        let l = lines.first();
        let p = next_colon(l, 0);
        lines_map(
            lines.drop_first(),
            acc.insert(l.take(p), spec_trim(l.subrange(p + 1, l.len() as int))),
        )
    }
}

proof fn lemma_fm_inside_lines(
    lines: Seq<Seq<char>>,
    rest: Seq<EventRep>,
    m: Map<Seq<char>, Seq<char>>,
)
    requires
        forall|k: int| 0 <= k < lines.len() ==> next_colon(#[trigger] lines[k], 0) < lines[k].len(),
    ensures
        fm_inside(line_events(lines) + seq![EventRep::Rule] + rest, m, Seq::empty()) == Ok::<
            _,
            (),
        >((lines_map(lines, m), rest)),
    decreases lines.len(),
{
    if lines.len() == 0 {
        let evs = line_events(lines) + seq![EventRep::Rule] + rest;
        assert(evs.first() == EventRep::Rule);
        assert(evs.drop_first() =~= rest);
    } else {
        let l = lines.first();
        let p = next_colon(l, 0);
        lemma_next_colon_bounds(l, 0);
        let tail = line_events(lines.drop_first()) + seq![EventRep::Rule] + rest;
        let evs = line_events(lines) + seq![EventRep::Rule] + rest;
        assert(evs.first() == EventRep::Text(l));
        let evs1 = evs.drop_first();
        assert(evs1.first() == EventRep::SoftBreak);
        let evs2 = evs1.drop_first();
        assert(evs2 =~= tail);
        assert(Seq::<char>::empty() + l =~= l);
        assert(fm_entry(l) == Some((l.take(p), spec_trim(l.subrange(p + 1, l.len() as int)))));
        let m1 = m.insert(l.take(p), spec_trim(l.subrange(p + 1, l.len() as int)));
        assert(fm_inside(evs, m, Seq::empty()) == fm_inside(evs1, m, Seq::<char>::empty() + l));
        assert(fm_inside(evs1, m, l) == fm_inside(evs2, m1, Seq::empty()));
        assert(forall|k: int|
            0 <= k < lines.drop_first().len() ==> next_colon(
                #[trigger] lines.drop_first()[k],
                0,
            ) < lines.drop_first()[k].len());
        lemma_fm_inside_lines(lines.drop_first(), rest, m1);
        assert(fm_inside(tail, m1, Seq::empty()) == Ok::<_, ()>(
            (lines_map(lines.drop_first(), m1), rest),
        ));
        assert(lines_map(lines, m) == lines_map(lines.drop_first(), m1));
    }
}

/// A well-formed frontmatter block parses to exactly its entries: for a
/// region of `key: value` lines between two rule markers, the result is
/// the mapping of every line's key to its trimmed value — characters
/// kept as they are — and the stream is left at the body.
pub proof fn lemma_frontmatter_block(lines: Seq<Seq<char>>, rest: Seq<EventRep>)
    requires
        forall|k: int| 0 <= k < lines.len() ==> next_colon(#[trigger] lines[k], 0) < lines[k].len(),
    ensures
        fm_parse(
            seq![EventRep::Rule] + line_events(lines) + seq![EventRep::Rule] + rest,
        ) == Ok::<_, ()>((lines_map(lines, Map::empty()), rest)),
{
    let evs = seq![EventRep::Rule] + line_events(lines) + seq![EventRep::Rule] + rest;
    assert(evs.first() == EventRep::Rule);
    assert(evs.drop_first() =~= line_events(lines) + seq![EventRep::Rule] + rest);
    lemma_fm_inside_lines(lines, rest, Map::empty());
}

} // verus!
