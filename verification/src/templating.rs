//! The legacy placeholder engine: bare `{{name}}` references and
//! `{{reusable:name}}` imports.
//!
//! A placeholder is a nonempty run of letters, digits, colons, spaces and
//! dots between double braces.  Every placeholder is found first, then
//! processed and replaced from the rightmost occurrence leftwards, so the
//! recorded offsets stay valid while the text is rewritten; a failure
//! aborts the whole call with no partial output.

use vstd::prelude::*;

use crate::errors::ErrMsg;
use crate::strmap::StrMap;
use crate::text::str_eq;

verus! {

/// A character the legacy placeholder form accepts between its braces.
pub open spec fn is_bare_char(c: char) -> bool {
    ('a' <= c && c <= 'z') || ('A' <= c && c <= 'Z') || ('0' <= c && c <= '9') || c == ':' || c
        == ' ' || c == '.'
}

fn is_bare(c: char) -> (r: bool)
    ensures
        r == is_bare_char(c),
{
    ('a' <= c && c <= 'z') || ('A' <= c && c <= 'Z') || ('0' <= c && c <= '9') || c == ':' || c
        == ' ' || c == '.'
}

/// The end of the run of accepted characters that starts at `i`.
pub open spec fn bare_run(s: Seq<char>, i: int) -> int
    recommends
        0 <= i <= s.len(),
    decreases s.len() - i when 0 <= i <= s.len()
{
    if i >= s.len() {
        i
    } else if is_bare_char(s[i]) {
        bare_run(s, i + 1)
    } else {
        i
    }
}

proof fn lemma_bare_run_bounds(s: Seq<char>, i: int)
    requires
        0 <= i <= s.len(),
    ensures
        i <= bare_run(s, i) <= s.len(),
    decreases s.len() - i,
{
    if i < s.len() && is_bare_char(s[i]) {
        lemma_bare_run_bounds(s, i + 1);
    }
}

/// The offsets of one legacy placeholder occurrence.
pub struct BareMatchRep {
    pub start: int,
    pub end: int,
}

/// The legacy placeholder that starts exactly at offset `i`, if any.
pub open spec fn bare_match_at(s: Seq<char>, i: int) -> Option<BareMatchRep>
    recommends
        0 <= i <= s.len(),
{
    if i + 2 > s.len() || s[i] != '{' || s[i + 1] != '{' {
        None
    } else {
        let e = bare_run(s, i + 2);
        if e == i + 2 || e + 2 > s.len() || s[e] != '}' || s[e + 1] != '}' {
            None
        } else {
            Some(BareMatchRep { start: i, end: e + 2 })
        }
    }
}

proof fn lemma_bare_match_at_bounds(s: Seq<char>, i: int)
    requires
        0 <= i <= s.len(),
    ensures
        match bare_match_at(s, i) {
            Some(m) => m.start == i && i < m.end <= s.len(),
            None => true,
        },
{
    if i + 2 <= s.len() && s[i] == '{' && s[i + 1] == '{' {
        lemma_bare_run_bounds(s, i + 2);
    }
}

/// All legacy placeholders of `s` at or after offset `i`.
pub open spec fn bare_scan_from(s: Seq<char>, i: int) -> Seq<BareMatchRep>
    recommends
        0 <= i <= s.len(),
    decreases s.len() - i when 0 <= i <= s.len()
    via bare_scan_from_dec
{
    if i >= s.len() {
        Seq::empty()
    } else {
        match bare_match_at(s, i) {
            Some(m) => seq![m] + bare_scan_from(s, m.end),
            None => bare_scan_from(s, i + 1),
        }
    }
}

#[via_fn]
proof fn bare_scan_from_dec(s: Seq<char>, i: int) {
    lemma_bare_match_at_bounds(s, i);
}

/// Well-formed offsets: in bounds, ascending, non-overlapping.
pub open spec fn bare_wf(text: Seq<char>, ms: Seq<BareMatchRep>, from: int) -> bool
    decreases ms.len(),
{
    if ms.len() == 0 {
        0 <= from <= text.len()
    } else {
        &&& 0 <= from <= ms.first().start
        &&& ms.first().start <= ms.first().end <= text.len()
        &&& bare_wf(text, ms.drop_first(), ms.first().end)
    }
}

proof fn lemma_bare_wf_weaken(text: Seq<char>, ms: Seq<BareMatchRep>, from: int, from2: int)
    requires
        bare_wf(text, ms, from),
        0 <= from2 <= from,
    ensures
        bare_wf(text, ms, from2),
    decreases ms.len(),
{
}

proof fn lemma_bare_scan_wf(s: Seq<char>, i: int)
    requires
        0 <= i <= s.len(),
    ensures
        bare_wf(s, bare_scan_from(s, i), i),
    decreases s.len() - i,
{
    if i < s.len() {
        lemma_bare_match_at_bounds(s, i);
        match bare_match_at(s, i) {
            Some(m) => {
                lemma_bare_scan_wf(s, m.end);
                assert((seq![m] + bare_scan_from(s, m.end)).drop_first() =~= bare_scan_from(
                    s,
                    m.end,
                ));
            },
            None => {
                lemma_bare_scan_wf(s, i + 1);
                lemma_bare_wf_weaken(s, bare_scan_from(s, i + 1), i + 1, i);
            },
        }
    }
}

/// The offset after every leading `{{` pair at or after `i`.
pub open spec fn lstrip_from(s: Seq<char>, i: int) -> int
    recommends
        0 <= i <= s.len(),
    decreases s.len() - i when 0 <= i <= s.len()
{
    if i + 2 <= s.len() && s[i] == '{' && s[i + 1] == '{' {
        lstrip_from(s, i + 2)
    } else {
        i
    }
}

/// The offset before every trailing `}}` pair at or before `j`, not
/// crossing `a`.
pub open spec fn rstrip_from(s: Seq<char>, j: int, a: int) -> int
    recommends
        0 <= a <= j <= s.len(),
    decreases j when 0 <= a <= j <= s.len()
{
    if j >= a + 2 && s[j - 1] == '}' && s[j - 2] == '}' {
        rstrip_from(s, j - 2, a)
    } else {
        j
    }
}

/// `s` with every space removed.
pub open spec fn remove_spaces(s: Seq<char>) -> Seq<char>
    decreases s.len(),
{
    if s.len() == 0 {
        Seq::empty()
    } else if s.first() == ' ' {
        remove_spaces(s.drop_first())
    } else {
        seq![s.first()] + remove_spaces(s.drop_first())
    }
}

/// Whether `p` is a prefix of `s`.
pub open spec fn starts_with(s: Seq<char>, p: Seq<char>) -> bool {
    p.len() <= s.len() && s.take(p.len() as int) == p
}

/// The text between a placeholder's braces: the leading `{{` pairs and
/// trailing `}}` pairs stripped, then every space removed.
pub open spec fn inner_text(ph: Seq<char>) -> Seq<char> {
    let a = lstrip_from(ph, 0);
    remove_spaces(ph.subrange(a, rstrip_from(ph, ph.len() as int, a)))
}

/// A parsed legacy placeholder: a bare value reference, or an import
/// from the reusable-fragment store.
pub enum Placeholder {
    Value(String),
    Import(String),
}

/// The mathematical value of a [`Placeholder`].
pub enum PlaceholderRep {
    Value(Seq<char>),
    Import(Seq<char>),
}

impl View for Placeholder {
    type V = PlaceholderRep;

    open spec fn view(&self) -> PlaceholderRep {
        match self {
            Placeholder::Value(n) => PlaceholderRep::Value(n@),
            Placeholder::Import(n) => PlaceholderRep::Import(n@),
        }
    }
}

/// The inner text with every leading repetition of the `reusable:`
/// prefix removed.
pub open spec fn strip_reusable(s: Seq<char>) -> Seq<char>
    decreases s.len()
    via strip_reusable_dec
{
    if starts_with(s, "reusable:"@) {
        strip_reusable(s.skip("reusable:"@.len() as int))
    } else {
        s
    }
}

#[via_fn]
proof fn strip_reusable_dec(s: Seq<char>) {
    reveal_strlit("reusable:");
}

/// The placeholder that a matched `{{...}}` text denotes: an import when
/// the inner text carries the `reusable:` prefix — stripped, however
/// often it repeats — else a value reference.
pub open spec fn spec_to_placeholder(ph: Seq<char>) -> PlaceholderRep {
    let inner = inner_text(ph);
    if starts_with(inner, "reusable:"@) {
        PlaceholderRep::Import(strip_reusable(inner))
    } else {
        PlaceholderRep::Value(inner)
    }
}

/// Whether `s` begins with the `reusable:` prefix.
fn has_reusable_prefix(s: &str) -> (r: bool)
    ensures
        r == starts_with(s@, "reusable:"@),
{
    proof {
        reveal_strlit("reusable:");
    }
    let n = s.unicode_len();
    if n < 9 {
        return false;
    }
    let prefix = s.substring_char(0, 9);
    let r = str_eq(prefix, "reusable:");
    proof {
        assert(s@.take(9) =~= s@.subrange(0, 9));
    }
    r
}

/// Parses one matched `{{...}}` text into a placeholder.
pub fn to_placeholder(ph: &str) -> (r: Placeholder)
    ensures
        r@ == spec_to_placeholder(ph@),
{
    let n = ph.unicode_len();
    let mut a: usize = 0;
    while n - a >= 2 && ph.get_char(a) == '{' && ph.get_char(a + 1) == '{'
        invariant
            n == ph@.len(),
            0 <= a <= n,
            lstrip_from(ph@, a as int) == lstrip_from(ph@, 0),
        decreases n - a,
    {
        a = a + 2;
    }
    assert(a as int == lstrip_from(ph@, 0));
    let mut b: usize = n;
    while b - a >= 2 && ph.get_char(b - 1) == '}' && ph.get_char(b - 2) == '}'
        invariant
            n == ph@.len(),
            a <= b <= n,
            rstrip_from(ph@, b as int, a as int) == rstrip_from(ph@, n as int, a as int),
        decreases b,
    {
        b = b - 2;
    }
    assert(b as int == rstrip_from(ph@, n as int, a as int));
    let stripped = ph.substring_char(a, b);
    let m = stripped.unicode_len();
    let ghost sv = stripped@;
    let mut inner = String::new();
    let mut i: usize = 0;
    proof {
        assert(sv.skip(0) =~= sv);
        assert(Seq::<char>::empty() + remove_spaces(sv) =~= remove_spaces(sv));
    }
    while i < m
        invariant
            m == sv.len(),
            sv == stripped@,
            0 <= i <= m,
            remove_spaces(sv) == inner@ + remove_spaces(sv.skip(i as int)),
        decreases m - i,
    {
        proof {
            assert(sv.skip(i as int).first() == sv[i as int]);
            assert(sv.skip(i as int).drop_first() =~= sv.skip(i + 1));
        }
        if stripped.get_char(i) != ' ' {
            let ghost inner0 = inner@;
            inner.append(stripped.substring_char(i, i + 1));
            proof {
                assert(stripped@.subrange(i as int, i + 1) =~= seq![sv[i as int]]);
                assert(inner0 + (seq![sv[i as int]] + remove_spaces(sv.skip(i + 1))) =~= (inner0
                    + seq![sv[i as int]]) + remove_spaces(sv.skip(i + 1)));
            }
        }
        i = i + 1;
    }
    proof {
        assert(sv.skip(m as int) =~= Seq::<char>::empty());
        assert(inner@ + Seq::<char>::empty() =~= inner@);
        assert(inner@ == inner_text(ph@));
        reveal_strlit("reusable:");
    }
    if !has_reusable_prefix(inner.as_str()) {
        return Placeholder::Value(inner);
    }
    let ghost inner0 = inner@;
    let mut name = inner;
    while has_reusable_prefix(name.as_str())
        invariant
            strip_reusable(name@) == strip_reusable(inner0),
        decreases name@.len(),
    {
        proof {
            reveal_strlit("reusable:");
        }
        let len = name.as_str().unicode_len();
        let rest = String::from_str(name.as_str().substring_char(9, len));
        proof {
            assert(rest@ =~= name@.skip(9));
        }
        name = rest;
    }
    Placeholder::Import(name)
}

/// The replacement a placeholder denotes: the named value or reusable
/// fragment, or a message naming what was not found.
pub open spec fn spec_process(
    ph: PlaceholderRep,
    values: Map<Seq<char>, Seq<char>>,
    reusables: Map<Seq<char>, Seq<char>>,
) -> Result<Seq<char>, Seq<char>> {
    match ph {
        PlaceholderRep::Value(name) => {
            if values.contains_key(name) {
                Ok(values[name])
            } else {
                Err("did not find named value: "@ + name)
            }
        },
        PlaceholderRep::Import(name) => {
            if reusables.contains_key(name) {
                Ok(reusables[name])
            } else {
                Err("did not find reusable: "@ + name)
            }
        },
    }
}

/// Resolves one placeholder against the value and reusable stores.
pub fn process_placeholder<'a>(
    ph: &Placeholder,
    values: &'a StrMap,
    reusables: &'a StrMap,
) -> (r: Result<&'a str, ErrMsg>)
    ensures
        match r {
            Ok(v) => spec_process(ph@, values@, reusables@) == Ok::<_, Seq<char>>(v@),
            Err(e) => spec_process(ph@, values@, reusables@) == Err::<Seq<char>, _>(e@),
        },
{
    match ph {
        Placeholder::Value(name) => match values.get(name.as_str()) {
            Some(v) => Ok(v.as_str()),
            None => {
                let mut m = String::from_str("did not find named value: ");
                m.append(name.as_str());
                Err(ErrMsg(m))
            },
        },
        Placeholder::Import(name) => match reusables.get(name.as_str()) {
            Some(v) => Ok(v.as_str()),
            None => {
                let mut m = String::from_str("did not find reusable: ");
                m.append(name.as_str());
                Err(ErrMsg(m))
            },
        },
    }
}

/// The replacement for the placeholder spanning `m` in `s`.
pub open spec fn bare_eval(
    s: Seq<char>,
    m: BareMatchRep,
    values: Map<Seq<char>, Seq<char>>,
    reusables: Map<Seq<char>, Seq<char>>,
) -> Result<Seq<char>, Seq<char>> {
    spec_process(spec_to_placeholder(s.subrange(m.start, m.end)), values, reusables)
}

/// The replacements of a list of placeholders, processed from the
/// rightmost leftwards; the first failure aborts.
pub open spec fn bare_eval_rev(
    s: Seq<char>,
    ms: Seq<BareMatchRep>,
    values: Map<Seq<char>, Seq<char>>,
    reusables: Map<Seq<char>, Seq<char>>,
) -> Result<Seq<Seq<char>>, Seq<char>>
    decreases ms.len(),
{
    if ms.len() == 0 {
        Ok(Seq::empty())
    } else {
        match bare_eval(s, ms.last(), values, reusables) {
            Err(e) => Err(e),
            Ok(v) => match bare_eval_rev(s, ms.drop_last(), values, reusables) {
                Err(e) => Err(e),
                Ok(vs) => Ok(vs.push(v)),
            },
        }
    }
}

/// The text with each placeholder's span replaced by its value.
pub open spec fn bare_substitute(
    text: Seq<char>,
    ms: Seq<BareMatchRep>,
    vals: Seq<Seq<char>>,
    from: int,
) -> Seq<char>
    decreases ms.len(),
{
    if ms.len() == 0 {
        text.subrange(from, text.len() as int)
    } else {
        text.subrange(from, ms.first().start) + vals.first() + bare_substitute(
            text,
            ms.drop_first(),
            vals.drop_first(),
            ms.first().end,
        )
    }
}

/// A full pass: every placeholder of `s` found, resolved against the
/// same stores, and replaced.
pub open spec fn spec_apply_placeholders(
    s: Seq<char>,
    values: Map<Seq<char>, Seq<char>>,
    reusables: Map<Seq<char>, Seq<char>>,
) -> Result<Seq<char>, Seq<char>> {
    let ms = bare_scan_from(s, 0);
    match bare_eval_rev(s, ms, values, reusables) {
        Err(e) => Err(e),
        Ok(vals) => Ok(bare_substitute(s, ms, vals, 0)),
    }
}

/// One legacy placeholder occurrence as the scanner reports it.
struct BareMatch {
    start: usize,
    end: usize,
}

impl View for BareMatch {
    type V = BareMatchRep;

    closed spec fn view(&self) -> BareMatchRep {
        BareMatchRep { start: self.start as int, end: self.end as int }
    }
}

impl DeepView for BareMatch {
    type V = BareMatchRep;

    closed spec fn deep_view(&self) -> BareMatchRep {
        self.view()
    }
}

fn bare_try_match(text: &str, i: usize) -> (r: Option<BareMatch>)
    requires
        i < text@.len(),
    ensures
        match r {
            Some(m) => bare_match_at(text@, i as int) == Some(m@) && m.start == i && i < m.end
                <= text@.len(),
            None => bare_match_at(text@, i as int) is None,
        },
{
    let n = text.unicode_len();
    if n - i < 2 {
        return None;
    }
    if text.get_char(i) != '{' || text.get_char(i + 1) != '{' {
        return None;
    }
    let mut j = i + 2;
    while j < n && is_bare(text.get_char(j))
        invariant
            n == text@.len(),
            i + 2 <= j <= n,
            bare_run(text@, j as int) == bare_run(text@, (i + 2) as int),
        decreases n - j,
    {
        j = j + 1;
    }
    assert(j as int == bare_run(text@, (i + 2) as int));
    if j == i + 2 {
        return None;
    }
    if n - j < 2 {
        return None;
    }
    if text.get_char(j) != '}' || text.get_char(j + 1) != '}' {
        return None;
    }
    Some(BareMatch { start: i, end: j + 2 })
}

fn bare_scan(text: &str) -> (r: Vec<BareMatch>)
    ensures
        r.deep_view() == bare_scan_from(text@, 0),
{
    let n = text.unicode_len();
    let mut found: Vec<BareMatch> = Vec::new();
    let mut i: usize = 0;
    while i < n
        invariant
            n == text@.len(),
            0 <= i <= n,
            bare_scan_from(text@, 0) == found.deep_view() + bare_scan_from(text@, i as int),
        decreases n - i,
    {
        match bare_try_match(text, i) {
            Some(m) => {
                let e = m.end;
                let ghost dv0 = found.deep_view();
                let ghost mv = m@;
                found.push(m);
                proof {
                    assert(found.deep_view() =~= dv0 + seq![mv]);
                    assert(bare_scan_from(text@, i as int) == seq![mv] + bare_scan_from(
                        text@,
                        mv.end,
                    ));
                    assert(found.deep_view() + bare_scan_from(text@, e as int) =~= dv0
                        + bare_scan_from(text@, i as int));
                }
                i = e;
            },
            None => {
                proof {
                    assert(bare_scan_from(text@, i as int) == bare_scan_from(text@, i + 1));
                }
                i = i + 1;
            },
        }
    }
    proof {
        assert(bare_scan_from(text@, n as int) =~= Seq::<BareMatchRep>::empty());
        assert(found.deep_view() + Seq::<BareMatchRep>::empty() =~= found.deep_view());
    }
    found
}

/// Replaces every placeholder of `s` with its value from the argument
/// store, or a reusable fragment's text for the `reusable:` form.  A
/// placeholder that cannot be fulfilled fails the whole call.
pub fn apply_placeholders(s: String, args: &StrMap, reusables: &StrMap) -> (r: Result<
    String,
    ErrMsg,
>)
    ensures
        match r {
            Ok(out) => spec_apply_placeholders(s@, args@, reusables@) == Ok::<_, Seq<char>>(out@),
            Err(e) => spec_apply_placeholders(s@, args@, reusables@) == Err::<Seq<char>, _>(e@),
        },
{
    let ms = bare_scan(s.as_str());
    let ghost msdv = ms.deep_view();
    proof {
        lemma_bare_scan_wf(s@, 0);
    }
    // Process the placeholders from the rightmost leftwards.
    let mut vals: Vec<String> = Vec::new();
    let mut k: usize = ms.len();
    proof {
        assert(msdv.take(msdv.len() as int) =~= msdv);
        assert(vals.deep_view() =~= Seq::<Seq<char>>::empty());
        match bare_eval_rev(s@, msdv, args@, reusables@) {
            Ok(vs) => {
                assert(vs + Seq::<Seq<char>>::empty() =~= vs);
            },
            Err(_) => {},
        }
    }
    while k > 0
        invariant
            msdv == ms.deep_view(),
            0 <= k <= ms@.len(),
            ms@.len() == msdv.len(),
            vals@.len() == msdv.len() - k,
            bare_wf(s@, msdv, 0),
            msdv == bare_scan_from(s@, 0),
            bare_eval_rev(s@, msdv, args@, reusables@) == match bare_eval_rev(
                s@,
                msdv.take(k as int),
                args@,
                reusables@,
            ) {
                Ok(vs) => Ok::<_, Seq<char>>(vs + vals.deep_view()),
                Err(e) => Err::<Seq<Seq<char>>, _>(e),
            },
        decreases k,
    {
        k = k - 1;
        proof {
            assert(msdv.take(k + 1).last() == msdv[k as int]);
            assert(msdv.take(k + 1).drop_last() =~= msdv.take(k as int));
            lemma_bare_wf_index(s@, msdv, 0, k as int);
            assert(msdv[k as int] == ms@[k as int].deep_view());
        }
        let start = ms[k].start;
        let end = ms[k].end;
        let full = s.as_str().substring_char(start, end);
        let ph = to_placeholder(full);
        let v = match process_placeholder(&ph, args, reusables) {
            Ok(v) => String::from_str(v),
            Err(e) => {
                return Err(e);
            },
        };
        let ghost vv = v@;
        let ghost vals0 = vals.deep_view();
        vals.insert(0, v);
        proof {
            assert(vals.deep_view() =~= seq![vv] + vals0);
            match bare_eval_rev(s@, msdv.take(k as int), args@, reusables@) {
                Ok(vs) => {
                    assert(vs.push(vv) + vals0 =~= vs + (seq![vv] + vals0));
                },
                Err(_) => {},
            }
        }
    }
    proof {
        assert(msdv.take(0) =~= Seq::<BareMatchRep>::empty());
        match bare_eval_rev(s@, msdv, args@, reusables@) {
            Ok(vs) => {
                assert(Seq::<Seq<char>>::empty() + vals.deep_view() =~= vals.deep_view());
            },
            Err(_) => {},
        }
    }
    // Apply the replacements over the original text.
    let ghost valsdv = vals.deep_view();
    let n = s.as_str().unicode_len();
    let mut out = String::new();
    let mut pos: usize = 0;
    let mut k: usize = 0;
    proof {
        assert(msdv.skip(0) =~= msdv);
        assert(valsdv.skip(0) =~= valsdv);
        assert(Seq::<char>::empty() + bare_substitute(s@, msdv, valsdv, 0) =~= bare_substitute(
            s@,
            msdv,
            valsdv,
            0,
        ));
    }
    while k < ms.len()
        invariant
            msdv == ms.deep_view(),
            n == s@.len(),
            valsdv == vals.deep_view(),
            0 <= k <= ms@.len(),
            ms@.len() == msdv.len(),
            vals@.len() == msdv.len(),
            bare_wf(s@, msdv.skip(k as int), pos as int),
            pos <= n,
            bare_substitute(s@, msdv, valsdv, 0) == out@ + bare_substitute(
                s@,
                msdv.skip(k as int),
                valsdv.skip(k as int),
                pos as int,
            ),
        decreases ms@.len() - k,
    {
        proof {
            assert(msdv.skip(k as int).first() == msdv[k as int]);
            assert(valsdv.skip(k as int).first() == valsdv[k as int]);
            assert(valsdv.skip(k as int).first() == vals@[k as int]@);
        }
        let start = ms[k].start;
        let end = ms[k].end;
        out.append(s.as_str().substring_char(pos, start));
        out.append(vals[k].as_str());
        proof {
            assert(msdv.skip(k as int).drop_first() =~= msdv.skip(k + 1));
            assert(valsdv.skip(k as int).drop_first() =~= valsdv.skip(k + 1));
        }
        pos = end;
        k = k + 1;
    }
    out.append(s.as_str().substring_char(pos, n));
    proof {
        assert(msdv.skip(msdv.len() as int) =~= Seq::<BareMatchRep>::empty());
        assert(valsdv.skip(msdv.len() as int) =~= Seq::<Seq<char>>::empty());
    }
    Ok(out)
}

/// Every well-formed match list has each span inside the text.
proof fn lemma_bare_wf_index(text: Seq<char>, ms: Seq<BareMatchRep>, from: int, k: int)
    requires
        bare_wf(text, ms, from),
        0 <= k < ms.len(),
    ensures
        0 <= ms[k].start <= ms[k].end <= text.len(),
    decreases k,
{
    if k == 0 {
    } else {
        lemma_bare_wf_index(text, ms.drop_first(), ms.first().end, k - 1);
        assert(ms.drop_first()[k - 1] == ms[k]);
    }
}

} // verus!
