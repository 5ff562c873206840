//! The placeholder engine: rendering a template against an argument
//! context.
//!
//! A placeholder is a `{{name(arg,...)}}` function call: a nonempty run of
//! lowercase letters and underscores, a parenthesized nonempty run of the
//! same characters and commas, all between double braces.  Rendering is
//! two-phase: every placeholder is first found and evaluated against the
//! original, unmodified template text and the one argument context, then
//! all replacements are applied, so no evaluation observes another's
//! substitution.  The closed function set is `val` (argument lookup),
//! `opt` (a binary text choice), and `layout` (recursive inclusion of a
//! stored template, bounded in depth).  An `opt` call with fewer than
//! three arguments is not a recognized form.

use vstd::prelude::*;

use crate::errors::{RenderError, RenderErrorRep};
use crate::strmap::StrMap;
use crate::text::{
    is_arg, is_arg_char, is_name, is_name_char, replace_all, replace_all_from, split_commas,
    split_on_commas, str_eq,
};

verus! {

/// How many nested template inclusions a single render call may make.
pub const LAYOUT_RECURSION_LIMIT: usize = 32;

/// The id a layout file's path denotes: the path with the layouts
/// directory prefix dropped and every occurrence of the layout suffix
/// removed, so files in nested subdirectories keep their separators.
pub open spec fn spec_layout_id(path: Seq<char>) -> Seq<char> {
    replace_all_from(path.skip("./layouts/"@.len() as int), ".layout.html"@, Seq::empty(), 0)
}

/// Derives a template id from a layout file's path under the layouts
/// directory.
pub fn layout_id(path: &str) -> (r: String)
    requires
        path@.len() >= 10,
    ensures
        r@ == spec_layout_id(path@),
{
    proof {
        reveal_strlit("");
        reveal_strlit("./layouts/");
        reveal_strlit(".layout.html");
    }
    let n = path.unicode_len();
    let rest = path.substring_char(10, n);
    let r = replace_all(rest, ".layout.html", "");
    proof {
        assert(""@ =~= Seq::<char>::empty());
        assert(path@.subrange(10, n as int) =~= path@.skip(10));
    }
    r
}

/// One placeholder occurrence: its character offsets in the template
/// text, the function name, and the raw argument text.
pub struct MatchRep {
    pub start: int,
    pub end: int,
    pub name: Seq<char>,
    pub args: Seq<char>,
}

/// The end of the run of name characters that starts at `i`.
pub open spec fn name_run(s: Seq<char>, i: int) -> int
    recommends
        0 <= i <= s.len(),
    decreases s.len() - i when 0 <= i <= s.len()
{
    if i >= s.len() {
        i
    } else if is_name_char(s[i]) {
        name_run(s, i + 1)
    } else {
        i
    }
}

/// The end of the run of argument characters that starts at `i`.
pub open spec fn arg_run(s: Seq<char>, i: int) -> int
    recommends
        0 <= i <= s.len(),
    decreases s.len() - i when 0 <= i <= s.len()
{
    if i >= s.len() {
        i
    } else if is_arg_char(s[i]) {
        arg_run(s, i + 1)
    } else {
        i
    }
}

proof fn lemma_name_run_bounds(s: Seq<char>, i: int)
    requires
        0 <= i <= s.len(),
    ensures
        i <= name_run(s, i) <= s.len(),
    decreases s.len() - i,
{
    if i < s.len() && is_name_char(s[i]) {
        lemma_name_run_bounds(s, i + 1);
    }
}

proof fn lemma_arg_run_bounds(s: Seq<char>, i: int)
    requires
        0 <= i <= s.len(),
    ensures
        i <= arg_run(s, i) <= s.len(),
    decreases s.len() - i,
{
    if i < s.len() && is_arg_char(s[i]) {
        lemma_arg_run_bounds(s, i + 1);
    }
}

/// The placeholder that starts exactly at offset `i`, if any.  Runs are
/// maximal, and the delimiters around them are required, so the match at
/// a given offset is unique.
pub open spec fn match_at(s: Seq<char>, i: int) -> Option<MatchRep>
    recommends
        0 <= i <= s.len(),
{
    if i + 2 > s.len() || s[i] != '{' || s[i + 1] != '{' {
        None
    } else {
        let ne = name_run(s, i + 2);
        if ne == i + 2 || ne >= s.len() || s[ne] != '(' {
            None
        } else {
            let ae = arg_run(s, ne + 1);
            if ae == ne + 1 || ae + 3 > s.len() || s[ae] != ')' || s[ae + 1] != '}' || s[ae + 2]
                != '}' {
                None
            } else {
                Some(
                    MatchRep {
                        start: i,
                        end: ae + 3,
                        name: s.subrange(i + 2, ne),
                        args: s.subrange(ne + 1, ae),
                    },
                )
            }
        }
    }
}

pub proof fn lemma_match_at_bounds(s: Seq<char>, i: int)
    requires
        0 <= i <= s.len(),
    ensures
        match match_at(s, i) {
            Some(m) => m.start == i && i < m.end <= s.len(),
            None => true,
        },
{
    if i + 2 <= s.len() && s[i] == '{' && s[i + 1] == '{' {
        lemma_name_run_bounds(s, i + 2);
        let ne = name_run(s, i + 2);
        if ne > i + 2 && ne < s.len() && s[ne] == '(' {
            lemma_arg_run_bounds(s, ne + 1);
        }
    }
}

/// All placeholders of `s` at or after offset `i`, leftmost first and
/// non-overlapping.
pub open spec fn scan_from(s: Seq<char>, i: int) -> Seq<MatchRep>
    recommends
        0 <= i <= s.len(),
    decreases s.len() - i when 0 <= i <= s.len()
    via scan_from_dec
{
    if i >= s.len() {
        Seq::empty()
    } else {
        match match_at(s, i) {
            Some(m) => seq![m] + scan_from(s, m.end),
            None => scan_from(s, i + 1),
        }
    }
}

#[via_fn]
proof fn scan_from_dec(s: Seq<char>, i: int) {
    lemma_match_at_bounds(s, i);
}

/// Well-formed match offsets: in bounds, ascending, non-overlapping, and
/// at or after `from`.
pub open spec fn matches_wf(text: Seq<char>, ms: Seq<MatchRep>, from: int) -> bool
    decreases ms.len(),
{
    if ms.len() == 0 {
        0 <= from <= text.len()
    } else {
        &&& 0 <= from <= ms.first().start
        &&& ms.first().start <= ms.first().end <= text.len()
        &&& matches_wf(text, ms.drop_first(), ms.first().end)
    }
}

pub proof fn lemma_scan_wf(s: Seq<char>, i: int)
    requires
        0 <= i <= s.len(),
    ensures
        matches_wf(s, scan_from(s, i), i),
    decreases s.len() - i,
{
    if i < s.len() {
        lemma_match_at_bounds(s, i);
        match match_at(s, i) {
            Some(m) => {
                lemma_scan_wf(s, m.end);
                assert((seq![m] + scan_from(s, m.end)).drop_first() =~= scan_from(s, m.end));
            },
            None => {
                lemma_scan_wf(s, i + 1);
                lemma_wf_weaken(s, scan_from(s, i + 1), i + 1, i);
            },
        }
    }
}

proof fn lemma_wf_weaken(text: Seq<char>, ms: Seq<MatchRep>, from: int, from2: int)
    requires
        matches_wf(text, ms, from),
        0 <= from2 <= from,
    ensures
        matches_wf(text, ms, from2),
    decreases ms.len(),
{
}

/// The result of evaluating one placeholder function call, or of an
/// entire render: the produced text, or the first error.
pub open spec fn eval_call(
    name: Seq<char>,
    ps: Seq<Seq<char>>,
    args: Map<Seq<char>, Seq<char>>,
    store: Map<Seq<char>, Seq<char>>,
    depth: nat,
) -> Result<Seq<char>, RenderErrorRep>
    decreases depth, 0nat, 0nat,
{
    if name == "val"@ {
        if args.contains_key(ps[0]) {
            Ok(args[ps[0]])
        } else {
            Err(RenderErrorRep::ArgumentNotFound(ps[0]))
        }
    } else if name == "opt"@ {
        if ps.len() < 3 {
            Err(RenderErrorRep::UnrecognizedFunction(name))
        } else if args.contains_key(ps[0]) && args[ps[0]] == "true"@ {
            Ok(ps[1])
        } else {
            Ok(ps[2])
        }
    } else if name == "layout"@ {
        if depth == 0 {
            Err(RenderErrorRep::RecursionTooDeep)
        } else {
            spec_render_named(ps[0], args, store, (depth - 1) as nat)
        }
    } else {
        Err(RenderErrorRep::UnrecognizedFunction(name))
    }
}

/// The values of a list of placeholders, evaluated left to right against
/// the same context; the first error aborts.
pub open spec fn eval_matches(
    ms: Seq<MatchRep>,
    args: Map<Seq<char>, Seq<char>>,
    store: Map<Seq<char>, Seq<char>>,
    depth: nat,
) -> Result<Seq<Seq<char>>, RenderErrorRep>
    decreases depth, 1nat, ms.len(),
{
    if ms.len() == 0 {
        Ok(Seq::empty())
    } else {
        match eval_call(ms.first().name, split_commas(ms.first().args), args, store, depth) {
            Err(e) => Err(e),
            Ok(v) => match eval_matches(ms.drop_first(), args, store, depth) {
                Err(e) => Err(e),
                Ok(vs) => Ok(seq![v] + vs),
            },
        }
    }
}

/// The template text with each placeholder replaced by its value: the
/// text between matches is kept, each match's span is replaced.
pub open spec fn substitute(
    text: Seq<char>,
    ms: Seq<MatchRep>,
    vals: Seq<Seq<char>>,
    from: int,
) -> Seq<char>
    decreases ms.len(),
{
    if ms.len() == 0 {
        text.subrange(from, text.len() as int)
    } else {
        text.subrange(from, ms.first().start) + vals.first() + substitute(
            text,
            ms.drop_first(),
            vals.drop_first(),
            ms.first().end,
        )
    }
}

/// A full render of `text`: scan for all placeholders, evaluate each
/// against the unmodified text and context, then apply all replacements.
pub open spec fn spec_render(
    text: Seq<char>,
    args: Map<Seq<char>, Seq<char>>,
    store: Map<Seq<char>, Seq<char>>,
    depth: nat,
) -> Result<Seq<char>, RenderErrorRep>
    decreases depth, 2nat, 0nat,
{
    let ms = scan_from(text, 0);
    match eval_matches(ms, args, store, depth) {
        Err(e) => Err(e),
        Ok(vals) => Ok(substitute(text, ms, vals, 0)),
    }
}

/// A render of the stored template named `name`.
pub open spec fn spec_render_named(
    name: Seq<char>,
    args: Map<Seq<char>, Seq<char>>,
    store: Map<Seq<char>, Seq<char>>,
    depth: nat,
) -> Result<Seq<char>, RenderErrorRep>
    decreases depth, 3nat, 0nat,
{
    if store.contains_key(name) {
        spec_render(store[name], args, store, depth)
    } else {
        Err(RenderErrorRep::TemplateNotFound(name))
    }
}

/// One placeholder occurrence as the scanner reports it.
struct PMatch {
    start: usize,
    end: usize,
    name: String,
    args: String,
}

impl View for PMatch {
    type V = MatchRep;

    closed spec fn view(&self) -> MatchRep {
        MatchRep {
            start: self.start as int,
            end: self.end as int,
            name: self.name@,
            args: self.args@,
        }
    }
}

impl DeepView for PMatch {
    type V = MatchRep;

    closed spec fn deep_view(&self) -> MatchRep {
        self.view()
    }
}

/// The placeholder starting exactly at offset `i`, if any.
fn try_match(text: &str, i: usize) -> (r: Option<PMatch>)
    requires
        i < text@.len(),
    ensures
        match r {
            Some(pm) => match_at(text@, i as int) == Some(pm@) && pm.start == i && i < pm.end
                <= text@.len(),
            None => match_at(text@, i as int) is None,
        },
{
    let n = text.unicode_len();
    if n - i < 2 {
        return None;
    }
    if text.get_char(i) != '{' || text.get_char(i + 1) != '{' {
        return None;
    }
    let mut j = i + 2;
    while j < n && is_name(text.get_char(j))
        invariant
            n == text@.len(),
            i + 2 <= j <= n,
            name_run(text@, j as int) == name_run(text@, (i + 2) as int),
        decreases n - j,
    {
        j = j + 1;
    }
    assert(j as int == name_run(text@, (i + 2) as int));
    if j == i + 2 {
        return None;
    }
    if j >= n || text.get_char(j) != '(' {
        return None;
    }
    let mut k = j + 1;
    while k < n && is_arg(text.get_char(k))
        invariant
            n == text@.len(),
            j + 1 <= k <= n,
            arg_run(text@, k as int) == arg_run(text@, (j + 1) as int),
        decreases n - k,
    {
        k = k + 1;
    }
    assert(k as int == arg_run(text@, (j + 1) as int));
    if k == j + 1 {
        return None;
    }
    if n - k < 3 {
        return None;
    }
    if text.get_char(k) != ')' || text.get_char(k + 1) != '}' || text.get_char(k + 2) != '}' {
        return None;
    }
    let name = String::from_str(text.substring_char(i + 2, j));
    let args = String::from_str(text.substring_char(j + 1, k));
    Some(PMatch { start: i, end: k + 3, name, args })
}

/// Finds every placeholder of `text`, leftmost first.
fn scan_placeholders(text: &str) -> (r: Vec<PMatch>)
    ensures
        r.deep_view() == scan_from(text@, 0),
{
    let n = text.unicode_len();
    let mut found: Vec<PMatch> = Vec::new();
    let mut i: usize = 0;
    while i < n
        invariant
            n == text@.len(),
            0 <= i <= n,
            scan_from(text@, 0) == found.deep_view() + scan_from(text@, i as int),
        decreases n - i,
    {
        match try_match(text, i) {
            Some(pm) => {
                let e = pm.end;
                let ghost dv0 = found.deep_view();
                let ghost pmv = pm@;
                found.push(pm);
                proof {
                    assert(found.deep_view() =~= dv0 + seq![pmv]);
                    assert(scan_from(text@, i as int) == seq![pmv] + scan_from(text@, pmv.end));
                    assert(found.deep_view() + scan_from(text@, e as int) =~= dv0 + scan_from(
                        text@,
                        i as int,
                    ));
                }
                i = e;
            },
            None => {
                proof {
                    assert(scan_from(text@, i as int) == scan_from(text@, i + 1));
                }
                i = i + 1;
            },
        }
    }
    proof {
        assert(scan_from(text@, n as int) =~= Seq::<MatchRep>::empty());
        assert(found.deep_view() + Seq::<MatchRep>::empty() =~= found.deep_view());
    }
    found
}

/// Renders stored templates against argument contexts.
pub struct Renderer {
    templates: StrMap,
}

impl View for Renderer {
    type V = Map<Seq<char>, Seq<char>>;

    closed spec fn view(&self) -> Map<Seq<char>, Seq<char>> {
        self.templates@
    }
}

impl Renderer {
    /// Constructs a renderer over a store of templates.
    pub fn new(templates: StrMap) -> (r: Renderer)
        ensures
            r@ == templates@,
    {
        Renderer { templates }
    }

    /// Renders the stored template named `layout_name` with `args`,
    /// replacing every placeholder; recursive inclusions share the same
    /// context and are bounded in depth.
    pub fn render_layout(&self, layout_name: &str, args: &StrMap) -> (r: Result<
        String,
        RenderError,
    >)
        ensures
            match r {
                Ok(s) => spec_render_named(
                    layout_name@,
                    args@,
                    self@,
                    LAYOUT_RECURSION_LIMIT as nat,
                ) == Ok::<_, RenderErrorRep>(s@),
                Err(e) => spec_render_named(
                    layout_name@,
                    args@,
                    self@,
                    LAYOUT_RECURSION_LIMIT as nat,
                ) == Err::<Seq<char>, _>(e@),
            },
    {
        self.render_named(layout_name, args, LAYOUT_RECURSION_LIMIT)
    }

    /// Looks a template up and renders it.
    fn render_named(&self, name: &str, args: &StrMap, depth: usize) -> (r: Result<
        String,
        RenderError,
    >)
        ensures
            match r {
                Ok(s) => spec_render_named(name@, args@, self@, depth as nat) == Ok::<
                    _,
                    RenderErrorRep,
                >(s@),
                Err(e) => spec_render_named(name@, args@, self@, depth as nat) == Err::<
                    Seq<char>,
                    _,
                >(e@),
            },
        decreases depth, 3int,
    {
        match self.templates.get(name) {
            None => Err(RenderError::TemplateNotFound(String::from_str(name))),
            Some(t) => {
                let text = t.clone();
                self.render_text(text.as_str(), args, depth)
            },
        }
    }

    /// Renders raw template text: scans it, evaluates every placeholder
    /// against the unmodified text, then applies all replacements.
    fn render_text(&self, text: &str, args: &StrMap, depth: usize) -> (r: Result<
        String,
        RenderError,
    >)
        ensures
            match r {
                Ok(s) => spec_render(text@, args@, self@, depth as nat) == Ok::<
                    _,
                    RenderErrorRep,
                >(s@),
                Err(e) => spec_render(text@, args@, self@, depth as nat) == Err::<Seq<char>, _>(
                    e@,
                ),
            },
        decreases depth, 2int,
    {
        let ms = scan_placeholders(text);
        let ghost msdv = ms.deep_view();
        proof {
            lemma_scan_wf(text@, 0);
        }
        // Phase one: evaluate every placeholder against the original text.
        let mut vals: Vec<String> = Vec::new();
        let mut k: usize = 0;
        proof {
            assert(msdv.skip(0) =~= msdv);
            assert(vals.deep_view() =~= Seq::<Seq<char>>::empty());
            match eval_matches(msdv, args@, self@, depth as nat) {
                Ok(vs) => {
                    assert(Seq::<Seq<char>>::empty() + vs =~= vs);
                },
                Err(_) => {},
            }
        }
        while k < ms.len()
            invariant
                msdv == ms.deep_view(),
                msdv == scan_from(text@, 0),
                0 <= k <= ms.len() == msdv.len(),
                vals@.len() == k,
                eval_matches(msdv, args@, self@, depth as nat) == match eval_matches(
                    msdv.skip(k as int),
                    args@,
                    self@,
                    depth as nat,
                ) {
                    Ok(vs) => Ok::<_, RenderErrorRep>(vals.deep_view() + vs),
                    Err(e) => Err::<Seq<Seq<char>>, _>(e),
                },
            decreases ms.len() - k,
        {
            let pieces = split_on_commas(ms[k].args.as_str());
            proof {
                assert(msdv.skip(k as int).first() == msdv[k as int]);
                assert(split_commas(ms[k as int].args@).len() >= 1);
                assert(pieces.deep_view()[0] == pieces@[0]@);
            }
            let v = match self.apply_placeholder_function(
                ms[k].name.as_str(),
                &pieces,
                args,
                depth,
            ) {
                Ok(v) => v,
                Err(e) => {
                    proof {
                        assert(eval_matches(msdv.skip(k as int), args@, self@, depth as nat)
                            == Err::<Seq<Seq<char>>, _>(e@));
                    }
                    return Err(e);
                },
            };
            let ghost vals0 = vals.deep_view();
            let ghost vv = v@;
            vals.push(v);
            proof {
                assert(vals.deep_view() =~= vals0 + seq![vv]);
                assert(msdv.skip(k as int).drop_first() =~= msdv.skip(k + 1));
                match eval_matches(msdv.skip(k + 1), args@, self@, depth as nat) {
                    Ok(vs) => {
                        assert(vals0 + (seq![vv] + vs) =~= (vals0 + seq![vv]) + vs);
                    },
                    Err(_) => {},
                }
            }
            k = k + 1;
        }
        proof {
            assert(msdv.skip(msdv.len() as int) =~= Seq::<MatchRep>::empty());
            assert(vals.deep_view() + Seq::<Seq<char>>::empty() =~= vals.deep_view());
        }
        // Phase two: apply the replacements over the original text.
        let ghost valsdv = vals.deep_view();
        let n = text.unicode_len();
        let mut out = String::new();
        let mut pos: usize = 0;
        let mut k: usize = 0;
        proof {
            assert(msdv.skip(0) =~= msdv);
            assert(valsdv.skip(0) =~= valsdv);
            assert(Seq::<char>::empty() + substitute(text@, msdv, valsdv, 0) =~= substitute(
                text@,
                msdv,
                valsdv,
                0,
            ));
        }
        while k < ms.len()
            invariant
                msdv == ms.deep_view(),
                n == text@.len(),
                valsdv == vals.deep_view(),
                0 <= k <= ms.len() == msdv.len(),
                vals@.len() == msdv.len(),
                matches_wf(text@, msdv.skip(k as int), pos as int),
                pos <= n,
                substitute(text@, msdv, valsdv, 0) == out@ + substitute(
                    text@,
                    msdv.skip(k as int),
                    valsdv.skip(k as int),
                    pos as int,
                ),
            decreases ms.len() - k,
        {
            proof {
                assert(msdv.skip(k as int).first() == msdv[k as int]);
                assert(valsdv.skip(k as int).first() == valsdv[k as int]);
                assert(valsdv.skip(k as int).first() == vals@[k as int]@);
            }
            let start = ms[k].start;
            let end = ms[k].end;
            out.append(text.substring_char(pos, start));
            out.append(vals[k].as_str());
            proof {
                assert(msdv.skip(k as int).drop_first() =~= msdv.skip(k + 1));
                assert(valsdv.skip(k as int).drop_first() =~= valsdv.skip(k + 1));
            }
            pos = end;
            k = k + 1;
        }
        out.append(text.substring_char(pos, n));
        proof {
            assert(msdv.skip(msdv.len() as int) =~= Seq::<MatchRep>::empty());
            assert(valsdv.skip(msdv.len() as int) =~= Seq::<Seq<char>>::empty());
        }
        Ok(out)
    }

    /// Evaluates one placeholder function call: `val` looks its argument
    /// up in the context, `opt` chooses between its two literal tokens by
    /// whether its flag argument is the string `true`, and `layout`
    /// renders the named stored template with the same context.
    pub fn apply_placeholder_function(
        &self,
        f: &str,
        f_args: &Vec<String>,
        t_args: &StrMap,
        depth: usize,
    ) -> (r: Result<String, RenderError>)
        requires
            f@ == "val"@ || f@ == "layout"@ ==> f_args@.len() >= 1,
        ensures
            match r {
                Ok(s) => eval_call(f@, f_args.deep_view(), t_args@, self@, depth as nat) == Ok::<
                    _,
                    RenderErrorRep,
                >(s@),
                Err(e) => eval_call(f@, f_args.deep_view(), t_args@, self@, depth as nat) == Err::<
                    Seq<char>,
                    _,
                >(e@),
            },
        decreases depth, 0int,
    {
        if str_eq(f, "val") {
            proof {
                assert(f_args.deep_view()[0] == f_args@[0]@);
            }
            match t_args.get(f_args[0].as_str()) {
                Some(v) => Ok(v.clone()),
                None => Err(RenderError::ArgumentNotFound(f_args[0].clone())),
            }
        } else if str_eq(f, "opt") {
            if f_args.len() < 3 {
                return Err(RenderError::UnrecognizedFunction(String::from_str(f)));
            }
            proof {
                assert(f_args.deep_view()[0] == f_args@[0]@);
                assert(f_args.deep_view()[1] == f_args@[1]@);
                assert(f_args.deep_view()[2] == f_args@[2]@);
            }
            let chosen = match t_args.get(f_args[0].as_str()) {
                Some(v) => str_eq(v.as_str(), "true"),
                None => false,
            };
            if chosen {
                Ok(f_args[1].clone())
            } else {
                Ok(f_args[2].clone())
            }
        } else if str_eq(f, "layout") {
            proof {
                assert(f_args.deep_view()[0] == f_args@[0]@);
            }
            if depth == 0 {
                return Err(RenderError::RecursionTooDeep);
            }
            self.render_named(f_args[0].as_str(), t_args, depth - 1)
        } else {
            Err(RenderError::UnrecognizedFunction(String::from_str(f)))
        }
    }
}

/// The `opt` function is a pure text choice: with its three tokens it
/// yields the second exactly when the flag argument is bound to the
/// string `true`, and the third otherwise — the tokens themselves are
/// never looked up.
pub proof fn lemma_opt_choice(
    ps: Seq<Seq<char>>,
    args: Map<Seq<char>, Seq<char>>,
    store: Map<Seq<char>, Seq<char>>,
    depth: nat,
)
    requires
        ps.len() >= 3,
    ensures
        eval_call("opt"@, ps, args, store, depth) == Ok::<_, RenderErrorRep>(
            if args.contains_key(ps[0]) && args[ps[0]] == "true"@ {
                ps[1]
            } else {
                ps[2]
            },
        ),
{
    reveal_strlit("opt");
    reveal_strlit("val");
    assert(("opt"@)[0] != ("val"@)[0]);
}

/// The `val` function is exactly an argument lookup: the bound value
/// when the name is bound, and `ArgumentNotFound` naming it otherwise.
pub proof fn lemma_val_lookup(
    ps: Seq<Seq<char>>,
    args: Map<Seq<char>, Seq<char>>,
    store: Map<Seq<char>, Seq<char>>,
    depth: nat,
)
    requires
        ps.len() >= 1,
    ensures
        eval_call("val"@, ps, args, store, depth) == if args.contains_key(ps[0]) {
            Ok::<_, RenderErrorRep>(args[ps[0]])
        } else {
            Err::<Seq<char>, _>(RenderErrorRep::ArgumentNotFound(ps[0]))
        },
{
}

/// A `layout` inclusion splices in a full render of the named stored
/// template, reusing the same argument context, one level deeper.
pub proof fn lemma_layout_inclusion(
    ps: Seq<Seq<char>>,
    args: Map<Seq<char>, Seq<char>>,
    store: Map<Seq<char>, Seq<char>>,
    depth: nat,
)
    requires
        ps.len() >= 1,
        depth > 0,
    ensures
        eval_call("layout"@, ps, args, store, depth) == spec_render_named(
            ps[0],
            args,
            store,
            (depth - 1) as nat,
        ),
{
    reveal_strlit("layout");
    reveal_strlit("val");
    reveal_strlit("opt");
    assert(("layout"@).len() != ("val"@).len());
    assert(("layout"@).len() != ("opt"@).len());
}

/// A template whose first placeholder includes itself through `layout`
/// fails with `RecursionTooDeep` at every depth, rather than recursing
/// without bound.
pub proof fn lemma_layout_self_recursion(
    name: Seq<char>,
    args: Map<Seq<char>, Seq<char>>,
    store: Map<Seq<char>, Seq<char>>,
    depth: nat,
)
    requires
        store.contains_key(name),
        scan_from(store[name], 0).len() >= 1,
        scan_from(store[name], 0)[0].name == "layout"@,
        split_commas(scan_from(store[name], 0)[0].args)[0] == name,
    ensures
        spec_render_named(name, args, store, depth) == Err::<Seq<char>, _>(
            RenderErrorRep::RecursionTooDeep,
        ),
    decreases depth,
{
    reveal_strlit("layout");
    reveal_strlit("val");
    reveal_strlit("opt");
    assert(("layout"@).len() != ("val"@).len());
    assert(("layout"@).len() != ("opt"@).len());
    let text = store[name];
    let ms = scan_from(text, 0);
    if depth == 0 {
        assert(eval_call(ms[0].name, split_commas(ms[0].args), args, store, depth) == Err::<
            Seq<char>,
            _,
        >(RenderErrorRep::RecursionTooDeep));
    } else {
        lemma_layout_self_recursion(name, args, store, (depth - 1) as nat);
    }
    assert(ms.first() == ms[0]);
    assert(eval_matches(ms, args, store, depth) == Err::<Seq<Seq<char>>, _>(
        RenderErrorRep::RecursionTooDeep,
    ));
}

} // verus!
