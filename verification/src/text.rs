//! Verified text utilities: character classes, equality, trimming,
//! splitting, and decimal formatting.

use vstd::prelude::*;

verus! {

/// Whitespace as frontmatter values are trimmed of it: the ASCII space,
/// tab, carriage return and line feed.
pub open spec fn is_space_char(c: char) -> bool {
    c == ' ' || c == '\t' || c == '\r' || c == '\n'
}

/// A lowercase ASCII letter.
pub open spec fn is_lower_char(c: char) -> bool {
    'a' <= c && c <= 'z'
}

/// A character of a placeholder function name.
pub open spec fn is_name_char(c: char) -> bool {
    is_lower_char(c) || c == '_'
}

/// A character of a placeholder argument list.
pub open spec fn is_arg_char(c: char) -> bool {
    is_name_char(c) || c == ','
}

/// An ASCII decimal digit.
pub open spec fn is_digit_char(c: char) -> bool {
    '0' <= c && c <= '9'
}

/// The numeric value of a decimal digit.
pub open spec fn digit_val(c: char) -> int {
    c as int - '0' as int
}

pub fn is_space(c: char) -> (r: bool)
    ensures
        r == is_space_char(c),
{
    c == ' ' || c == '\t' || c == '\r' || c == '\n'
}

pub fn is_lower(c: char) -> (r: bool)
    ensures
        r == is_lower_char(c),
{
    'a' <= c && c <= 'z'
}

pub fn is_name(c: char) -> (r: bool)
    ensures
        r == is_name_char(c),
{
    is_lower(c) || c == '_'
}

pub fn is_arg(c: char) -> (r: bool)
    ensures
        r == is_arg_char(c),
{
    is_name(c) || c == ','
}

pub fn is_digit(c: char) -> (r: bool)
    ensures
        r == is_digit_char(c),
{
    '0' <= c && c <= '9'
}

/// Character-sequence equality of two string slices.
pub fn str_eq(a: &str, b: &str) -> (r: bool)
    ensures
        r == (a@ == b@),
{
    let n = a.unicode_len();
    if n != b.unicode_len() {
        return false;
    }
    let mut i: usize = 0;
    while i < n
        invariant
            n == a@.len(),
            n == b@.len(),
            i <= n,
            forall|j: int| 0 <= j < i ==> a@[j] == b@[j],
        decreases n - i,
    {
        if a.get_char(i) != b.get_char(i) {
            return false;
        }
        i = i + 1;
    }
    proof {
        assert(a@ =~= b@);
    }
    true
}

/// The first index at or after `i` that does not hold whitespace, or the
/// length of `s` if only whitespace follows.
pub open spec fn skip_spaces(s: Seq<char>, i: int) -> int
    recommends
        0 <= i <= s.len(),
    decreases s.len() - i when 0 <= i <= s.len()
{
    if i >= s.len() {
        i
    } else if is_space_char(s[i]) {
        skip_spaces(s, i + 1)
    } else {
        i
    }
}

/// The index just after the last non-whitespace character strictly before
/// `i`, or 0 if only whitespace precedes.
pub open spec fn rskip_spaces(s: Seq<char>, i: int) -> int
    recommends
        0 <= i <= s.len(),
    decreases i when 0 <= i <= s.len()
{
    if i <= 0 {
        0
    } else if is_space_char(s[i - 1]) {
        rskip_spaces(s, i - 1)
    } else {
        i
    }
}

/// `s` with leading and trailing whitespace removed.
pub open spec fn spec_trim(s: Seq<char>) -> Seq<char> {
    let lo = skip_spaces(s, 0);
    if lo == s.len() {
        Seq::<char>::empty()
    } else {
        s.subrange(lo, rskip_spaces(s, s.len() as int))
    }
}

proof fn lemma_rskip_spaces_bounds(s: Seq<char>, i: int, lo: int)
    requires
        0 <= lo < i <= s.len(),
        !is_space_char(s[lo]),
    ensures
        lo < rskip_spaces(s, i) <= i,
        rskip_spaces(s, i) > 0 ==> !is_space_char(s[rskip_spaces(s, i) - 1]),
    decreases i,
{
    if is_space_char(s[i - 1]) {
        if lo < i - 1 {
            lemma_rskip_spaces_bounds(s, i - 1, lo);
        }
    }
}

/// A copy of `s` with leading and trailing whitespace removed.
pub fn trim_str(s: &str) -> (r: String)
    ensures
        r@ == spec_trim(s@),
{
    let n = s.unicode_len();
    let mut start: usize = 0;
    while start < n && is_space(s.get_char(start))
        invariant
            n == s@.len(),
            0 <= start <= n,
            skip_spaces(s@, start as int) == skip_spaces(s@, 0),
        decreases n - start,
    {
        start = start + 1;
    }
    assert(start as int == skip_spaces(s@, 0));
    if start == n {
        return String::new();
    }
    let mut end: usize = n;
    while end > start && is_space(s.get_char(end - 1))
        invariant
            n == s@.len(),
            start < end <= n,
            !is_space_char(s@[start as int]),
            rskip_spaces(s@, end as int) == rskip_spaces(s@, n as int),
        decreases end,
    {
        proof {
            lemma_rskip_spaces_bounds(s@, end as int, start as int);
        }
        end = end - 1;
    }
    assert(end as int == rskip_spaces(s@, n as int));
    String::from_str(s.substring_char(start, end))
}

/// The first index at or after `i` holding a colon, or the length of `s`.
pub open spec fn next_colon(s: Seq<char>, i: int) -> int
    recommends
        0 <= i <= s.len(),
    decreases s.len() - i when 0 <= i <= s.len()
{
    if i >= s.len() {
        i
    } else if s[i] == ':' {
        i
    } else {
        next_colon(s, i + 1)
    }
}

pub proof fn lemma_next_colon_bounds(s: Seq<char>, i: int)
    requires
        0 <= i <= s.len(),
    ensures
        i <= next_colon(s, i) <= s.len(),
    decreases s.len() - i,
{
    if i < s.len() && s[i] != ':' {
        lemma_next_colon_bounds(s, i + 1);
    }
}

/// The index of the first colon of `s`, or its length if it has none.
pub fn find_colon(s: &str) -> (r: usize)
    ensures
        r == next_colon(s@, 0),
        r <= s@.len(),
{
    let n = s.unicode_len();
    let mut i: usize = 0;
    while i < n && s.get_char(i) != ':'
        invariant
            n == s@.len(),
            0 <= i <= n,
            next_colon(s@, i as int) == next_colon(s@, 0),
        decreases n - i,
    {
        i = i + 1;
    }
    proof {
        lemma_next_colon_bounds(s@, 0);
    }
    i
}

/// The first index at or after `i` holding a comma, or the length of `s`.
pub open spec fn next_comma(s: Seq<char>, i: int) -> int
    recommends
        0 <= i <= s.len(),
    decreases s.len() - i when 0 <= i <= s.len()
{
    if i >= s.len() {
        i
    } else if s[i] == ',' {
        i
    } else {
        next_comma(s, i + 1)
    }
}

proof fn lemma_next_comma_bounds(s: Seq<char>, i: int)
    requires
        0 <= i <= s.len(),
    ensures
        i <= next_comma(s, i) <= s.len(),
    decreases s.len() - i,
{
    if i < s.len() && s[i] != ',' {
        lemma_next_comma_bounds(s, i + 1);
    }
}

/// The pieces of `s[i..]` split on commas; always at least one piece.
pub open spec fn split_commas_from(s: Seq<char>, i: int) -> Seq<Seq<char>>
    recommends
        0 <= i <= s.len(),
    decreases s.len() - i when 0 <= i <= s.len()
    via split_commas_from_dec
{
    let j = next_comma(s, i);
    if j >= s.len() {
        seq![s.subrange(i, s.len() as int)]
    } else {
        seq![s.subrange(i, j)] + split_commas_from(s, j + 1)
    }
}

#[via_fn]
proof fn split_commas_from_dec(s: Seq<char>, i: int) {
    lemma_next_comma_bounds(s, i);
}

/// The pieces of `s` split on commas.
pub open spec fn split_commas(s: Seq<char>) -> Seq<Seq<char>> {
    split_commas_from(s, 0)
}

/// Splits a string into its comma-separated pieces.
pub fn split_on_commas(s: &str) -> (r: Vec<String>)
    ensures
        r.deep_view() == split_commas(s@),
{
    let n = s.unicode_len();
    let mut pieces: Vec<String> = Vec::new();
    let mut i: usize = 0;
    loop
        invariant
            n == s@.len(),
            0 <= i <= n,
            split_commas(s@) == pieces.deep_view() + split_commas_from(s@, i as int),
        decreases n - i,
    {
        proof {
            lemma_next_comma_bounds(s@, i as int);
        }
        let mut j: usize = i;
        while j < n && s.get_char(j) != ','
            invariant
                n == s@.len(),
                i <= j <= n,
                next_comma(s@, j as int) == next_comma(s@, i as int),
            decreases n - j,
        {
            j = j + 1;
        }
        assert(j as int == next_comma(s@, i as int));
        let ghost dv0 = pieces.deep_view();
        let piece = String::from_str(s.substring_char(i, j));
        pieces.push(piece);
        proof {
            assert(pieces.deep_view() =~= dv0 + seq![s@.subrange(i as int, j as int)]);
        }
        if j == n {
            proof {
                assert(split_commas_from(s@, i as int) == seq![
                    s@.subrange(i as int, n as int),
                ]);
                assert(pieces.deep_view() =~= dv0 + split_commas_from(s@, i as int));
            }
            return pieces;
        }
        proof {
            assert(split_commas_from(s@, i as int) == seq![s@.subrange(i as int, j as int)]
                + split_commas_from(s@, j + 1));
            assert(pieces.deep_view() + split_commas_from(s@, j + 1) =~= dv0
                + split_commas_from(s@, i as int));
        }
        i = j + 1;
    }
}

/// Whether `pat` occurs in `s` at offset `i`.
pub open spec fn occurs_at(s: Seq<char>, pat: Seq<char>, i: int) -> bool {
    0 <= i && i + pat.len() <= s.len() && s.subrange(i, i + pat.len()) == pat
}

/// `s[i..]` with every occurrence of `pat` replaced by `rep`, leftmost
/// first and non-overlapping.
pub open spec fn replace_all_from(s: Seq<char>, pat: Seq<char>, rep: Seq<char>, i: int) -> Seq<char>
    recommends
        0 <= i <= s.len(),
        pat.len() >= 1,
    decreases s.len() - i when 0 <= i <= s.len() && pat.len() >= 1
{
    if i >= s.len() {
        Seq::empty()
    } else if occurs_at(s, pat, i) {
        rep + replace_all_from(s, pat, rep, i + pat.len())
    } else {
        seq![s[i]] + replace_all_from(s, pat, rep, i + 1)
    }
}

/// Whether `pat` occurs in `s` at offset `i`; `i` and the pattern must
/// fit inside `s`.
fn occurs_here(s: &str, pat: &str, i: usize) -> (r: bool)
    requires
        i + pat@.len() <= s@.len() <= usize::MAX,
    ensures
        r == occurs_at(s@, pat@, i as int),
{
    let m = pat.unicode_len();
    let piece = s.substring_char(i, i + m);
    str_eq(piece, pat)
}

/// Replaces every occurrence of `pat` in `s` with `rep`, leftmost first
/// and non-overlapping.
pub fn replace_all(s: &str, pat: &str, rep: &str) -> (r: String)
    requires
        pat@.len() >= 1,
    ensures
        r@ == replace_all_from(s@, pat@, rep@, 0),
{
    let n = s.unicode_len();
    let m = pat.unicode_len();
    let mut out = String::new();
    let mut i: usize = 0;
    proof {
        assert(Seq::<char>::empty() + replace_all_from(s@, pat@, rep@, 0) =~= replace_all_from(
            s@,
            pat@,
            rep@,
            0,
        ));
    }
    while i < n
        invariant
            n == s@.len(),
            m == pat@.len(),
            m >= 1,
            0 <= i <= n,
            replace_all_from(s@, pat@, rep@, 0) == out@ + replace_all_from(
                s@,
                pat@,
                rep@,
                i as int,
            ),
        decreases n - i,
    {
        let ghost out0 = out@;
        if n - i >= m && occurs_here(s, pat, i) {
            out.append(rep);
            proof {
                assert(out0 + (rep@ + replace_all_from(s@, pat@, rep@, i + m)) =~= (out0 + rep@)
                    + replace_all_from(s@, pat@, rep@, i + m));
            }
            i = i + m;
        } else {
            out.append(s.substring_char(i, i + 1));
            proof {
                assert(s@.subrange(i as int, i + 1) =~= seq![s@[i as int]]);
                assert(out0 + (seq![s@[i as int]] + replace_all_from(s@, pat@, rep@, i + 1)) =~= (
                out0 + seq![s@[i as int]]) + replace_all_from(s@, pat@, rep@, i + 1));
            }
            i = i + 1;
        }
    }
    proof {
        assert(replace_all_from(s@, pat@, rep@, n as int) =~= Seq::<char>::empty());
        assert(out@ + Seq::<char>::empty() =~= out@);
    }
    out
}

/// The decimal digit character for a value below ten.
pub open spec fn digit_char(n: int) -> char {
    if n == 0 {
        '0'
    } else if n == 1 {
        '1'
    } else if n == 2 {
        '2'
    } else if n == 3 {
        '3'
    } else if n == 4 {
        '4'
    } else if n == 5 {
        '5'
    } else if n == 6 {
        '6'
    } else if n == 7 {
        '7'
    } else if n == 8 {
        '8'
    } else {
        '9'
    }
}

/// The decimal representation of `n`, without padding.
pub open spec fn dec_rep(n: int) -> Seq<char>
    recommends
        n >= 0,
    decreases n when n >= 0
{
    if n < 10 {
        seq![digit_char(n)]
    } else {
        dec_rep(n / 10).push(digit_char(n % 10))
    }
}

/// The decimal representation of `n`, zero-padded to two places.
pub open spec fn dec_rep2(n: int) -> Seq<char>
    recommends
        n >= 0,
{
    if n < 10 {
        seq!['0'].push(digit_char(n))
    } else {
        dec_rep(n)
    }
}

fn digit_str(n: u32) -> (r: &'static str)
    requires
        n < 10,
    ensures
        r@ == seq![digit_char(n as int)],
{
    proof {
        reveal_strlit("0");
        reveal_strlit("1");
        reveal_strlit("2");
        reveal_strlit("3");
        reveal_strlit("4");
        reveal_strlit("5");
        reveal_strlit("6");
        reveal_strlit("7");
        reveal_strlit("8");
        reveal_strlit("9");
    }
    let r = if n == 0 {
        "0"
    } else if n == 1 {
        "1"
    } else if n == 2 {
        "2"
    } else if n == 3 {
        "3"
    } else if n == 4 {
        "4"
    } else if n == 5 {
        "5"
    } else if n == 6 {
        "6"
    } else if n == 7 {
        "7"
    } else if n == 8 {
        "8"
    } else {
        "9"
    };
    proof {
        assert(r@ =~= seq![digit_char(n as int)]);
    }
    r
}

/// Formats `n` in decimal.
pub fn u32_to_string(n: u32) -> (r: String)
    ensures
        r@ == dec_rep(n as int),
    decreases n,
{
    if n < 10 {
        String::from_str(digit_str(n))
    } else {
        let mut s = u32_to_string(n / 10);
        s.append(digit_str(n % 10));
        proof {
            assert(s@ =~= dec_rep((n / 10) as int).push(digit_char((n % 10) as int)));
        }
        s
    }
}

/// Formats `n` in decimal, zero-padded to two places.
pub fn u32_to_string2(n: u32) -> (r: String)
    ensures
        r@ == dec_rep2(n as int),
{
    if n < 10 {
        let mut s = String::from_str(digit_str(0));
        s.append(digit_str(n));
        proof {
            assert(s@ =~= seq!['0'].push(digit_char(n as int)));
            assert(seq![digit_char(0)] =~= seq!['0']);
        }
        s
    } else {
        u32_to_string(n)
    }
}

} // verus!
