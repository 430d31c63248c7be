use vstd::prelude::*;

use crate::text::chars_to_string;
use crate::text::lower_chars;
use crate::text::spec_is_space;
use crate::text::spec_lower;
use crate::text::spec_match_at;
use crate::text::spec_contains;
use crate::text::find_sub;
use crate::text::starts_with;
use crate::text::to_chars;
use crate::normalize::subvec;

verus! {

// ---------------------------------------------------------------------------
// Trimming
// ---------------------------------------------------------------------------

/// Characters trimmed from the end of an extracted phrase.
pub open spec fn spec_is_punct(c: char) -> bool {
    c == '?' || c == '.' || c == '!' || c == ','
}

/// Drops trailing punctuation.
pub open spec fn spec_trim_end_punct(s: Seq<char>) -> Seq<char>
    decreases s.len(),
{
    if s.len() > 0 && spec_is_punct(s.last()) {
        spec_trim_end_punct(s.drop_last())
    } else {
        s
    }
}

/// Drops trailing whitespace.
pub open spec fn spec_trim_end_ws(s: Seq<char>) -> Seq<char>
    decreases s.len(),
{
    if s.len() > 0 && spec_is_space(s.last()) {
        spec_trim_end_ws(s.drop_last())
    } else {
        s
    }
}

/// Drops leading whitespace.
pub open spec fn spec_trim_start_ws(s: Seq<char>) -> Seq<char>
    decreases s.len(),
{
    if s.len() > 0 && spec_is_space(s[0]) {
        spec_trim_start_ws(s.drop_first())
    } else {
        s
    }
}

/// Drops whitespace at both ends.
pub open spec fn spec_trim_ws(s: Seq<char>) -> Seq<char> {
    spec_trim_start_ws(spec_trim_end_ws(s))
}

fn trim_end_punct(v: Vec<char>) -> (r: Vec<char>)
    ensures
        r@ == spec_trim_end_punct(v@),
    decreases v@.len(),
{
    if v.len() > 0 {
        let c = v[v.len() - 1];
        if c == '?' || c == '.' || c == '!' || c == ',' {
            let rest = subvec(&v, 0, v.len() - 1);
            proof {
                assert(rest@ =~= v@.drop_last());
            }
            return trim_end_punct(rest);
        }
    }
    v
}

fn trim_end_ws(v: Vec<char>) -> (r: Vec<char>)
    ensures
        r@ == spec_trim_end_ws(v@),
    decreases v@.len(),
{
    if v.len() > 0 {
        let c = v[v.len() - 1];
        if c == ' ' || c == '\t' || c == '\n' || c == '\r' {
            let rest = subvec(&v, 0, v.len() - 1);
            proof {
                assert(rest@ =~= v@.drop_last());
            }
            return trim_end_ws(rest);
        }
    }
    v
}

fn trim_start_ws(v: Vec<char>) -> (r: Vec<char>)
    ensures
        r@ == spec_trim_start_ws(v@),
    decreases v@.len(),
{
    if v.len() > 0 {
        let c = v[0];
        if c == ' ' || c == '\t' || c == '\n' || c == '\r' {
            let rest = subvec(&v, 1, v.len());
            proof {
                assert(rest@ =~= v@.drop_first());
            }
            return trim_start_ws(rest);
        }
    }
    v
}

/// Trims whitespace from both ends.
pub fn trim_ws(v: Vec<char>) -> (r: Vec<char>)
    ensures
        r@ == spec_trim_ws(v@),
{
    trim_start_ws(trim_end_ws(v))
}

/// Whether a text holds only whitespace.
pub fn is_blank(text: &str) -> (r: bool)
    ensures
        r == (spec_trim_ws(text@).len() == 0),
{
    let cs = to_chars(text);
    let t = trim_ws(cs);
    t.len() == 0
}

// ---------------------------------------------------------------------------
// Leftmost occurrence
// ---------------------------------------------------------------------------

/// The index of the leftmost occurrence of `pat` in `hay`, or -1.
pub open spec fn spec_find(hay: Seq<char>, pat: Seq<char>) -> int
    decreases hay.len(),
{
    if spec_match_at(hay, pat, 0) {
        0
    } else if hay.len() == 0 {
        -1
    } else {
        let r = spec_find(hay.drop_first(), pat);
        if r < 0 {
            -1
        } else {
            r + 1
        }
    }
}

proof fn lemma_find_correct(hay: Seq<char>, pat: Seq<char>)
    ensures
        spec_find(hay, pat) == -1 ==> !spec_contains(hay, pat),
        spec_find(hay, pat) >= 0 ==> spec_match_at(hay, pat, spec_find(hay, pat)) && forall|j: int|
            0 <= j < spec_find(hay, pat) ==> !spec_match_at(hay, pat, j),
    decreases hay.len(),
{
    let f = spec_find(hay, pat);
    if spec_match_at(hay, pat, 0) {
    } else if hay.len() == 0 {
        assert forall|i: int| !spec_match_at(hay, pat, i) by {
            if spec_match_at(hay, pat, i) {
                assert(i == 0);
            }
        }
    } else {
        let rest = hay.drop_first();
        lemma_find_correct(rest, pat);
        let r = spec_find(rest, pat);
        assert forall|i: int| 1 <= i implies (spec_match_at(hay, pat, i) <==> spec_match_at(
            rest,
            pat,
            i - 1,
        )) by {
            assert(forall|k: int| 0 <= k < rest.len() ==> rest[k] == hay[k + 1]);
            if spec_match_at(hay, pat, i) {
                assert(forall|k: int| 0 <= k < pat.len() ==> rest[i - 1 + k] == pat[k]);
            }
            if spec_match_at(rest, pat, i - 1) {
                assert(forall|k: int| 0 <= k < pat.len() ==> hay[i + k] == pat[k]);
            }
        }
        if r < 0 {
            assert forall|i: int| !spec_match_at(hay, pat, i) by {
                if spec_match_at(hay, pat, i) {
                    if i >= 1 {
                        assert(spec_match_at(rest, pat, i - 1));
                    }
                }
            }
        }
    }
}

/// The leftmost occurrence of `pat` in `hay`, matching `spec_find`.
fn find_at(hay: &Vec<char>, pat: &Vec<char>) -> (r: Option<usize>)
    ensures
        match r {
            Some(i) => spec_find(hay@, pat@) == i,
            None => spec_find(hay@, pat@) == -1,
        },
{
    proof {
        lemma_find_correct(hay@, pat@);
    }
    match find_sub(hay, pat) {
        Some(i) => {
            proof {
                let f = spec_find(hay@, pat@);
                if f == -1 {
                    assert(spec_match_at(hay@, pat@, i as int));
                    assert(false);
                }
                if f < i {
                    assert(!spec_match_at(hay@, pat@, f));
                    assert(false);
                }
                if f > i {
                    assert(!spec_match_at(hay@, pat@, i as int));
                    assert(false);
                }
            }
            Some(i)
        },
        None => {
            proof {
                let f = spec_find(hay@, pat@);
                if f >= 0 {
                    assert(spec_match_at(hay@, pat@, f));
                    assert(spec_contains(hay@, pat@));
                    assert(false);
                }
            }
            None
        },
    }
}

// ---------------------------------------------------------------------------
// Search queries
// ---------------------------------------------------------------------------

/// One pass over the leading command phrases: strips the first phrase,
/// in the fixed priority order, that prefixes the case-folded query.
pub open spec fn spec_strip_step(s: Seq<char>) -> Option<Seq<char>> {
    if spec_match_at(s, "suche nach "@, 0) {
        Some(s.skip("suche nach "@.len() as int))
    } else if spec_match_at(s, "suche "@, 0) {
        Some(s.skip("suche "@.len() as int))
    } else if spec_match_at(s, "finde "@, 0) {
        Some(s.skip("finde "@.len() as int))
    } else if spec_match_at(s, "finde informationen "@, 0) {
        Some(s.skip("finde informationen "@.len() as int))
    } else if spec_match_at(s, "informationen \u{fc}ber "@, 0) {
        Some(s.skip("informationen \u{fc}ber "@.len() as int))
    } else if spec_match_at(s, "\u{fc}ber "@, 0) {
        Some(s.skip("\u{fc}ber "@.len() as int))
    } else if spec_match_at(s, "recherchiere "@, 0) {
        Some(s.skip("recherchiere "@.len() as int))
    } else if spec_match_at(s, "was ist ein "@, 0) {
        Some(s.skip("was ist ein "@.len() as int))
    } else if spec_match_at(s, "was ist eine "@, 0) {
        Some(s.skip("was ist eine "@.len() as int))
    } else if spec_match_at(s, "was ist der "@, 0) {
        Some(s.skip("was ist der "@.len() as int))
    } else if spec_match_at(s, "was ist die "@, 0) {
        Some(s.skip("was ist die "@.len() as int))
    } else if spec_match_at(s, "was ist das "@, 0) {
        Some(s.skip("was ist das "@.len() as int))
    } else if spec_match_at(s, "was ist "@, 0) {
        Some(s.skip("was ist "@.len() as int))
    } else if spec_match_at(s, "wer ist "@, 0) {
        Some(s.skip("wer ist "@.len() as int))
    } else if spec_match_at(s, "erkl\u{e4}re mir "@, 0) {
        Some(s.skip("erkl\u{e4}re mir "@.len() as int))
    } else if spec_match_at(s, "erkl\u{e4}re "@, 0) {
        Some(s.skip("erkl\u{e4}re "@.len() as int))
    } else {
        None
    }
}

proof fn lemma_strip_step_shrinks(s: Seq<char>)
    ensures
        spec_strip_step(s) is Some ==> 0 <= spec_strip_step(s).unwrap().len() < s.len(),
{
    reveal_strlit("suche nach ");
    reveal_strlit("suche ");
    reveal_strlit("finde ");
    reveal_strlit("finde informationen ");
    reveal_strlit("informationen \u{fc}ber ");
    reveal_strlit("\u{fc}ber ");
    reveal_strlit("recherchiere ");
    reveal_strlit("was ist ein ");
    reveal_strlit("was ist eine ");
    reveal_strlit("was ist der ");
    reveal_strlit("was ist die ");
    reveal_strlit("was ist das ");
    reveal_strlit("was ist ");
    reveal_strlit("wer ist ");
    reveal_strlit("erkl\u{e4}re mir ");
    reveal_strlit("erkl\u{e4}re ");
}

/// Strips leading command phrases until none is left.
pub open spec fn spec_strip_all(s: Seq<char>) -> Seq<char>
    decreases s.len(),
    via spec_strip_all_dec
{
    match spec_strip_step(s) {
        Some(r) => spec_strip_all(r),
        None => s,
    }
}

#[via_fn]
proof fn spec_strip_all_dec(s: Seq<char>) {
    lemma_strip_step_shrinks(s);
}

/// The search term of a query: the case-folded query with leading
/// command phrases stripped and trailing punctuation trimmed; the whole
/// case-folded query when nothing is left.
pub open spec fn spec_extract_search_query(input: Seq<char>) -> Seq<char> {
    let t = spec_lower(input);
    let cleaned = spec_trim_ws(spec_trim_end_punct(spec_strip_all(t)));
    if cleaned.len() == 0 {
        t
    } else {
        cleaned
    }
}

fn strip_prefixes(cur: Vec<char>) -> (r: Vec<char>)
    ensures
        r@ == spec_strip_all(cur@),
    decreases cur@.len(),
{
    proof {
        lemma_strip_step_shrinks(cur@);
    }
    let p01 = to_chars("suche nach ");
    if starts_with(&cur, &p01) {
        return strip_prefixes(skip_prefix(&cur, p01.len()));
    }
    let p02 = to_chars("suche ");
    if starts_with(&cur, &p02) {
        return strip_prefixes(skip_prefix(&cur, p02.len()));
    }
    let p03 = to_chars("finde ");
    if starts_with(&cur, &p03) {
        return strip_prefixes(skip_prefix(&cur, p03.len()));
    }
    let p04 = to_chars("finde informationen ");
    if starts_with(&cur, &p04) {
        return strip_prefixes(skip_prefix(&cur, p04.len()));
    }
    let p05 = to_chars("informationen \u{fc}ber ");
    if starts_with(&cur, &p05) {
        return strip_prefixes(skip_prefix(&cur, p05.len()));
    }
    let p06 = to_chars("\u{fc}ber ");
    if starts_with(&cur, &p06) {
        return strip_prefixes(skip_prefix(&cur, p06.len()));
    }
    let p07 = to_chars("recherchiere ");
    if starts_with(&cur, &p07) {
        return strip_prefixes(skip_prefix(&cur, p07.len()));
    }
    let p08 = to_chars("was ist ein ");
    if starts_with(&cur, &p08) {
        return strip_prefixes(skip_prefix(&cur, p08.len()));
    }
    let p09 = to_chars("was ist eine ");
    if starts_with(&cur, &p09) {
        return strip_prefixes(skip_prefix(&cur, p09.len()));
    }
    let p10 = to_chars("was ist der ");
    if starts_with(&cur, &p10) {
        return strip_prefixes(skip_prefix(&cur, p10.len()));
    }
    let p11 = to_chars("was ist die ");
    if starts_with(&cur, &p11) {
        return strip_prefixes(skip_prefix(&cur, p11.len()));
    }
    let p12 = to_chars("was ist das ");
    if starts_with(&cur, &p12) {
        return strip_prefixes(skip_prefix(&cur, p12.len()));
    }
    let p13 = to_chars("was ist ");
    if starts_with(&cur, &p13) {
        return strip_prefixes(skip_prefix(&cur, p13.len()));
    }
    let p14 = to_chars("wer ist ");
    if starts_with(&cur, &p14) {
        return strip_prefixes(skip_prefix(&cur, p14.len()));
    }
    let p15 = to_chars("erkl\u{e4}re mir ");
    if starts_with(&cur, &p15) {
        return strip_prefixes(skip_prefix(&cur, p15.len()));
    }
    let p16 = to_chars("erkl\u{e4}re ");
    if starts_with(&cur, &p16) {
        return strip_prefixes(skip_prefix(&cur, p16.len()));
    }
    cur
}

/// The suffix of `v` from `n` on.
fn skip_prefix(v: &Vec<char>, n: usize) -> (r: Vec<char>)
    requires
        n <= v@.len(),
    ensures
        r@ == v@.skip(n as int),
{
    let r = subvec(v, n, v.len());
    proof {
        assert(r@ =~= v@.skip(n as int));
    }
    r
}

/// Extracts the search term from a query: strips leading command
/// phrases from the case-folded query and trims trailing punctuation;
/// the whole case-folded query when nothing remains.
pub fn extract_search_query(input: &str) -> (r: String)
    ensures
        r@ == spec_extract_search_query(input@),
{
    let cs = to_chars(input);
    let t = lower_chars(&cs);
    let lowered = chars_to_string(&t);
    let stripped = strip_prefixes(t);
    let cleaned = trim_ws(trim_end_punct(stripped));
    if cleaned.len() == 0 {
        lowered
    } else {
        chars_to_string(&cleaned)
    }
}

// ---------------------------------------------------------------------------
// Locations
// ---------------------------------------------------------------------------

/// The phrase after the leftmost occurrence of `marker` in the
/// case-folded input, taken from the original input and cleaned:
/// trailing punctuation and surrounding whitespace trimmed.
pub open spec fn spec_after_marker(input: Seq<char>, marker: Seq<char>) -> Option<Seq<char>> {
    let t = spec_lower(input);
    let f = spec_find(t, marker);
    if f < 0 {
        None
    } else {
        Some(spec_trim_ws(spec_trim_end_punct(input.skip(f + marker.len()))))
    }
}

/// The location of a weather query: the cleaned phrase after the first
/// location preposition, in the fixed priority order, that occurs and
/// leaves a nonempty phrase.
pub open spec fn spec_extract_location(input: Seq<char>) -> Option<Seq<char>> {
    let m1 = spec_after_marker(input, "in "@);
    let m2 = spec_after_marker(input, "f\u{fc}r "@);
    let m3 = spec_after_marker(input, "von "@);
    let m4 = spec_after_marker(input, "bei "@);
    let m5 = spec_after_marker(input, "um "@);
    if m1 is Some && m1.unwrap().len() > 0 {
        m1
    } else if m2 is Some && m2.unwrap().len() > 0 {
        m2
    } else if m3 is Some && m3.unwrap().len() > 0 {
        m3
    } else if m4 is Some && m4.unwrap().len() > 0 {
        m4
    } else if m5 is Some && m5.unwrap().len() > 0 {
        m5
    } else {
        None
    }
}

/// Tries one marker: the cleaned phrase after its leftmost occurrence.
fn after_marker(input: &Vec<char>, t: &Vec<char>, marker: &str) -> (r: Option<Vec<char>>)
    requires
        t@ == spec_lower(input@),
    ensures
        match r {
            Some(v) => spec_after_marker(input@, marker@) == Some(v@),
            None => spec_after_marker(input@, marker@) is None,
        },
{
    let m = to_chars(marker);
    match find_at(t, &m) {
        Some(i) => {
            assert(spec_match_at(t@, m@, i as int)) by {
                lemma_find_correct(t@, m@);
            }
            let tl = t.len();
            assert(i + m@.len() <= tl);
            assert(tl == input@.len());
            let after = skip_prefix(input, i + m.len());
            Some(trim_ws(trim_end_punct(after)))
        },
        None => None,
    }
}

/// Extracts the place name from a weather query: the phrase after the
/// first location preposition, in original casing, cleaned of trailing
/// punctuation and surrounding whitespace.
pub fn extract_location(input: &str) -> (r: Option<String>)
    ensures
        match r {
            Some(v) => spec_extract_location(input@) == Some(v@),
            None => spec_extract_location(input@) is None,
        },
{
    let cs = to_chars(input);
    let t = lower_chars(&cs);
    match after_marker(&cs, &t, "in ") {
        Some(v) => if v.len() > 0 {
            return Some(chars_to_string(&v));
        },
        None => {},
    }
    match after_marker(&cs, &t, "f\u{fc}r ") {
        Some(v) => if v.len() > 0 {
            return Some(chars_to_string(&v));
        },
        None => {},
    }
    match after_marker(&cs, &t, "von ") {
        Some(v) => if v.len() > 0 {
            return Some(chars_to_string(&v));
        },
        None => {},
    }
    match after_marker(&cs, &t, "bei ") {
        Some(v) => if v.len() > 0 {
            return Some(chars_to_string(&v));
        },
        None => {},
    }
    match after_marker(&cs, &t, "um ") {
        Some(v) => if v.len() > 0 {
            return Some(chars_to_string(&v));
        },
        None => {},
    }
    None
}

// ---------------------------------------------------------------------------
// File names
// ---------------------------------------------------------------------------

/// The phrase after the leftmost occurrence of `marker` in the
/// case-folded input, from the original input, whitespace-trimmed.
pub open spec fn spec_after_marker_ws(input: Seq<char>, marker: Seq<char>) -> Option<Seq<char>> {
    let t = spec_lower(input);
    let f = spec_find(t, marker);
    if f < 0 {
        None
    } else {
        Some(spec_trim_ws(input.skip(f + marker.len())))
    }
}

/// The file or program name of a request: the trimmed phrase after the
/// first open/show command phrase, in the fixed priority order, or the
/// whole trimmed input when none occurs.
pub open spec fn spec_extract_file_path(input: Seq<char>) -> Seq<char> {
    let m1 = spec_after_marker_ws(input, "zeige mir "@);
    let m2 = spec_after_marker_ws(input, "zeig mir "@);
    let m3 = spec_after_marker_ws(input, "\u{f6}ffne "@);
    let m4 = spec_after_marker_ws(input, "zeige "@);
    let m5 = spec_after_marker_ws(input, "zeig "@);
    let m6 = spec_after_marker_ws(input, "starte "@);
    let m7 = spec_after_marker_ws(input, "start "@);
    if m1 is Some {
        m1.unwrap()
    } else if m2 is Some {
        m2.unwrap()
    } else if m3 is Some {
        m3.unwrap()
    } else if m4 is Some {
        m4.unwrap()
    } else if m5 is Some {
        m5.unwrap()
    } else if m6 is Some {
        m6.unwrap()
    } else if m7 is Some {
        m7.unwrap()
    } else {
        spec_trim_ws(input)
    }
}

fn after_marker_ws(input: &Vec<char>, t: &Vec<char>, marker: &str) -> (r: Option<Vec<char>>)
    requires
        t@ == spec_lower(input@),
    ensures
        match r {
            Some(v) => spec_after_marker_ws(input@, marker@) == Some(v@),
            None => spec_after_marker_ws(input@, marker@) is None,
        },
{
    let m = to_chars(marker);
    match find_at(t, &m) {
        Some(i) => {
            assert(spec_match_at(t@, m@, i as int)) by {
                lemma_find_correct(t@, m@);
            }
            let tl = t.len();
            assert(i + m@.len() <= tl);
            assert(tl == input@.len());
            let after = skip_prefix(input, i + m.len());
            Some(trim_ws(after))
        },
        None => None,
    }
}

/// Extracts the file or program name from an open/show request: the
/// trimmed phrase after the first command phrase, in original casing.
pub fn extract_file_path(input: &str) -> (r: String)
    ensures
        r@ == spec_extract_file_path(input@),
{
    let cs = to_chars(input);
    let t = lower_chars(&cs);
    match after_marker_ws(&cs, &t, "zeige mir ") {
        Some(v) => {
            return chars_to_string(&v);
        },
        None => {},
    }
    match after_marker_ws(&cs, &t, "zeig mir ") {
        Some(v) => {
            return chars_to_string(&v);
        },
        None => {},
    }
    match after_marker_ws(&cs, &t, "\u{f6}ffne ") {
        Some(v) => {
            return chars_to_string(&v);
        },
        None => {},
    }
    match after_marker_ws(&cs, &t, "zeige ") {
        Some(v) => {
            return chars_to_string(&v);
        },
        None => {},
    }
    match after_marker_ws(&cs, &t, "zeig ") {
        Some(v) => {
            return chars_to_string(&v);
        },
        None => {},
    }
    match after_marker_ws(&cs, &t, "starte ") {
        Some(v) => {
            return chars_to_string(&v);
        },
        None => {},
    }
    match after_marker_ws(&cs, &t, "start ") {
        Some(v) => {
            return chars_to_string(&v);
        },
        None => {},
    }
    let r = trim_ws(cs);
    chars_to_string(&r)
}

} // verus!
