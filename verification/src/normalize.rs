use vstd::prelude::*;

use crate::text::chars_to_string;
use crate::text::is_space_char;
use crate::text::is_word_char;
use crate::text::lower_char;
use crate::text::push_char;
use crate::text::spec_is_space;
use crate::text::spec_is_word_char;
use crate::text::spec_lower;
use crate::text::spec_lower_char;
use crate::text::to_chars;

verus! {

// ---------------------------------------------------------------------------
// Specification of the normalizer
// ---------------------------------------------------------------------------

/// Characters that survive cleaning: word characters and whitespace.
pub open spec fn spec_keep_char(c: char) -> bool {
    spec_is_word_char(c) || spec_is_space(c)
}

/// The cleaning predicate as a function value, shared by all proof sites.
pub open spec fn keep_pred() -> spec_fn(char) -> bool {
    |c: char| spec_keep_char(c)
}

/// Drops every character that is neither a word character nor whitespace.
pub open spec fn spec_clean(s: Seq<char>) -> Seq<char> {
    s.filter(keep_pred())
}

/// The views of a vector of strings.
pub open spec fn spec_str_views(toks: Seq<String>) -> Seq<Seq<char>> {
    Seq::new(toks.len(), |k: int| toks[k]@)
}

/// Stems every word of a sequence.
pub open spec fn spec_stems(ws: Seq<Seq<char>>) -> Seq<Seq<char>> {
    Seq::new(ws.len(), |k: int| spec_stem(ws[k]))
}

/// Folds the three umlauts to their base vowel; other characters unchanged.
pub open spec fn spec_fold_umlaut(c: char) -> char {
    match c {
        '\u{e4}' => 'a',
        '\u{f6}' => 'o',
        '\u{fc}' => 'u',
        _ => c,
    }
}

/// Umlaut folding over a whole word.
pub open spec fn spec_fold(s: Seq<char>) -> Seq<char> {
    s.map_values(|c: char| spec_fold_umlaut(c))
}

/// A suffix is stripped only when it matches and the remaining stem is
/// longer than the suffix length plus two.
pub open spec fn spec_try_suffix(w: Seq<char>, suf: Seq<char>) -> bool {
    w.len() > 2 * suf.len() + 2 && w.subrange(w.len() - suf.len(), w.len() as int) == suf
}

pub open spec fn spec_cut(w: Seq<char>, suf: Seq<char>) -> Seq<char> {
    w.take(w.len() - suf.len())
}

/// Strips the first matching suffix, in fixed priority order, from an
/// umlaut-folded word.
pub open spec fn spec_stem_folded(w: Seq<char>) -> Seq<char> {
    if spec_try_suffix(w, "ern"@) {
        spec_cut(w, "ern"@)
    } else if spec_try_suffix(w, "em"@) {
        spec_cut(w, "em"@)
    } else if spec_try_suffix(w, "er"@) {
        spec_cut(w, "er"@)
    } else if spec_try_suffix(w, "en"@) {
        spec_cut(w, "en"@)
    } else if spec_try_suffix(w, "es"@) {
        spec_cut(w, "es"@)
    } else if spec_try_suffix(w, "e"@) {
        spec_cut(w, "e"@)
    } else if spec_try_suffix(w, "n"@) {
        spec_cut(w, "n"@)
    } else if spec_try_suffix(w, "s"@) {
        spec_cut(w, "s"@)
    } else {
        w
    }
}

/// The stem of one raw token: fold umlauts, then strip one suffix.
pub open spec fn spec_stem(w: Seq<char>) -> Seq<char> {
    spec_stem_folded(spec_fold(w))
}

/// Length of the leading run of non-space characters.
pub open spec fn spec_word_len(s: Seq<char>) -> nat
    decreases s.len(),
{
    if s.len() == 0 || spec_is_space(s[0]) {
        0
    } else {
        1 + spec_word_len(s.subrange(1, s.len() as int))
    }
}

pub proof fn lemma_word_len_le(s: Seq<char>)
    ensures
        spec_word_len(s) <= s.len(),
    decreases s.len(),
{
    if s.len() != 0 && !spec_is_space(s[0]) {
        lemma_word_len_le(s.subrange(1, s.len() as int));
    }
}

/// Splits a character sequence on whitespace into its words.
pub open spec fn spec_split_ws(s: Seq<char>) -> Seq<Seq<char>>
    decreases s.len(),
    via spec_split_ws_dec
{
    if s.len() == 0 {
        Seq::empty()
    } else if spec_is_space(s[0]) {
        spec_split_ws(s.subrange(1, s.len() as int))
    } else {
        let w = spec_word_len(s) as int;
        seq![s.take(w)] + spec_split_ws(s.subrange(w, s.len() as int))
    }
}

#[via_fn]
proof fn spec_split_ws_dec(s: Seq<char>) {
    if s.len() != 0 && !spec_is_space(s[0]) {
        lemma_word_len_le(s);
    }
}

/// The token sequence of a text: lowercase, clean, split, stem each word.
pub open spec fn spec_tokens(text: Seq<char>) -> Seq<Seq<char>> {
    spec_stems(spec_split_ws(spec_clean(spec_lower(text))))
}

/// Joins words with single spaces.
pub open spec fn spec_join_sp(ws: Seq<Seq<char>>) -> Seq<char>
    decreases ws.len(),
{
    if ws.len() == 0 {
        Seq::empty()
    } else if ws.len() == 1 {
        ws[0]
    } else {
        ws[0] + seq![' '] + spec_join_sp(ws.subrange(1, ws.len() as int))
    }
}

/// The normalized form of a text: its tokens joined with single spaces.
pub open spec fn spec_normalize(text: Seq<char>) -> Seq<char> {
    spec_join_sp(spec_tokens(text))
}

proof fn lemma_join_push(ws: Seq<Seq<char>>, w: Seq<char>)
    ensures
        spec_join_sp(ws.push(w)) == if ws.len() == 0 {
            w
        } else {
            spec_join_sp(ws) + seq![' '] + w
        },
    decreases ws.len(),
{
    if ws.len() == 0 {
        assert(ws.push(w)[0] == w);
    } else {
        let rest = ws.subrange(1, ws.len() as int);
        assert(ws.push(w).subrange(1, ws.push(w).len() as int) =~= rest.push(w));
        lemma_join_push(rest, w);
        if ws.len() == 1 {
            assert(rest.len() == 0);
            assert(spec_join_sp(ws.push(w)) == ws[0] + seq![' '] + w);
            assert(spec_join_sp(ws) == ws[0]);
        } else {
            assert(spec_join_sp(ws.push(w)) == ws[0] + seq![' '] + (spec_join_sp(rest) + seq![
                ' ',
            ] + w));
            assert(ws[0] + seq![' '] + (spec_join_sp(rest) + seq![' '] + w) =~= (ws[0] + seq![' ']
                + spec_join_sp(rest)) + seq![' '] + w);
        }
    }
}

pub proof fn lemma_word_len_at(s: Seq<char>, k: int)
    requires
        0 <= k <= s.len(),
        forall|m: int| 0 <= m < k ==> !spec_is_space(s[m]),
        k == s.len() || spec_is_space(s[k]),
    ensures
        spec_word_len(s) == k,
    decreases k,
{
    if k == 0 {
    } else {
        let rest = s.subrange(1, s.len() as int);
        assert(!spec_is_space(s[0]));
        assert(forall|m: int| 0 <= m < k - 1 ==> rest[m] == s[m + 1]);
        lemma_word_len_at(rest, k - 1);
    }
}

// ---------------------------------------------------------------------------
// Executable normalizer
// ---------------------------------------------------------------------------

/// Copies the characters `v[from..to]` into a fresh vector.
pub fn subvec(v: &Vec<char>, from: usize, to: usize) -> (r: Vec<char>)
    requires
        from <= to <= v@.len(),
    ensures
        r@ == v@.subrange(from as int, to as int),
{
    let mut r: Vec<char> = Vec::new();
    let mut k = from;
    while k < to
        invariant
            from <= k <= to <= v@.len(),
            r@ == v@.subrange(from as int, k as int),
        decreases to - k,
    {
        r.push(v[k]);
        k = k + 1;
        assert(r@ =~= v@.subrange(from as int, k as int));
    }
    r
}

fn fold_chars(v: &Vec<char>) -> (r: Vec<char>)
    ensures
        r@ == spec_fold(v@),
{
    let mut r: Vec<char> = Vec::new();
    let mut i: usize = 0;
    while i < v.len()
        invariant
            i <= v@.len(),
            r@ == spec_fold(v@.take(i as int)),
        decreases v@.len() - i,
    {
        let c = v[i];
        let f = match c {
            '\u{e4}' => 'a',
            '\u{f6}' => 'o',
            '\u{fc}' => 'u',
            _ => c,
        };
        r.push(f);
        i = i + 1;
        assert(r@ =~= spec_fold(v@.take(i as int)));
    }
    assert(r@ =~= spec_fold(v@));
    r
}

/// Whether `suf` may be stripped from `w` under the stemmer's length guard.
fn suffix_matches(w: &Vec<char>, suf: &Vec<char>) -> (r: bool)
    ensures
        r == spec_try_suffix(w@, suf@),
{
    if suf.len() >= w.len() {
        assert(!spec_try_suffix(w@, suf@));
        return false;
    }
    let rem = w.len() - suf.len();
    if rem <= 2 || rem - 2 <= suf.len() {
        assert(!(w@.len() > 2 * suf@.len() + 2));
        return false;
    }
    let mut k: usize = 0;
    while k < suf.len()
        invariant
            suf@.len() < w@.len() <= usize::MAX,
            rem == w@.len() - suf@.len(),
            k <= suf@.len(),
            forall|m: int| 0 <= m < k ==> w@[rem + m] == suf@[m],
        decreases suf@.len() - k,
    {
        if w[rem + k] != suf[k] {
            assert(w@.subrange(rem as int, w@.len() as int)[k as int] != suf@[k as int]);
            return false;
        }
        k = k + 1;
    }
    assert(w@.subrange(rem as int, w@.len() as int) =~= suf@);
    true
}

/// Strips the first matching suffix from an umlaut-folded word.
fn stem_folded(w: &Vec<char>) -> (r: Vec<char>)
    ensures
        r@ == spec_stem_folded(w@),
{
    let s_ern = to_chars("ern");
    if suffix_matches(w, &s_ern) {
        return subvec(w, 0, w.len() - s_ern.len());
    }
    let s_em = to_chars("em");
    if suffix_matches(w, &s_em) {
        return subvec(w, 0, w.len() - s_em.len());
    }
    let s_er = to_chars("er");
    if suffix_matches(w, &s_er) {
        return subvec(w, 0, w.len() - s_er.len());
    }
    let s_en = to_chars("en");
    if suffix_matches(w, &s_en) {
        return subvec(w, 0, w.len() - s_en.len());
    }
    let s_es = to_chars("es");
    if suffix_matches(w, &s_es) {
        return subvec(w, 0, w.len() - s_es.len());
    }
    let s_e = to_chars("e");
    if suffix_matches(w, &s_e) {
        return subvec(w, 0, w.len() - s_e.len());
    }
    let s_n = to_chars("n");
    if suffix_matches(w, &s_n) {
        return subvec(w, 0, w.len() - s_n.len());
    }
    let s_s = to_chars("s");
    if suffix_matches(w, &s_s) {
        return subvec(w, 0, w.len() - s_s.len());
    }
    subvec(w, 0, w.len())
}

/// The stem of one raw word, as a string.
fn token_to_string(word: &Vec<char>) -> (t: String)
    ensures
        t@ == spec_stem(word@),
{
    let folded = fold_chars(word);
    let stemmed = stem_folded(&folded);
    chars_to_string(&stemmed)
}

/// The normalized, stemmed tokens of a text.
pub fn tokenize(text: &str) -> (toks: Vec<String>)
    ensures
        spec_str_views(toks@) == spec_tokens(text@),
{
    let cs = to_chars(text);
    // Lowercase and drop everything but word characters and whitespace.
    let mut kept: Vec<char> = Vec::new();
    let mut i: usize = 0;
    while i < cs.len()
        invariant
            i <= cs@.len(),
            kept@ == spec_clean(spec_lower(cs@.take(i as int))),
        decreases cs@.len() - i,
    {
        let c = lower_char(cs[i]);
        proof {
            let prefix = spec_lower(cs@.take(i as int));
            assert(spec_lower(cs@.take(i + 1)) =~= prefix.push(spec_lower_char(cs@[i as int])));
            Seq::lemma_filter_push(prefix, spec_lower_char(cs@[i as int]), keep_pred());
            assert(keep_pred()(spec_lower_char(cs@[i as int])) == spec_keep_char(
                spec_lower_char(cs@[i as int]),
            ));
        }
        if is_word_char(c) || is_space_char(c) {
            kept.push(c);
        }
        i = i + 1;
    }
    proof {
        assert(cs@.take(cs@.len() as int) =~= cs@);
    }
    // Split into words and stem each one.
    let mut toks: Vec<String> = Vec::new();
    let ghost mut raw: Seq<Seq<char>> = Seq::empty();
    let n = kept.len();
    let mut i: usize = 0;
    proof {
        assert(kept@.subrange(0, n as int) =~= kept@);
    }
    while i < n
        invariant
            n == kept@.len(),
            n <= usize::MAX,
            i <= n,
            spec_split_ws(kept@) == raw + spec_split_ws(kept@.subrange(i as int, n as int)),
            toks@.len() == raw.len(),
            forall|k: int| 0 <= k < raw.len() ==> #[trigger] toks@[k]@ == spec_stem(raw[k]),
            kept@ == spec_clean(spec_lower(cs@)),
            cs@ == text@,
        decreases n - i,
    {
        let ghost rest = kept@.subrange(i as int, n as int);
        if is_space_char(kept[i]) {
            proof {
                assert(rest.subrange(1, rest.len() as int) =~= kept@.subrange(i + 1, n as int));
            }
            i = i + 1;
        } else {
            let mut j = i + 1;
            while j < n && !is_space_char(kept[j])
                invariant
                    n == kept@.len(),
                    n <= usize::MAX,
                    i < j <= n,
                    forall|m: int| i <= m < j ==> !spec_is_space(kept@[m]),
                decreases n - j,
            {
                j = j + 1;
            }
            assert(j == n || spec_is_space(kept@[j as int]));
            proof {
                assert(forall|m: int| 0 <= m < j - i ==> rest[m] == kept@[i + m]);
                lemma_word_len_at(rest, j - i);
                assert(rest.take(j - i) =~= kept@.subrange(i as int, j as int));
                assert(rest.subrange(j - i, rest.len() as int) =~= kept@.subrange(
                    j as int,
                    n as int,
                ));
            }
            let word = subvec(&kept, i, j);
            let t = token_to_string(&word);
            toks.push(t);
            proof {
                raw = raw.push(word@);
                assert(spec_split_ws(kept@) =~= raw + spec_split_ws(
                    kept@.subrange(j as int, n as int),
                ));
            }
            i = j;
        }
    }
    proof {
        assert(kept@.subrange(n as int, n as int) =~= Seq::<char>::empty());
        assert(spec_split_ws(kept@) =~= raw);
        assert(spec_str_views(toks@) =~= spec_tokens(text@));
    }
    toks
}

/// The views of a vector of character vectors.
pub open spec fn spec_vec_views(ws: Seq<Vec<char>>) -> Seq<Seq<char>> {
    Seq::new(ws.len(), |k: int| ws[k]@)
}

/// Splits a character vector on whitespace into its raw words.
pub fn split_ws_vec(v: &Vec<char>) -> (ws: Vec<Vec<char>>)
    ensures
        spec_vec_views(ws@) == spec_split_ws(v@),
{
    let mut ws: Vec<Vec<char>> = Vec::new();
    let ghost mut raw: Seq<Seq<char>> = Seq::empty();
    let n = v.len();
    let mut i: usize = 0;
    proof {
        assert(v@.subrange(0, n as int) =~= v@);
    }
    while i < n
        invariant
            n == v@.len(),
            n <= usize::MAX,
            i <= n,
            spec_split_ws(v@) == raw + spec_split_ws(v@.subrange(i as int, n as int)),
            ws@.len() == raw.len(),
            forall|k: int| 0 <= k < raw.len() ==> (#[trigger] ws@[k])@ == raw[k],
        decreases n - i,
    {
        let ghost rest = v@.subrange(i as int, n as int);
        if is_space_char(v[i]) {
            proof {
                assert(rest.subrange(1, rest.len() as int) =~= v@.subrange(i + 1, n as int));
            }
            i = i + 1;
        } else {
            let mut j = i + 1;
            while j < n && !is_space_char(v[j])
                invariant
                    n == v@.len(),
                    n <= usize::MAX,
                    i < j <= n,
                    forall|m: int| i <= m < j ==> !spec_is_space(v@[m]),
                decreases n - j,
            {
                j = j + 1;
            }
            assert(j == n || spec_is_space(v@[j as int]));
            proof {
                assert(forall|m: int| 0 <= m < j - i ==> rest[m] == v@[i + m]);
                lemma_word_len_at(rest, j - i);
                assert(rest.take(j - i) =~= v@.subrange(i as int, j as int));
                assert(rest.subrange(j - i, rest.len() as int) =~= v@.subrange(j as int, n as int));
            }
            let word = subvec(v, i, j);
            ws.push(word);
            proof {
                raw = raw.push(v@.subrange(i as int, j as int));
                assert(spec_split_ws(v@) =~= raw + spec_split_ws(v@.subrange(j as int, n as int)));
            }
            i = j;
        }
    }
    proof {
        assert(v@.subrange(n as int, n as int) =~= Seq::<char>::empty());
        assert(spec_split_ws(v@) =~= raw);
        assert(spec_vec_views(ws@) =~= spec_split_ws(v@));
    }
    ws
}

/// Joins a vector of strings with single spaces.
pub fn join_fields(toks: &Vec<String>) -> (r: String)
    ensures
        r@ == spec_join_sp(spec_str_views(toks@)),
{
    let ghost views = spec_str_views(toks@);
    let mut out = String::new();
    let mut i: usize = 0;
    while i < toks.len()
        invariant
            i <= toks@.len(),
            views == spec_str_views(toks@),
            out@ == spec_join_sp(views.take(i as int)),
        decreases toks@.len() - i,
    {
        if i > 0 {
            push_char(&mut out, ' ');
        }
        let t = &toks[i];
        out.append(t.as_str());
        proof {
            lemma_join_push(views.take(i as int), views[i as int]);
            assert(views.take(i + 1) =~= views.take(i as int).push(views[i as int]));
            assert(out@ =~= spec_join_sp(views.take(i + 1)));
        }
        i = i + 1;
    }
    proof {
        assert(views.take(toks@.len() as int) =~= views);
    }
    out
}

/// Normalizes a text: lowercase, strip punctuation, fold umlauts, stem
/// each word, and rejoin the words with single spaces.
pub fn normalize(text: &str) -> (r: String)
    ensures
        r@ == spec_normalize(text@),
{
    let toks = tokenize(text);
    join_fields(&toks)
}

} // verus!
