use vstd::prelude::*;

verus! {

// ---------------------------------------------------------------------------
// Character classes
// ---------------------------------------------------------------------------

/// Case-folds one character: ASCII upper case letters and the three upper
/// case umlauts map to their lower case form, everything else is unchanged.
pub open spec fn spec_lower_char(c: char) -> char {
    match c {
        'A' => 'a',
        'B' => 'b',
        'C' => 'c',
        'D' => 'd',
        'E' => 'e',
        'F' => 'f',
        'G' => 'g',
        'H' => 'h',
        'I' => 'i',
        'J' => 'j',
        'K' => 'k',
        'L' => 'l',
        'M' => 'm',
        'N' => 'n',
        'O' => 'o',
        'P' => 'p',
        'Q' => 'q',
        'R' => 'r',
        'S' => 's',
        'T' => 't',
        'U' => 'u',
        'V' => 'v',
        'W' => 'w',
        'X' => 'x',
        'Y' => 'y',
        'Z' => 'z',
        '\u{c4}' => '\u{e4}',
        '\u{d6}' => '\u{f6}',
        '\u{dc}' => '\u{fc}',
        _ => c,
    }
}

/// Case-folds a whole character sequence.
pub open spec fn spec_lower(s: Seq<char>) -> Seq<char> {
    s.map_values(|c: char| spec_lower_char(c))
}

/// A word character: an ASCII letter or digit, or one of the German
/// letters that the normalizer understands.
pub open spec fn spec_is_word_char(c: char) -> bool {
    let u = c as int;
    (97 <= u && u <= 122)  // a-z
     || (65 <= u && u <= 90)  // A-Z
     || (48 <= u && u <= 57)  // 0-9
     || u == 0xe4 || u == 0xf6 || u == 0xfc  // ä ö ü
     || u == 0xc4 || u == 0xd6 || u == 0xdc  // Ä Ö Ü
     || u == 0xdf  // ß
}

/// A whitespace character.
pub open spec fn spec_is_space(c: char) -> bool {
    c == ' ' || c == '\t' || c == '\n' || c == '\r'
}

pub fn lower_char(c: char) -> (r: char)
    ensures
        r == spec_lower_char(c),
{
    match c {
        'A' => 'a',
        'B' => 'b',
        'C' => 'c',
        'D' => 'd',
        'E' => 'e',
        'F' => 'f',
        'G' => 'g',
        'H' => 'h',
        'I' => 'i',
        'J' => 'j',
        'K' => 'k',
        'L' => 'l',
        'M' => 'm',
        'N' => 'n',
        'O' => 'o',
        'P' => 'p',
        'Q' => 'q',
        'R' => 'r',
        'S' => 's',
        'T' => 't',
        'U' => 'u',
        'V' => 'v',
        'W' => 'w',
        'X' => 'x',
        'Y' => 'y',
        'Z' => 'z',
        '\u{c4}' => '\u{e4}',
        '\u{d6}' => '\u{f6}',
        '\u{dc}' => '\u{fc}',
        _ => c,
    }
}

pub fn is_word_char(c: char) -> (r: bool)
    ensures
        r == spec_is_word_char(c),
{
    let u = c as u32;
    (97 <= u && u <= 122) || (65 <= u && u <= 90) || (48 <= u && u <= 57) || u == 0xe4 || u == 0xf6
        || u == 0xfc || u == 0xc4 || u == 0xd6 || u == 0xdc || u == 0xdf
}

pub fn is_space_char(c: char) -> (r: bool)
    ensures
        r == spec_is_space(c),
{
    c == ' ' || c == '\t' || c == '\n' || c == '\r'
}

// ---------------------------------------------------------------------------
// &str <-> Vec<char> <-> String
// ---------------------------------------------------------------------------

/// The characters of a string slice as a vector.
pub fn to_chars(s: &str) -> (r: Vec<char>)
    ensures
        r@ == s@,
{
    let n = s.unicode_len();
    let mut r: Vec<char> = Vec::new();
    let mut i: usize = 0;
    while i < n
        invariant
            n == s@.len(),
            i <= n,
            r@ == s@.take(i as int),
        decreases n - i,
    {
        let c = s.get_char(i);
        r.push(c);
        i = i + 1;
        assert(r@ =~= s@.take(i as int));
    }
    assert(r@ =~= s@);
    r
}

/// Relies on String::push: appends one character to the end of the string.
#[verifier::external_body]
pub(crate) fn push_char(s: &mut String, c: char)
    ensures
        final(s)@ == old(s)@.push(c),
{
    s.push(c)
}

/// Builds a string from a vector of characters.
pub fn chars_to_string(v: &Vec<char>) -> (r: String)
    ensures
        r@ == v@,
{
    let mut r = String::new();
    let mut i: usize = 0;
    while i < v.len()
        invariant
            i <= v@.len(),
            r@ == v@.take(i as int),
        decreases v@.len() - i,
    {
        push_char(&mut r, v[i]);
        i = i + 1;
        assert(r@ =~= v@.take(i as int));
    }
    assert(r@ =~= v@);
    r
}

/// Case-folds a vector of characters.
pub fn lower_chars(v: &Vec<char>) -> (r: Vec<char>)
    ensures
        r@ == spec_lower(v@),
{
    let mut r: Vec<char> = Vec::new();
    let mut i: usize = 0;
    while i < v.len()
        invariant
            i <= v@.len(),
            r@ == spec_lower(v@.take(i as int)),
        decreases v@.len() - i,
    {
        r.push(lower_char(v[i]));
        i = i + 1;
        assert(r@ =~= spec_lower(v@.take(i as int)));
    }
    assert(r@ =~= spec_lower(v@));
    r
}

// ---------------------------------------------------------------------------
// Substring search
// ---------------------------------------------------------------------------

/// `pat` occurs in `hay` starting at index `i`.
pub open spec fn spec_match_at(hay: Seq<char>, pat: Seq<char>, i: int) -> bool {
    &&& 0 <= i
    &&& i + pat.len() <= hay.len()
    &&& forall|k: int| 0 <= k < pat.len() ==> hay[i + k] == pat[k]
}

/// `pat` occurs somewhere in `hay`.
pub open spec fn spec_contains(hay: Seq<char>, pat: Seq<char>) -> bool {
    exists|i: int| spec_match_at(hay, pat, i)
}

/// The index of the leftmost occurrence of `pat` in `hay`, if any.
pub fn find_sub(hay: &Vec<char>, pat: &Vec<char>) -> (r: Option<usize>)
    ensures
        match r {
            Some(i) => spec_match_at(hay@, pat@, i as int) && forall|j: int|
                0 <= j < i ==> !spec_match_at(hay@, pat@, j),
            None => !spec_contains(hay@, pat@),
        },
{
    if pat.len() > hay.len() {
        return None;
    }
    if pat.len() == 0 {
        return Some(0);
    }
    let mut i: usize = 0;
    let end = hay.len() - pat.len();
    while i <= end
        invariant
            1 <= pat@.len() <= hay@.len(),
            hay@.len() <= usize::MAX,
            end == hay@.len() - pat@.len(),
            i <= end + 1,
            forall|j: int| 0 <= j < i ==> !spec_match_at(hay@, pat@, j),
        decreases end + 1 - i,
    {
        let mut k: usize = 0;
        let mut ok = true;
        while k < pat.len()
            invariant
                i + pat@.len() <= hay@.len(),
                hay@.len() <= usize::MAX,
                k <= pat@.len(),
                ok <==> forall|m: int| 0 <= m < k ==> hay@[i + m] == pat@[m],
            decreases pat@.len() - k,
        {
            if hay[i + k] != pat[k] {
                ok = false;
                k = pat.len();
            } else {
                k = k + 1;
            }
        }
        if ok {
            return Some(i);
        }
        i = i + 1;
    }
    None
}

/// Whether two character vectors hold the same characters.
pub fn chars_eq(a: &Vec<char>, b: &Vec<char>) -> (r: bool)
    ensures
        r == (a@ == b@),
{
    if a.len() != b.len() {
        return false;
    }
    let mut i: usize = 0;
    while i < a.len()
        invariant
            a@.len() == b@.len(),
            i <= a@.len(),
            forall|k: int| 0 <= k < i ==> a@[k] == b@[k],
        decreases a@.len() - i,
    {
        if a[i] != b[i] {
            return false;
        }
        i = i + 1;
    }
    proof {
        assert(a@ =~= b@);
    }
    true
}

/// Whether `pat` occurs in `hay`.
pub fn contains_sub(hay: &Vec<char>, pat: &Vec<char>) -> (r: bool)
    ensures
        r == spec_contains(hay@, pat@),
{
    match find_sub(hay, pat) {
        Some(i) => {
            assert(spec_match_at(hay@, pat@, i as int));
            true
        },
        None => false,
    }
}

/// Whether `pat` is a prefix of `hay`.
pub fn starts_with(hay: &Vec<char>, pat: &Vec<char>) -> (r: bool)
    ensures
        r == spec_match_at(hay@, pat@, 0),
{
    if pat.len() > hay.len() {
        return false;
    }
    let mut k: usize = 0;
    while k < pat.len()
        invariant
            pat@.len() <= hay@.len(),
            k <= pat@.len(),
            forall|m: int| 0 <= m < k ==> hay@[m] == pat@[m],
        decreases pat@.len() - k,
    {
        if hay[k] != pat[k] {
            assert(!spec_match_at(hay@, pat@, 0));
            return false;
        }
        k = k + 1;
    }
    true
}

} // verus!
