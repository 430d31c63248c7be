use vstd::prelude::*;

use crate::classifier::spec_sample_wf;
use crate::classifier::IntentSample;
use crate::intent::Intent;
use crate::learning::spec_store_wf;
use crate::learning::LearningStore;
use crate::normalize::join_fields;
use crate::normalize::spec_join_sp;
use crate::normalize::spec_split_ws;
use crate::normalize::spec_str_views;
use crate::normalize::spec_word_len;
use crate::normalize::spec_vec_views;
use crate::normalize::split_ws_vec;
use crate::text::chars_eq;
use crate::text::spec_is_space;
use crate::text::chars_to_string;
use crate::text::to_chars;

verus! {

// ---------------------------------------------------------------------------
// Decimal numbers
// ---------------------------------------------------------------------------

/// The character for one decimal digit.
pub open spec fn spec_digit_char(d: int) -> char {
    if d == 0 {
        '0'
    } else if d == 1 {
        '1'
    } else if d == 2 {
        '2'
    } else if d == 3 {
        '3'
    } else if d == 4 {
        '4'
    } else if d == 5 {
        '5'
    } else if d == 6 {
        '6'
    } else if d == 7 {
        '7'
    } else if d == 8 {
        '8'
    } else {
        '9'
    }
}

pub open spec fn spec_is_digit(c: char) -> bool {
    48 <= (c as u32) && (c as u32) <= 57
}

pub open spec fn spec_digit_val(c: char) -> int {
    (c as u32) as int - 48
}

/// The decimal digits of a number, most significant first.
pub open spec fn spec_digits(n: nat) -> Seq<char>
    decreases n,
{
    if n < 10 {
        seq![spec_digit_char(n as int)]
    } else {
        spec_digits(n / 10).push(spec_digit_char((n % 10) as int))
    }
}

/// The decimal form of a component: a minus sign for negative values.
pub open spec fn spec_i64_chars(x: int) -> Seq<char> {
    if x < 0 {
        seq!['-'] + spec_digits((-x) as nat)
    } else {
        spec_digits(x as nat)
    }
}

/// The numeric value of a digit string.
pub open spec fn spec_num_val(s: Seq<char>) -> int
    decreases s.len(),
{
    if s.len() == 0 {
        0
    } else {
        10 * spec_num_val(s.drop_last()) + spec_digit_val(s.last())
    }
}

pub open spec fn spec_all_digits(s: Seq<char>) -> bool {
    forall|k: int| 0 <= k < s.len() ==> spec_is_digit(#[trigger] s[k])
}

/// Parses an unsigned decimal number; `None` on anything else.
pub open spec fn spec_parse_u64(s: Seq<char>) -> Option<u64> {
    if s.len() == 0 || !spec_all_digits(s) || spec_num_val(s) > u64::MAX {
        None
    } else {
        Some(spec_num_val(s) as u64)
    }
}

/// Parses an optionally negated decimal number.
pub open spec fn spec_parse_i64(s: Seq<char>) -> Option<int> {
    if s.len() >= 1 && s[0] == '-' {
        match spec_parse_u64(s.drop_first()) {
            Some(v) => Some(-(v as int)),
            None => None,
        }
    } else {
        match spec_parse_u64(s) {
            Some(v) => Some(v as int),
            None => None,
        }
    }
}

fn digit_char(d: u64) -> (c: char)
    requires
        d < 10,
    ensures
        c == spec_digit_char(d as int),
{
    if d == 0 {
        '0'
    } else if d == 1 {
        '1'
    } else if d == 2 {
        '2'
    } else if d == 3 {
        '3'
    } else if d == 4 {
        '4'
    } else if d == 5 {
        '5'
    } else if d == 6 {
        '6'
    } else if d == 7 {
        '7'
    } else if d == 8 {
        '8'
    } else {
        '9'
    }
}

/// The decimal digits of `n`.
pub fn u64_to_chars(n: u64) -> (r: Vec<char>)
    ensures
        r@ == spec_digits(n as nat),
    decreases n,
{
    if n < 10 {
        let mut r: Vec<char> = Vec::new();
        r.push(digit_char(n));
        proof {
            assert(r@ =~= spec_digits(n as nat));
        }
        r
    } else {
        let mut r = u64_to_chars(n / 10);
        r.push(digit_char(n % 10));
        r
    }
}

/// The decimal form of a component.
pub fn i64_to_chars(x: i64) -> (r: Vec<char>)
    requires
        x > i64::MIN,
    ensures
        r@ == spec_i64_chars(x as int),
{
    if x < 0 {
        let mut r: Vec<char> = Vec::new();
        r.push('-');
        let ds = u64_to_chars((-x) as u64);
        let mut i: usize = 0;
        while i < ds.len()
            invariant
                i <= ds@.len(),
                r@ == seq!['-'] + ds@.take(i as int),
            decreases ds@.len() - i,
        {
            r.push(ds[i]);
            i = i + 1;
            assert(r@ =~= seq!['-'] + ds@.take(i as int));
        }
        proof {
            assert(ds@.take(ds@.len() as int) =~= ds@);
        }
        r
    } else {
        u64_to_chars(x as u64)
    }
}

proof fn lemma_val_nonneg(s: Seq<char>)
    requires
        spec_all_digits(s),
    ensures
        spec_num_val(s) >= 0,
    decreases s.len(),
{
    if s.len() > 0 {
        assert(spec_all_digits(s.drop_last()));
        lemma_val_nonneg(s.drop_last());
    }
}

proof fn lemma_val_prefix(s: Seq<char>, i: int)
    requires
        spec_all_digits(s),
        0 <= i <= s.len(),
    ensures
        spec_num_val(s.take(i)) <= spec_num_val(s),
    decreases s.len() - i,
{
    if i < s.len() {
        lemma_val_prefix(s, i + 1);
        assert(s.take(i + 1).drop_last() =~= s.take(i));
        assert(spec_all_digits(s.take(i)));
        lemma_val_nonneg(s.take(i));
    } else {
        assert(s.take(i) =~= s);
    }
}

/// Parses an unsigned decimal number from characters.
pub fn parse_u64_chars(s: &Vec<char>) -> (r: Option<u64>)
    ensures
        r == spec_parse_u64(s@),
{
    if s.len() == 0 {
        return None;
    }
    let mut acc: u64 = 0;
    let mut i: usize = 0;
    while i < s.len()
        invariant
            i <= s@.len(),
            forall|k: int| 0 <= k < i ==> spec_is_digit(#[trigger] s@[k]),
            acc == spec_num_val(s@.take(i as int)),
        decreases s@.len() - i,
    {
        let u = s[i] as u32;
        if u < 48 || u > 57 {
            assert(!spec_is_digit(s@[i as int]));
            assert(!spec_all_digits(s@));
            return None;
        }
        let d = (u - 48) as u64;
        proof {
            assert(s@[i as int] as u32 == u);
            assert(spec_is_digit(s@[i as int]));
            assert(spec_digit_val(s@[i as int]) == d);
            assert(s@.take(i + 1).drop_last() =~= s@.take(i as int));
            assert(s@.take(i + 1).last() == s@[i as int]);
        }
        if acc > (u64::MAX - d) / 10 {
            proof {
                vstd::arithmetic::div_mod::lemma_fundamental_div_mod((u64::MAX - d) as int, 10);
                assert(10 * (acc as int) + d > u64::MAX);
                assert(spec_num_val(s@.take(i + 1)) > u64::MAX);
                if spec_all_digits(s@) {
                    lemma_val_prefix(s@, i + 1);
                    assert(spec_num_val(s@) > u64::MAX);
                }
            }
            return None;
        }
        proof {
            vstd::arithmetic::div_mod::lemma_fundamental_div_mod((u64::MAX - d) as int, 10);
        }
        acc = acc * 10 + d;
        i = i + 1;
    }
    proof {
        assert(s@.take(s@.len() as int) =~= s@);
        assert(spec_all_digits(s@));
        lemma_val_nonneg(s@);
    }
    Some(acc)
}

/// Parses an optionally negated decimal number from characters.
pub fn parse_i64_chars(s: &Vec<char>) -> (r: Option<i128>)
    ensures
        match r {
            Some(v) => spec_parse_i64(s@) == Some(v as int),
            None => spec_parse_i64(s@) is None,
        },
{
    if s.len() >= 1 && s[0] == '-' {
        let rest = crate::normalize::subvec(s, 1, s.len());
        proof {
            assert(rest@ =~= s@.drop_first());
        }
        match parse_u64_chars(&rest) {
            Some(v) => Some(-(v as i128)),
            None => None,
        }
    } else {
        match parse_u64_chars(s) {
            Some(v) => Some(v as i128),
            None => None,
        }
    }
}

// ---------------------------------------------------------------------------
// Intent names
// ---------------------------------------------------------------------------

/// The persisted name of an intent.
pub open spec fn spec_intent_name(i: Intent) -> Seq<char> {
    match i {
        Intent::Greeting => "Greeting"@,
        Intent::Weather => "Weather"@,
        Intent::Search => "Search"@,
        Intent::FileOpen => "FileOpen"@,
        Intent::FileShow => "FileShow"@,
        Intent::Goodbye => "Goodbye"@,
        Intent::Shutdown => "Shutdown"@,
        Intent::Unknown => "Unknown"@,
    }
}

/// The name of an intent, as persisted and displayed.
pub fn intent_name(i: &Intent) -> (r: &'static str)
    ensures
        r@ == spec_intent_name(*i),
{
    match i {
        Intent::Greeting => "Greeting",
        Intent::Weather => "Weather",
        Intent::Search => "Search",
        Intent::FileOpen => "FileOpen",
        Intent::FileShow => "FileShow",
        Intent::Goodbye => "Goodbye",
        Intent::Shutdown => "Shutdown",
        Intent::Unknown => "Unknown",
    }
}

/// Parses a persisted intent name.  `Unknown` is never assigned to a
/// sample, so it is not a valid stored name.
pub open spec fn spec_parse_intent(s: Seq<char>) -> Option<Intent> {
    if s == "Greeting"@ {
        Some(Intent::Greeting)
    } else if s == "Weather"@ {
        Some(Intent::Weather)
    } else if s == "Search"@ {
        Some(Intent::Search)
    } else if s == "FileOpen"@ {
        Some(Intent::FileOpen)
    } else if s == "FileShow"@ {
        Some(Intent::FileShow)
    } else if s == "Goodbye"@ {
        Some(Intent::Goodbye)
    } else if s == "Shutdown"@ {
        Some(Intent::Shutdown)
    } else {
        None
    }
}

fn parse_intent(s: &Vec<char>) -> (r: Option<Intent>)
    ensures
        r == spec_parse_intent(s@),
{
    if chars_eq(s, &to_chars("Greeting")) {
        Some(Intent::Greeting)
    } else if chars_eq(s, &to_chars("Weather")) {
        Some(Intent::Weather)
    } else if chars_eq(s, &to_chars("Search")) {
        Some(Intent::Search)
    } else if chars_eq(s, &to_chars("FileOpen")) {
        Some(Intent::FileOpen)
    } else if chars_eq(s, &to_chars("FileShow")) {
        Some(Intent::FileShow)
    } else if chars_eq(s, &to_chars("Goodbye")) {
        Some(Intent::Goodbye)
    } else if chars_eq(s, &to_chars("Shutdown")) {
        Some(Intent::Shutdown)
    } else {
        None
    }
}

// ---------------------------------------------------------------------------
// The store as text
// ---------------------------------------------------------------------------

/// The component fields of one vector.
pub open spec fn spec_comp_fields(v: Seq<i64>) -> Seq<Seq<char>> {
    Seq::new(v.len(), |k: int| spec_i64_chars(v[k] as int))
}

/// The fields of a sample sequence: name, weight, then components, for
/// each sample in order.
pub open spec fn spec_fields_of_samples(samples: Seq<IntentSample>) -> Seq<Seq<char>>
    decreases samples.len(),
{
    if samples.len() == 0 {
        Seq::empty()
    } else {
        spec_fields_of_samples(samples.drop_last()) + seq![
            spec_intent_name(samples.last().intent),
            spec_digits(samples.last().weight as nat),
        ] + spec_comp_fields(samples.last().vector@)
    }
}

/// The persisted form of a store: the dimension, then every sample's
/// fields, all joined with single spaces.
pub open spec fn spec_encode_store(store: LearningStore, dim: nat) -> Seq<char> {
    spec_join_sp(seq![spec_digits(dim)] + spec_fields_of_samples(store.samples@))
}

/// The view of a sample sequence: intent, vector contents, weight.
pub open spec fn spec_sample_views(samples: Seq<IntentSample>) -> Seq<(Intent, Seq<i64>, int)> {
    Seq::new(samples.len(), |k: int| (samples[k].intent, samples[k].vector@, samples[k].weight as int))
}

/// Parses the components of one vector; every component must be in range.
pub open spec fn spec_parse_comps(fields: Seq<Seq<char>>) -> Option<Seq<i64>>
    decreases fields.len(),
{
    if fields.len() == 0 {
        Some(Seq::empty())
    } else {
        match spec_parse_i64(fields[0]) {
            Some(v) => if -16384 <= v <= 16383 {
                match spec_parse_comps(fields.drop_first()) {
                    Some(rest) => Some(seq![v as i64] + rest),
                    None => None,
                }
            } else {
                None
            },
            None => None,
        }
    }
}

/// Parses a field sequence into sample views: groups of name, weight
/// and `dim` components.  Any malformed group rejects the whole text.
pub open spec fn spec_parse_samples(fields: Seq<Seq<char>>, dim: nat) -> Option<
    Seq<(Intent, Seq<i64>, int)>,
>
    decreases fields.len(),
{
    if fields.len() == 0 {
        Some(Seq::empty())
    } else if fields.len() < 2 + dim {
        None
    } else {
        let name = spec_parse_intent(fields[0]);
        let w = spec_parse_u64(fields[1]);
        let comps = spec_parse_comps(fields.subrange(2, 2 + dim as int));
        if name is None || w is None || comps is None {
            None
        } else if w.unwrap() < 1 || w.unwrap() > 2000 {
            None
        } else {
            match spec_parse_samples(fields.skip(2 + dim as int), dim) {
                Some(rest) => Some(
                    seq![(name.unwrap(), comps.unwrap(), w.unwrap() as int)] + rest,
                ),
                None => None,
            }
        }
    }
}

/// Parses a persisted store for an engine of dimension `dim`: the header
/// must state the same dimension, and every sample must be well formed.
pub open spec fn spec_decode_store(text: Seq<char>, dim: nat) -> Option<
    Seq<(Intent, Seq<i64>, int)>,
> {
    let fields = spec_split_ws(text);
    if fields.len() == 0 {
        None
    } else if spec_parse_u64(fields[0]) != Some(dim as u64) || dim > u64::MAX {
        None
    } else {
        spec_parse_samples(fields.drop_first(), dim)
    }
}

/// Serializes a store: the dimension, then for every sample its intent
/// name, weight and components, space separated.
pub fn encode_store(store: &LearningStore, dim: usize) -> (r: String)
    requires
        spec_store_wf(*store, dim as nat),
    ensures
        r@ == spec_encode_store(*store, dim as nat),
{
    let mut fields: Vec<String> = Vec::new();
    fields.push(chars_to_string(&u64_to_chars(dim as u64)));
    let n = store.samples.len();
    let mut t: usize = 0;
    proof {
        assert(spec_str_views(fields@) =~= seq![spec_digits(dim as nat)]
            + spec_fields_of_samples(store.samples@.take(0)));
    }
    while t < n
        invariant
            n == store.samples@.len(),
            t <= n,
            spec_store_wf(*store, dim as nat),
            spec_str_views(fields@) == seq![spec_digits(dim as nat)] + spec_fields_of_samples(
                store.samples@.take(t as int),
            ),
        decreases n - t,
    {
        let s = &store.samples[t];
        fields.push(String::from_str(intent_name(&s.intent)));
        fields.push(chars_to_string(&u64_to_chars(s.weight)));
        let ghost base = seq![spec_digits(dim as nat)] + spec_fields_of_samples(
            store.samples@.take(t as int),
        ) + seq![
            spec_intent_name(s.intent),
            spec_digits(s.weight as nat),
        ];
        proof {
            assert(spec_str_views(fields@) =~= base + spec_comp_fields(s.vector@.take(0)));
        }
        let m = s.vector.len();
        let mut c: usize = 0;
        while c < m
            invariant
                m == s.vector@.len(),
                c <= m,
                spec_sample_wf(*s, dim as nat),
                spec_str_views(fields@) == base + spec_comp_fields(s.vector@.take(c as int)),
            decreases m - c,
        {
            assert(-16384 <= s.vector@[c as int] <= 16383);
            let st = chars_to_string(&i64_to_chars(s.vector[c]));
            let ghost stv = st@;
            let ghost prevf = fields@;
            fields.push(st);
            c = c + 1;
            proof {
                let target = base + spec_comp_fields(s.vector@.take(c as int));
                assert(stv == spec_i64_chars(s.vector@[c - 1] as int));
                assert(fields@.len() == prevf.len() + 1);
                assert(fields@[prevf.len() as int]@ == stv);
                assert(forall|k: int| 0 <= k < prevf.len() ==> fields@[k] == #[trigger] prevf[k]);
                assert(s.vector@.take(c - 1).len() == c - 1);
                assert(spec_comp_fields(s.vector@.take(c - 1)).len() == c - 1);
                assert(spec_str_views(prevf).len() == prevf.len());
                assert(prevf.len() == base.len() + c - 1);
                assert forall|k: int| 0 <= k < fields@.len() implies spec_str_views(fields@)[k]
                    == target[k] by {
                    if k < base.len() {
                        assert(spec_str_views(prevf)[k] == base[k]);
                    } else if k < prevf.len() {
                        let j = k - base.len();
                        assert(spec_str_views(prevf)[k] == spec_comp_fields(
                            s.vector@.take(c - 1),
                        )[j]);
                        assert(spec_comp_fields(s.vector@.take(c - 1))[j] == spec_i64_chars(
                            s.vector@.take(c - 1)[j] as int,
                        ));
                        assert(spec_comp_fields(s.vector@.take(c as int))[j] == spec_i64_chars(
                            s.vector@.take(c as int)[j] as int,
                        ));
                        assert(s.vector@.take(c - 1)[j] == s.vector@.take(c as int)[j]);
                    } else {
                        assert(k == prevf.len());
                        assert(spec_str_views(fields@)[k] == stv);
                        assert(target[k] == spec_comp_fields(s.vector@.take(c as int))[c - 1]);
                        assert(spec_comp_fields(s.vector@.take(c as int))[c - 1]
                            == spec_i64_chars(s.vector@.take(c as int)[c - 1] as int));
                        assert(s.vector@.take(c as int)[c - 1] == s.vector@[c - 1]);
                    }
                };
                assert(spec_str_views(fields@) =~= target);
            }
        }
        t = t + 1;
        proof {
            assert(s.vector@.take(m as int) =~= s.vector@);
            assert(store.samples@.take(t as int).drop_last() =~= store.samples@.take(t - 1));
            assert(store.samples@.take(t as int).last() == store.samples@[t - 1]);
            assert(spec_str_views(fields@) =~= seq![spec_digits(dim as nat)]
                + spec_fields_of_samples(store.samples@.take(t as int)));
        }
    }
    proof {
        assert(store.samples@.take(n as int) =~= store.samples@);
    }
    join_fields(&fields)
}

/// Parses a persisted store.  `None` when the text is not exactly a
/// well-formed store of dimension `dim`.
pub fn decode_store(text: &str, dim: usize) -> (r: Option<LearningStore>)
    ensures
        match r {
            Some(store) => {
                &&& spec_decode_store(text@, dim as nat) == Some(
                    spec_sample_views(store.samples@),
                )
                &&& spec_store_wf(store, dim as nat)
            },
            None => spec_decode_store(text@, dim as nat) is None,
        },
{
    let cs = to_chars(text);
    let fields = split_ws_vec(&cs);
    let ghost fviews = spec_vec_views(fields@);
    if fields.len() == 0 {
        return None;
    }
    match parse_u64_chars(&fields[0]) {
        Some(h) => {
            if !(h == dim as u64) {
                return None;
            }
        },
        None => {
            return None;
        },
    }
    let nf = fields.len();
    let mut samples: Vec<IntentSample> = Vec::new();
    let mut i: usize = 1;
    proof {
        assert(fviews.skip(1) =~= fviews.drop_first());
    }
    while i < nf
        invariant
            nf == fields@.len(),
            nf <= usize::MAX,
            1 <= i <= nf,
            fviews == spec_vec_views(fields@),
            fviews == spec_split_ws(text@),
            spec_parse_u64(fviews[0]) == Some(dim as u64),
            spec_parse_samples(fviews.drop_first(), dim as nat) == match spec_parse_samples(
                fviews.skip(i as int),
                dim as nat,
            ) {
                Some(rest) => Some(spec_sample_views(samples@) + rest),
                None => None,
            },
            forall|k: int|
                0 <= k < samples@.len() ==> spec_sample_wf(#[trigger] samples@[k], dim as nat),
        decreases nf - i,
    {
        let ghost rest_fields = fviews.skip(i as int);
        if nf - i < 2 || nf - i - 2 < dim {
            assert(rest_fields.len() < 2 + dim as nat);
            assert(spec_parse_samples(rest_fields, dim as nat) is None);
            return None;
        }
        assert(rest_fields[0] == fviews[i as int] && rest_fields[1] == fviews[i + 1]);
        let name = match parse_intent(&fields[i]) {
            Some(x) => x,
            None => {
                assert(spec_parse_samples(rest_fields, dim as nat) is None);
                return None;
            },
        };
        let w = match parse_u64_chars(&fields[i + 1]) {
            Some(x) => x,
            None => {
                assert(spec_parse_samples(rest_fields, dim as nat) is None);
                return None;
            },
        };
        if w < 1 || w > 2000 {
            assert(spec_parse_samples(rest_fields, dim as nat) is None);
            return None;
        }
        let mut comps: Vec<i64> = Vec::new();
        let mut c: usize = 0;
        let ghost comp_fields = fviews.subrange(i + 2, i + 2 + dim as int);
        proof {
            assert(rest_fields.subrange(2, 2 + dim as int) =~= comp_fields);
            assert(comp_fields.skip(0) =~= comp_fields);
        }
        while c < dim
            invariant
                nf == fields@.len(),
                1 <= i,
                i + 2 + dim <= nf,
                c <= dim,
                fviews == spec_vec_views(fields@),
                fviews == spec_split_ws(text@),
                spec_parse_u64(fviews[0]) == Some(dim as u64),
                rest_fields == fviews.skip(i as int),
                comp_fields == fviews.subrange(i + 2, i + 2 + dim as int),
                rest_fields.subrange(2, 2 + dim as int) == comp_fields,
                spec_parse_intent(rest_fields[0]) == Some(name),
                spec_parse_u64(rest_fields[1]) == Some(w),
                1 <= w <= 2000,
                spec_parse_samples(fviews.drop_first(), dim as nat) == match spec_parse_samples(
                    fviews.skip(i as int),
                    dim as nat,
                ) {
                    Some(rest) => Some(spec_sample_views(samples@) + rest),
                    None => None,
                },
                forall|k: int|
                    0 <= k < samples@.len() ==> spec_sample_wf(
                        #[trigger] samples@[k],
                        dim as nat,
                    ),
                comps@.len() == c,
                forall|k: int| 0 <= k < c ==> -16384 <= #[trigger] comps@[k] <= 16383,
                spec_parse_comps(comp_fields) == match spec_parse_comps(
                    comp_fields.skip(c as int),
                ) {
                    Some(rest) => Some(comps@ + rest),
                    None => None,
                },
            decreases dim - c,
        {
            let ghost rem = comp_fields.skip(c as int);
            proof {
                assert(rem[0] == comp_fields[c as int] && comp_fields[c as int] == fviews[i + 2
                    + c]);
                assert(rem.drop_first() =~= comp_fields.skip(c + 1));
            }
            let parsed = parse_i64_chars(&fields[i + 2 + c]);
            let v = match parsed {
                Some(x) => x,
                None => {
                    proof {
                        assert(spec_parse_comps(rem) is None);
                        assert(spec_parse_comps(comp_fields) is None);
                        assert(spec_parse_samples(rest_fields, dim as nat) is None);
                    }
                    return None;
                },
            };
            if v < -16384 || v > 16383 {
                proof {
                    assert(spec_parse_comps(rem) is None);
                    assert(spec_parse_comps(comp_fields) is None);
                    assert(spec_parse_samples(rest_fields, dim as nat) is None);
                }
                return None;
            }
            let ghost prevc = comps@;
            comps.push(v as i64);
            c = c + 1;
            proof {
                assert(comps@ == prevc.push(v as i64));
                assert(spec_parse_i64(rem[0]) == Some(v as int));
                if spec_parse_comps(comp_fields.skip(c as int)) is Some {
                    let r = spec_parse_comps(comp_fields.skip(c as int)).unwrap();
                    assert(spec_parse_comps(rem) == Some(seq![v as i64] + r));
                    assert(prevc + (seq![v as i64] + r) =~= comps@ + r);
                } else {
                    assert(spec_parse_comps(rem) is None);
                }
            }
        }
        proof {
            assert(comp_fields.skip(dim as int) =~= Seq::<Seq<char>>::empty());
            assert(spec_parse_comps(comp_fields) == Some(comps@ + Seq::<i64>::empty()));
            assert(comps@ + Seq::<i64>::empty() =~= comps@);
        }
        let ghost compsv = comps@;
        let ghost prev = samples@;
        let sample = IntentSample { intent: name, vector: comps, weight: w };
        samples.push(sample);
        i = i + 2 + dim;
        proof {
            let tview = (name, compsv, w as int);
            assert(samples@.last().intent == name && samples@.last().vector@ == compsv
                && samples@.last().weight == w);
            assert(name != Intent::Unknown);
            assert(crate::vector::spec_vec_in_range(compsv));
            assert(spec_sample_wf(samples@.last(), dim as nat));
            assert forall|k: int| 0 <= k < samples@.len() implies spec_sample_wf(
                #[trigger] samples@[k],
                dim as nat,
            ) by {
                if k < prev.len() {
                    assert(samples@[k] == prev[k]);
                    assert(spec_sample_wf(prev[k], dim as nat));
                } else {
                    assert(samples@[k] == samples@.last());
                }
            };
            assert(spec_sample_views(samples@) =~= spec_sample_views(prev) + seq![tview]);
            assert(fviews.skip(i as int) =~= rest_fields.skip(2 + dim as int));
            assert(spec_parse_comps(rest_fields.subrange(2, 2 + dim as int)) == Some(compsv));
            if spec_parse_samples(fviews.skip(i as int), dim as nat) is Some {
                let r = spec_parse_samples(fviews.skip(i as int), dim as nat).unwrap();
                assert(spec_parse_samples(rest_fields, dim as nat) == Some(seq![tview] + r));
                assert(spec_sample_views(prev) + (seq![tview] + r) =~= spec_sample_views(samples@)
                    + r);
            } else {
                assert(spec_parse_samples(rest_fields, dim as nat) is None);
            }
        }
    }
    proof {
        assert(fviews.skip(nf as int) =~= Seq::<Seq<char>>::empty());
        assert(spec_parse_samples(fviews.skip(nf as int), dim as nat) == Some(
            Seq::<(Intent, Seq<i64>, int)>::empty(),
        ));
        assert(spec_sample_views(samples@) + Seq::<(Intent, Seq<i64>, int)>::empty()
            =~= spec_sample_views(samples@));
    }
    Some(LearningStore { samples })
}

/// Loads a store from its persisted text: a malformed text, including a
/// dimension mismatch, silently yields the empty store.
pub fn store_from_text(text: &str, dim: usize) -> (r: LearningStore)
    ensures
        spec_store_wf(r, dim as nat),
        match spec_decode_store(text@, dim as nat) {
            Some(views) => spec_sample_views(r.samples@) == views,
            None => r.samples@.len() == 0,
        },
{
    match decode_store(text, dim) {
        Some(store) => store,
        None => LearningStore::new(),
    }
}


// ---------------------------------------------------------------------------
// The round trip: a persisted store parses back to itself
// ---------------------------------------------------------------------------

proof fn lemma_digit_char_props(d: int)
    requires
        0 <= d <= 9,
    ensures
        spec_is_digit(spec_digit_char(d)),
        !spec_is_space(spec_digit_char(d)),
        spec_digit_char(d) != '-',
        spec_digit_val(spec_digit_char(d)) == d,
{
}

/// A plain word: nonempty, without whitespace.  Only such fields
/// survive joining and splitting unchanged.
pub open spec fn spec_plain_field(f: Seq<char>) -> bool {
    f.len() >= 1 && forall|k: int| 0 <= k < f.len() ==> !spec_is_space(#[trigger] f[k])
}

proof fn lemma_digits_wf(n: nat)
    ensures
        spec_digits(n).len() >= 1,
        spec_all_digits(spec_digits(n)),
        spec_plain_field(spec_digits(n)),
        spec_digits(n)[0] != '-',
    decreases n,
{
    if n < 10 {
        lemma_digit_char_props(n as int);
    } else {
        lemma_digits_wf(n / 10);
        lemma_digit_char_props((n % 10) as int);
        let ds = spec_digits(n);
        assert(ds == spec_digits(n / 10).push(spec_digit_char((n % 10) as int)));
        assert forall|k: int| 0 <= k < ds.len() implies spec_is_digit(#[trigger] ds[k])
            && !spec_is_space(ds[k]) by {
            if k < ds.len() - 1 {
                assert(ds[k] == spec_digits(n / 10)[k]);
                assert(spec_is_digit(spec_digits(n / 10)[k]));
                assert(48 <= (ds[k] as u32) <= 57);
            }
        }
    }
}

proof fn lemma_val_digits(n: nat)
    ensures
        spec_num_val(spec_digits(n)) == n,
    decreases n,
{
    if n < 10 {
        lemma_digit_char_props(n as int);
        let ds = spec_digits(n);
        assert(ds == seq![spec_digit_char(n as int)]);
        assert(ds.len() == 1);
        assert(ds.last() == spec_digit_char(n as int));
        assert(ds.drop_last() =~= Seq::<char>::empty());
        assert(spec_num_val(ds) == 10 * spec_num_val(ds.drop_last()) + spec_digit_val(ds.last()));
        assert(spec_num_val(Seq::<char>::empty()) == 0);
    } else {
        lemma_val_digits(n / 10);
        lemma_digit_char_props((n % 10) as int);
        let ds = spec_digits(n);
        assert(ds == spec_digits(n / 10).push(spec_digit_char((n % 10) as int)));
        assert(ds.drop_last() =~= spec_digits(n / 10));
        assert(ds.last() == spec_digit_char((n % 10) as int));
        assert(spec_num_val(ds) == 10 * (n / 10) + n % 10);
        vstd::arithmetic::div_mod::lemma_fundamental_div_mod(n as int, 10);
    }
}

proof fn lemma_parse_digits(n: nat)
    requires
        n <= u64::MAX,
    ensures
        spec_parse_u64(spec_digits(n)) == Some(n as u64),
{
    lemma_digits_wf(n);
    lemma_val_digits(n);
}

proof fn lemma_i64_chars_wf(x: int)
    requires
        -16384 <= x <= 16383,
    ensures
        spec_plain_field(spec_i64_chars(x)),
        spec_parse_i64(spec_i64_chars(x)) == Some(x),
{
    if x < 0 {
        lemma_digits_wf((-x) as nat);
        lemma_parse_digits((-x) as nat);
        let s = spec_i64_chars(x);
        assert(s == seq!['-'] + spec_digits((-x) as nat));
        assert(s[0] == '-');
        assert(s.drop_first() =~= spec_digits((-x) as nat));
        assert forall|k: int| 0 <= k < s.len() implies !spec_is_space(#[trigger] s[k]) by {
            if k >= 1 {
                assert(s[k] == spec_digits((-x) as nat)[k - 1]);
                assert(spec_is_digit(spec_digits((-x) as nat)[k - 1]));
                assert(48 <= (s[k] as u32) <= 57);
            }
        }
    } else {
        lemma_digits_wf(x as nat);
        lemma_parse_digits(x as nat);
        let s = spec_i64_chars(x);
        assert(spec_is_digit(s[0]));
        assert(s[0] != '-');
    }
}

proof fn lemma_intent_name_wf(i: Intent)
    ensures
        spec_plain_field(spec_intent_name(i)),
        i != Intent::Unknown ==> spec_parse_intent(spec_intent_name(i)) == Some(i),
{
    reveal_strlit("Greeting");
    reveal_strlit("Weather");
    reveal_strlit("Search");
    reveal_strlit("FileOpen");
    reveal_strlit("FileShow");
    reveal_strlit("Goodbye");
    reveal_strlit("Shutdown");
    reveal_strlit("Unknown");
    assert("Greeting"@.len() == 8 && "Weather"@.len() == 7 && "Search"@.len() == 6
        && "FileOpen"@.len() == 8 && "FileShow"@.len() == 8 && "Goodbye"@.len() == 7
        && "Shutdown"@.len() == 8 && "Unknown"@.len() == 7);
    assert("FileOpen"@[0] != "Greeting"@[0] && "FileShow"@[0] != "Greeting"@[0]
        && "Shutdown"@[0] != "Greeting"@[0] && "FileShow"@[4] != "FileOpen"@[4]
        && "Shutdown"@[0] != "FileOpen"@[0] && "Shutdown"@[0] != "FileShow"@[0]
        && "Goodbye"@[0] != "Weather"@[0] && "Unknown"@[0] != "Weather"@[0]
        && "Unknown"@[0] != "Goodbye"@[0]);
    let s = spec_intent_name(i);
    assert forall|k: int| 0 <= k < s.len() implies !spec_is_space(#[trigger] s[k]) by {
        assert((s[k] as u32) != 32 && (s[k] as u32) != 9 && (s[k] as u32) != 10 && (s[k] as u32)
            != 13);
    }
}

proof fn lemma_split_join(fields: Seq<Seq<char>>)
    requires
        forall|k: int| 0 <= k < fields.len() ==> spec_plain_field(#[trigger] fields[k]),
    ensures
        spec_split_ws(spec_join_sp(fields)) == fields,
    decreases fields.len(),
{
    if fields.len() == 0 {
    } else if fields.len() == 1 {
        let j = spec_join_sp(fields);
        assert(j == fields[0]);
        assert(spec_plain_field(fields[0]));
        assert(j.len() >= 1 && !spec_is_space(j[0]));
        crate::normalize::lemma_word_len_at(j, j.len() as int);
        let w = spec_word_len(j) as int;
        assert(w == j.len());
        assert(spec_split_ws(j) == seq![j.take(w)] + spec_split_ws(
            j.subrange(w, j.len() as int),
        ));
        assert(j.subrange(w, j.len() as int) =~= Seq::<char>::empty());
        assert(spec_split_ws(j.subrange(w, j.len() as int)) == Seq::<Seq<char>>::empty());
        assert(j.take(w) =~= j);
        assert(seq![j] + Seq::<Seq<char>>::empty() =~= fields);
    } else {
        let f0 = fields[0];
        let rest = fields.subrange(1, fields.len() as int);
        let j = spec_join_sp(fields);
        assert(j == f0 + seq![' '] + spec_join_sp(rest));
        assert(spec_plain_field(f0));
        assert(forall|m: int| 0 <= m < f0.len() ==> j[m] == #[trigger] f0[m]);
        assert(j[f0.len() as int] == ' ');
        assert(forall|m: int| 0 <= m < f0.len() ==> !spec_is_space(j[m]));
        crate::normalize::lemma_word_len_at(j, f0.len() as int);
        let w = spec_word_len(j) as int;
        assert(w == f0.len());
        assert(j.len() >= 1 && !spec_is_space(j[0]));
        assert(spec_split_ws(j) == seq![j.take(w)] + spec_split_ws(
            j.subrange(w, j.len() as int),
        ));
        assert(j.take(w) =~= f0);
        let tail = j.subrange(w, j.len() as int);
        assert(tail.len() >= 1);
        assert(spec_is_space(tail[0]));
        assert(spec_split_ws(tail) == spec_split_ws(tail.subrange(1, tail.len() as int)));
        assert(tail.subrange(1, tail.len() as int) =~= spec_join_sp(rest));
        assert(forall|k: int| 0 <= k < rest.len() ==> rest[k] == #[trigger] fields[k + 1]);
        lemma_split_join(rest);
        assert(spec_split_ws(j) == seq![f0] + rest);
        assert(seq![f0] + rest =~= fields);
    }
}

proof fn lemma_comp_fields_roundtrip(v: Seq<i64>)
    requires
        crate::vector::spec_vec_in_range(v),
    ensures
        spec_parse_comps(spec_comp_fields(v)) == Some(v),
        forall|k: int|
            0 <= k < spec_comp_fields(v).len() ==> spec_plain_field(
                #[trigger] spec_comp_fields(v)[k],
            ),
    decreases v.len(),
{
    assert forall|k: int| 0 <= k < spec_comp_fields(v).len() implies spec_plain_field(
        #[trigger] spec_comp_fields(v)[k],
    ) by {
        assert(-16384 <= v[k] <= 16383);
        lemma_i64_chars_wf(v[k] as int);
    }
    if v.len() > 0 {
        let fs = spec_comp_fields(v);
        assert(-16384 <= v[0] <= 16383);
        lemma_i64_chars_wf(v[0] as int);
        assert(fs[0] == spec_i64_chars(v[0] as int));
        assert(crate::vector::spec_vec_in_range(v.drop_first()));
        lemma_comp_fields_roundtrip(v.drop_first());
        assert(fs.drop_first() =~= spec_comp_fields(v.drop_first()));
        assert((v[0] as int) as i64 == v[0]);
        assert(seq![v[0]] + v.drop_first() =~= v);
    }
}

proof fn lemma_fields_of_first(samples: Seq<IntentSample>)
    requires
        samples.len() > 0,
    ensures
        spec_fields_of_samples(samples) == (seq![
            spec_intent_name(samples[0].intent),
            spec_digits(samples[0].weight as nat),
        ] + spec_comp_fields(samples[0].vector@)) + spec_fields_of_samples(samples.drop_first()),
    decreases samples.len(),
{
    let group0 = seq![
        spec_intent_name(samples[0].intent),
        spec_digits(samples[0].weight as nat),
    ] + spec_comp_fields(samples[0].vector@);
    if samples.len() == 1 {
        assert(samples.drop_last() =~= Seq::<IntentSample>::empty());
        assert(samples.drop_first() =~= Seq::<IntentSample>::empty());
        assert(samples.last() == samples[0]);
        assert(spec_fields_of_samples(samples) =~= group0 + spec_fields_of_samples(
            samples.drop_first(),
        ));
    } else {
        let front = samples.drop_last();
        lemma_fields_of_first(front);
        assert(front[0] == samples[0]);
        let lastgroup = seq![
            spec_intent_name(samples.last().intent),
            spec_digits(samples.last().weight as nat),
        ] + spec_comp_fields(samples.last().vector@);
        assert(spec_fields_of_samples(samples) == spec_fields_of_samples(front) + lastgroup);
        assert(front.drop_first() =~= samples.drop_first().drop_last());
        assert(samples.drop_first().last() == samples.last());
        assert(spec_fields_of_samples(samples.drop_first()) == spec_fields_of_samples(
            samples.drop_first().drop_last(),
        ) + lastgroup);
        assert((group0 + spec_fields_of_samples(front.drop_first())) + lastgroup =~= group0 + (
        spec_fields_of_samples(front.drop_first()) + lastgroup));
    }
}

proof fn lemma_fields_of_wf(samples: Seq<IntentSample>, dim: nat)
    requires
        forall|k: int| 0 <= k < samples.len() ==> spec_sample_wf(#[trigger] samples[k], dim),
    ensures
        spec_fields_of_samples(samples).len() == samples.len() * (2 + dim),
        forall|k: int|
            0 <= k < spec_fields_of_samples(samples).len() ==> spec_plain_field(
                #[trigger] spec_fields_of_samples(samples)[k],
            ),
    decreases samples.len(),
{
    if samples.len() == 0 {
    } else {
        let front = samples.drop_last();
        assert(forall|k: int|
            0 <= k < front.len() ==> spec_sample_wf(#[trigger] front[k], dim));
        lemma_fields_of_wf(front, dim);
        let last = samples.last();
        assert(spec_sample_wf(last, dim));
        lemma_intent_name_wf(last.intent);
        lemma_digits_wf(last.weight as nat);
        lemma_comp_fields_roundtrip(last.vector@);
        let lastgroup = seq![
            spec_intent_name(last.intent),
            spec_digits(last.weight as nat),
        ] + spec_comp_fields(last.vector@);
        assert(lastgroup.len() == 2 + dim);
        assert(spec_fields_of_samples(samples).len() == front.len() * (2 + dim) + (2 + dim));
        assert(front.len() * (2 + dim) + (2 + dim) == samples.len() * (2 + dim))
            by (nonlinear_arith)
            requires
                front.len() + 1 == samples.len(),
        ;
        assert forall|k: int| 0 <= k < spec_fields_of_samples(samples).len() implies
            spec_plain_field(#[trigger] spec_fields_of_samples(samples)[k]) by {
            let fs = spec_fields_of_samples(samples);
            let nf = spec_fields_of_samples(front).len() as int;
            if k < nf {
                assert(fs[k] == spec_fields_of_samples(front)[k]);
                assert(spec_plain_field(spec_fields_of_samples(front)[k]));
            } else {
                assert(fs[k] == lastgroup[k - nf]);
                if k - nf >= 2 {
                    assert(lastgroup[k - nf] == spec_comp_fields(last.vector@)[k - nf - 2]);
                    assert(spec_plain_field(spec_comp_fields(last.vector@)[k - nf - 2]));
                }
            }
        }
    }
}

proof fn lemma_parse_samples_roundtrip(samples: Seq<IntentSample>, dim: nat)
    requires
        forall|k: int| 0 <= k < samples.len() ==> spec_sample_wf(#[trigger] samples[k], dim),
    ensures
        spec_parse_samples(spec_fields_of_samples(samples), dim) == Some(
            spec_sample_views(samples),
        ),
    decreases samples.len(),
{
    lemma_fields_of_wf(samples, dim);
    if samples.len() == 0 {
        assert(spec_sample_views(samples) =~= Seq::<(Intent, Seq<i64>, int)>::empty());
    } else {
        let s0 = samples[0];
        assert(spec_sample_wf(s0, dim));
        lemma_fields_of_first(samples);
        let group0 = seq![
            spec_intent_name(s0.intent),
            spec_digits(s0.weight as nat),
        ] + spec_comp_fields(s0.vector@);
        let fs = spec_fields_of_samples(samples);
        let restfs = spec_fields_of_samples(samples.drop_first());
        assert(group0.len() == 2 + dim);
        assert(fs.len() >= 2 + dim);
        assert(fs[0] == spec_intent_name(s0.intent));
        assert(fs[1] == spec_digits(s0.weight as nat));
        lemma_intent_name_wf(s0.intent);
        lemma_parse_digits(s0.weight as nat);
        lemma_comp_fields_roundtrip(s0.vector@);
        assert(fs.subrange(2, 2 + dim as int) =~= spec_comp_fields(s0.vector@));
        assert(fs.skip(2 + dim as int) =~= restfs);
        assert(forall|k: int|
            0 <= k < samples.drop_first().len() ==> spec_sample_wf(
                #[trigger] samples.drop_first()[k],
                dim,
            ));
        lemma_parse_samples_roundtrip(samples.drop_first(), dim);
        let t0 = (s0.intent, s0.vector@, s0.weight as int);
        assert(spec_parse_samples(fs, dim) == Some(seq![t0] + spec_sample_views(
            samples.drop_first(),
        )));
        assert(seq![t0] + spec_sample_views(samples.drop_first()) =~= spec_sample_views(samples));
    }
}

/// Persistence round trip: the serialized form of a well-formed store
/// parses back to exactly the same sample sequence.
pub proof fn lemma_store_roundtrip(store: LearningStore, dim: nat)
    requires
        spec_store_wf(store, dim),
        dim <= u64::MAX,
    ensures
        spec_decode_store(spec_encode_store(store, dim), dim) == Some(
            spec_sample_views(store.samples@),
        ),
{
    let fields = seq![spec_digits(dim)] + spec_fields_of_samples(store.samples@);
    lemma_digits_wf(dim);
    lemma_fields_of_wf(store.samples@, dim);
    assert forall|k: int| 0 <= k < fields.len() implies spec_plain_field(
        #[trigger] fields[k],
    ) by {
        if k >= 1 {
            assert(fields[k] == spec_fields_of_samples(store.samples@)[k - 1]);
            assert(spec_plain_field(spec_fields_of_samples(store.samples@)[k - 1]));
        }
    }
    lemma_split_join(fields);
    assert(spec_split_ws(spec_encode_store(store, dim)) == fields);
    assert(fields[0] == spec_digits(dim));
    lemma_parse_digits(dim);
    assert(fields.drop_first() =~= spec_fields_of_samples(store.samples@));
    lemma_parse_samples_roundtrip(store.samples@, dim);
}

} // verus!
