use vstd::prelude::*;

use crate::intent::Intent;
use crate::normalize::join_fields;
use crate::normalize::spec_join_sp;
use crate::normalize::spec_str_views;
use crate::normalize::spec_tokens;
use crate::normalize::tokenize;
use crate::stopwords::spec_strs_views;
use crate::stopwords::spec_sw_search;
use crate::stopwords::spec_sw_weather;
use crate::stopwords::stopwords_search;
use crate::stopwords::stopwords_weather;
use crate::text::chars_eq;
use crate::text::to_chars;

verus! {

/// Whether a token stands in a stopword list.
pub open spec fn spec_in_list(list: Seq<Seq<char>>, tok: Seq<char>) -> bool {
    exists|k: int| 0 <= k < list.len() && list[k] == tok
}

/// Keeps the tokens that are not search stopwords.
pub open spec fn keep_search_pred() -> spec_fn(Seq<char>) -> bool {
    |t: Seq<char>| !spec_in_list(spec_sw_search(), t)
}

/// Keeps the tokens that are not weather stopwords.
pub open spec fn keep_weather_pred() -> spec_fn(Seq<char>) -> bool {
    |t: Seq<char>| !spec_in_list(spec_sw_weather(), t)
}

/// The parameter of a request: the normalized tokens of the utterance
/// with the intent's stopwords removed, rejoined with single spaces;
/// nothing when no token survives or the intent takes no parameter.
pub open spec fn spec_extract_parameter(intent: Intent, input: Seq<char>) -> Option<Seq<char>> {
    let toks = spec_tokens(input);
    match intent {
        Intent::Search => {
            let kept = toks.filter(keep_search_pred());
            if kept.len() == 0 {
                None
            } else {
                Some(spec_join_sp(kept))
            }
        },
        Intent::Weather => {
            let kept = toks.filter(keep_weather_pred());
            if kept.len() == 0 {
                None
            } else {
                Some(spec_join_sp(kept))
            }
        },
        _ => None,
    }
}

/// Whether `tok` is one of the entries of `list`.
fn in_list(tok: &String, list: &Vec<&str>) -> (r: bool)
    ensures
        r == spec_in_list(spec_strs_views(list@), tok@),
{
    let tc = to_chars(tok.as_str());
    let mut k: usize = 0;
    while k < list.len()
        invariant
            k <= list@.len(),
            tc@ == tok@,
            forall|m: int| 0 <= m < k ==> spec_strs_views(list@)[m] != tok@,
        decreases list@.len() - k,
    {
        let ec = to_chars(list[k]);
        if chars_eq(&tc, &ec) {
            assert(spec_strs_views(list@)[k as int] == tok@);
            return true;
        }
        k = k + 1;
    }
    false
}

/// Extracts the free parameter of a search or weather request: the
/// normalized utterance with the intent's stopwords removed.
pub fn extract_parameter(intent: &Intent, input: &str) -> (r: Option<String>)
    ensures
        match r {
            Some(v) => spec_extract_parameter(*intent, input@) == Some(v@),
            None => spec_extract_parameter(*intent, input@) is None,
        },
{
    broadcast use Seq::lemma_filter_push;

    let list: Vec<&str> = match intent {
        Intent::Search => stopwords_search(),
        Intent::Weather => stopwords_weather(),
        _ => {
            return None;
        },
    };
    let ghost pred = if *intent == Intent::Search {
        keep_search_pred()
    } else {
        keep_weather_pred()
    };
    let toks = tokenize(input);
    let ghost views = spec_tokens(input@);
    let mut kept: Vec<String> = Vec::new();
    let mut i: usize = 0;
    proof {
        assert(views.take(0) =~= Seq::<Seq<char>>::empty());
        assert(Seq::<Seq<char>>::empty().filter(pred) =~= Seq::<Seq<char>>::empty());
    }
    while i < toks.len()
        invariant
            i <= toks@.len(),
            spec_str_views(toks@) == views,
            pred == if *intent == Intent::Search {
                keep_search_pred()
            } else {
                keep_weather_pred()
            },
            *intent == Intent::Search || *intent == Intent::Weather,
            spec_strs_views(list@) == if *intent == Intent::Search {
                spec_sw_search()
            } else {
                spec_sw_weather()
            },
            spec_str_views(kept@) == views.take(i as int).filter(pred),
        decreases toks@.len() - i,
    {
        let keep = !in_list(&toks[i], &list);
        proof {
            assert(views.take(i + 1) =~= views.take(i as int).push(views[i as int]));
            Seq::lemma_filter_push(views.take(i as int), views[i as int], pred);
            assert(pred(views[i as int]) == keep);
        }
        if keep {
            let ghost prevk = kept@;
            let t = copy_string(&toks[i]);
            kept.push(t);
            proof {
                assert(spec_str_views(kept@) =~= spec_str_views(prevk).push(views[i as int]));
            }
        }
        i = i + 1;
    }
    proof {
        assert(views.take(toks@.len() as int) =~= views);
    }
    if kept.len() == 0 {
        proof {
            assert(views.filter(pred).len() == 0);
        }
        None
    } else {
        Some(join_fields(&kept))
    }
}

/// Copies a string.
fn copy_string(s: &String) -> (r: String)
    ensures
        r@ == s@,
{
    String::from_str(s.as_str())
}

} // verus!
