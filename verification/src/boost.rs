use vstd::prelude::*;

use crate::intent::Intent;
use crate::text::lower_chars;
use crate::text::contains_sub;
use crate::text::spec_contains;
use crate::text::spec_lower;
use crate::text::to_chars;

verus! {

/// The contextual lexical multiplier for an intent, in thousandths,
/// decided by keyword presence in the case-folded utterance.
pub open spec fn spec_boost(intent: Intent, text: Seq<char>) -> int {
    let t = spec_lower(text);
    match intent {
        Intent::Greeting => {
            if spec_contains(t, "?"@) || spec_contains(t, "was ist"@) || spec_contains(
                t,
                "wer ist"@,
            ) || spec_contains(t, "zeig"@) || spec_contains(t, "\u{f6}ffne"@) || spec_contains(
                t,
                "starte"@,
            ) {
                300
            } else if spec_contains(t, "hallo"@) || spec_contains(t, "hi"@) || spec_contains(
                t,
                "hey"@,
            ) || spec_contains(t, "guten"@) {
                1500
            } else {
                1000
            }
        },
        Intent::Search => {
            if spec_contains(t, "suche"@) || spec_contains(t, "finde"@) || spec_contains(
                t,
                "information"@,
            ) || spec_contains(t, "recherch"@) || spec_contains(t, "erkl\u{e4}re"@)
                || spec_contains(t, "\u{fc}ber"@) || spec_contains(t, "wiki"@) || spec_contains(
                t,
                "was ist"@,
            ) || spec_contains(t, "wer ist"@) || spec_contains(t, "wie"@) || spec_contains(
                t,
                "warum"@,
            ) || spec_contains(t, "wo"@) || spec_contains(t, "?"@) {
                2500
            } else {
                1000
            }
        },
        Intent::Weather => {
            if spec_contains(t, "wetter"@) || spec_contains(t, "temperatur"@) || spec_contains(
                t,
                "warm"@,
            ) || spec_contains(t, "kalt"@) || spec_contains(t, "grad"@) || spec_contains(
                t,
                "regen"@,
            ) || spec_contains(t, "schnee"@) {
                1300
            } else {
                1000
            }
        },
        Intent::FileOpen => {
            if spec_contains(t, "\u{f6}ffne"@) || spec_contains(t, "starte"@) || spec_contains(
                t,
                "\u{f6}ffnen"@,
            ) || spec_contains(t, "start"@) {
                1400
            } else {
                1000
            }
        },
        Intent::FileShow => {
            if spec_contains(t, "zeig"@) || spec_contains(t, "wo ist"@) || spec_contains(
                t,
                "finde datei"@,
            ) || spec_contains(t, "mir"@) {
                1500
            } else {
                1000
            }
        },
        Intent::Goodbye => {
            if spec_contains(t, "danke"@) || spec_contains(t, "tsch\u{fc}ss"@) || spec_contains(
                t,
                "bis"@,
            ) {
                1300
            } else {
                1000
            }
        },
        Intent::Shutdown => {
            if spec_contains(t, "sch\u{f6}nen"@) || spec_contains(t, "beenden"@) || spec_contains(
                t,
                "ausschalten"@,
            ) {
                1500
            } else {
                1000
            }
        },
        Intent::Unknown => 1000,
    }
}

/// Whether the case-folded utterance contains the marker.
fn has(t: &Vec<char>, pat: &str) -> (r: bool)
    ensures
        r == spec_contains(t@, pat@),
{
    let p = to_chars(pat);
    contains_sub(t, &p)
}

/// The contextual multiplier, in thousandths, for scoring a sample of
/// the given intent against a raw utterance.  Case-insensitive.
pub fn intent_boost(intent: &Intent, text: &str) -> (r: u64)
    ensures
        r as int == spec_boost(*intent, text@),
        300 <= r <= 2500,
{
    let cs = to_chars(text);
    let t = lower_chars(&cs);
    match intent {
        Intent::Greeting => {
            if has(&t, "?") || has(&t, "was ist") || has(&t, "wer ist") || has(&t, "zeig") || has(
                &t,
                "\u{f6}ffne",
            ) || has(&t, "starte") {
                300
            } else if has(&t, "hallo") || has(&t, "hi") || has(&t, "hey") || has(&t, "guten") {
                1500
            } else {
                1000
            }
        },
        Intent::Search => {
            if has(&t, "suche") || has(&t, "finde") || has(&t, "information") || has(
                &t,
                "recherch",
            ) || has(&t, "erkl\u{e4}re") || has(&t, "\u{fc}ber") || has(&t, "wiki") || has(
                &t,
                "was ist",
            ) || has(&t, "wer ist") || has(&t, "wie") || has(&t, "warum") || has(&t, "wo") || has(
                &t,
                "?",
            ) {
                2500
            } else {
                1000
            }
        },
        Intent::Weather => {
            if has(&t, "wetter") || has(&t, "temperatur") || has(&t, "warm") || has(&t, "kalt")
                || has(&t, "grad") || has(&t, "regen") || has(&t, "schnee") {
                1300
            } else {
                1000
            }
        },
        Intent::FileOpen => {
            if has(&t, "\u{f6}ffne") || has(&t, "starte") || has(&t, "\u{f6}ffnen") || has(
                &t,
                "start",
            ) {
                1400
            } else {
                1000
            }
        },
        Intent::FileShow => {
            if has(&t, "zeig") || has(&t, "wo ist") || has(&t, "finde datei") || has(&t, "mir") {
                1500
            } else {
                1000
            }
        },
        Intent::Goodbye => {
            if has(&t, "danke") || has(&t, "tsch\u{fc}ss") || has(&t, "bis") {
                1300
            } else {
                1000
            }
        },
        Intent::Shutdown => {
            if has(&t, "sch\u{f6}nen") || has(&t, "beenden") || has(&t, "ausschalten") {
                1500
            } else {
                1000
            }
        },
        Intent::Unknown => 1000,
    }
}

} // verus!
