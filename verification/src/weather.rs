use vstd::prelude::*;

verus! {

/// The weather description for a numeric weather code, as a spec-level map.
pub open spec fn spec_weather_text(code: int) -> Seq<char> {
    if code == 0 {
        "klar"@
    } else if 1 <= code <= 3 {
        "leicht bew\u{f6}lkt"@
    } else if code == 45 || code == 48 {
        "neblig"@
    } else if 51 <= code <= 57 {
        "leichter Regen"@
    } else if 61 <= code <= 67 {
        "Regen"@
    } else if 71 <= code <= 77 {
        "Schnee"@
    } else if 80 <= code <= 82 {
        "Regenschauer"@
    } else if 85 <= code <= 86 {
        "Schneeschauer"@
    } else if code == 95 {
        "Gewitter"@
    } else if 96 <= code <= 99 {
        "Gewitter mit Hagel"@
    } else {
        "unbekannt"@
    }
}

/// Maps a numeric weather code from the forecast service to a German
/// description.
pub fn weather_code_to_text(code: i64) -> (r: &'static str)
    ensures
        r@ == spec_weather_text(code as int),
{
    if code == 0 {
        "klar"
    } else if 1 <= code && code <= 3 {
        "leicht bew\u{f6}lkt"
    } else if code == 45 || code == 48 {
        "neblig"
    } else if 51 <= code && code <= 57 {
        "leichter Regen"
    } else if 61 <= code && code <= 67 {
        "Regen"
    } else if 71 <= code && code <= 77 {
        "Schnee"
    } else if 80 <= code && code <= 82 {
        "Regenschauer"
    } else if 85 <= code && code <= 86 {
        "Schneeschauer"
    } else if code == 95 {
        "Gewitter"
    } else if 96 <= code && code <= 99 {
        "Gewitter mit Hagel"
    } else {
        "unbekannt"
    }
}

} // verus!
