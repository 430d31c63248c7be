use vstd::prelude::*;

verus! {

/// The views of a vector of string slices.
pub open spec fn spec_strs_views(s: Seq<&str>) -> Seq<Seq<char>> {
    Seq::new(s.len(), |k: int| s[k]@)
}

/// The command and filler words dropped from a search parameter.
pub open spec fn spec_sw_search() -> Seq<Seq<char>> {
    seq![
        "finde"@,
        "suche"@,
        "such"@,
        "informationen"@,
        "info"@,
        "\u{fc}ber"@,
        "zu"@,
        "den"@,
        "die"@,
        "das"@,
        "ein"@,
        "eine"@,
    ]
}

/// The command and filler words dropped from a weather parameter.
pub open spec fn spec_sw_weather() -> Seq<Seq<char>> {
    seq!["wie"@, "ist"@, "das"@, "wetter"@, "temperatur"@, "in"@, "heute"@, "jetzt"@]
}

/// The stopwords of a search request.
pub fn stopwords_search() -> (r: Vec<&'static str>)
    ensures
        spec_strs_views(r@) == spec_sw_search(),
{
    let r: Vec<&'static str> = vec![
        "finde",
        "suche",
        "such",
        "informationen",
        "info",
        "\u{fc}ber",
        "zu",
        "den",
        "die",
        "das",
        "ein",
        "eine",
    ];
    proof {
        assert(spec_strs_views(r@) =~= spec_sw_search());
    }
    r
}

/// The stopwords of a weather request.
pub fn stopwords_weather() -> (r: Vec<&'static str>)
    ensures
        spec_strs_views(r@) == spec_sw_weather(),
{
    let r: Vec<&'static str> = vec!["wie", "ist", "das", "wetter", "temperatur", "in", "heute", "jetzt"];
    proof {
        assert(spec_strs_views(r@) =~= spec_sw_weather());
    }
    r
}

} // verus!
