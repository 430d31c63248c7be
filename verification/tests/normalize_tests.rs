use intent_engine::normalize::normalize;
use intent_engine::normalize::tokenize;

#[test]
fn stemming_example() {
    assert_eq!(normalize("Wetter"), "wetter");
    assert_eq!(normalize("Wetters"), "wetter");
}

#[test]
fn normalize_lowercases_and_strips_punctuation() {
    assert_eq!(normalize("Hallo!"), "hallo");
    assert_eq!(normalize("Wie ist das Wetter in Berlin?"), "wie ist das wetter in berli");
}

#[test]
fn normalize_folds_umlauts() {
    assert_eq!(normalize("Grüß"), "gruß");
    assert_eq!(normalize("schönen"), "schon");
}

#[test]
fn normalize_empty_and_blank() {
    assert_eq!(normalize(""), "");
    assert_eq!(normalize("   ?!.  "), "");
}

#[test]
fn tokenize_splits_on_whitespace() {
    let toks = tokenize("Guten   Morgen");
    assert_eq!(toks, vec!["gute".to_string(), "morge".to_string()]);
}

#[test]
fn stemmer_guards_short_words() {
    // "das" ends in "s" but the remaining stem would be too short.
    assert_eq!(normalize("das"), "das");
    // "wie" keeps its final "e" for the same reason.
    assert_eq!(normalize("wie"), "wie");
}
