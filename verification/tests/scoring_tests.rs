use intent_engine::boost::intent_boost;
use intent_engine::classifier::classify;
use intent_engine::classifier::IntentSample;
use intent_engine::intent::Intent;
use intent_engine::similarity::cosine_similarity;
use intent_engine::vector::Vocab;
use intent_engine::weather::weather_code_to_text;

#[test]
fn similarity_identity() {
    // A nonzero vector has similarity exactly 1.0 with itself, and the
    // zero vector has similarity 0 with everything.
    let mut v = Vocab::new(32);
    let a = v.word_vec("hallo");
    assert_eq!(cosine_similarity(&a, &a), 1000);
    let zero = vec![0i64; 32];
    assert_eq!(cosine_similarity(&zero, &a), 0);
    assert_eq!(cosine_similarity(&a, &zero), 0);
    assert_eq!(cosine_similarity(&zero, &zero), 0);
}

#[test]
fn similarity_of_opposite_vectors() {
    let a = vec![5i64, -3, 7, 0];
    let b = vec![-5i64, 3, -7, 0];
    assert_eq!(cosine_similarity(&a, &b), -1000);
    assert_eq!(cosine_similarity(&a, &a), 1000);
}

#[test]
fn boost_example() {
    assert_eq!(intent_boost(&Intent::Greeting, "Was ist die Hauptstadt von Frankreich?"), 300);
    assert_eq!(intent_boost(&Intent::Greeting, "Hallo!"), 1500);
}

#[test]
fn boost_covers_every_intent() {
    assert_eq!(intent_boost(&Intent::Search, "Suche etwas"), 2500);
    assert_eq!(intent_boost(&Intent::Search, "etwas"), 1000);
    assert_eq!(intent_boost(&Intent::Weather, "Wetter morgen"), 1300);
    assert_eq!(intent_boost(&Intent::Weather, "morgen"), 1000);
    assert_eq!(intent_boost(&Intent::FileOpen, "\u{d6}ffne Firefox"), 1400);
    assert_eq!(intent_boost(&Intent::FileShow, "Zeig mir das"), 1500);
    assert_eq!(intent_boost(&Intent::Goodbye, "Danke dir"), 1300);
    assert_eq!(intent_boost(&Intent::Shutdown, "Beenden bitte"), 1500);
    assert_eq!(intent_boost(&Intent::Unknown, "Hallo"), 1000);
}

#[test]
fn classify_empty_sample_set_is_unknown() {
    let input = vec![100i64; 32];
    let samples: Vec<IntentSample> = Vec::new();
    assert_eq!(classify(&input, "Hallo", &samples), Intent::Unknown);
}

#[test]
fn classify_below_threshold_is_unknown() {
    // A perfect similarity with weight 0.4 and no boost scores 0.4,
    // below the 0.5 cutoff.
    let input = vec![100i64; 4];
    let samples = vec![IntentSample { intent: Intent::Goodbye, vector: vec![100i64; 4], weight: 400 }];
    assert_eq!(classify(&input, "egal", &samples), Intent::Unknown);
}

#[test]
fn classify_first_maximal_sample_wins() {
    // Two samples with identical vectors and weights: the first one
    // encountered keeps the best score.
    let input = vec![100i64; 4];
    let samples = vec![
        IntentSample { intent: Intent::Goodbye, vector: vec![100i64; 4], weight: 1000 },
        IntentSample { intent: Intent::Shutdown, vector: vec![100i64; 4], weight: 1000 },
    ];
    assert_eq!(classify(&input, "egal", &samples), Intent::Goodbye);
    // A strictly better later sample still wins.
    let samples2 = vec![
        IntentSample { intent: Intent::Goodbye, vector: vec![100i64; 4], weight: 1000 },
        IntentSample { intent: Intent::Shutdown, vector: vec![100i64; 4], weight: 1500 },
    ];
    assert_eq!(classify(&input, "egal", &samples2), Intent::Shutdown);
}

#[test]
fn weather_codes_map_to_text() {
    assert_eq!(weather_code_to_text(0), "klar");
    assert_eq!(weather_code_to_text(2), "leicht bew\u{f6}lkt");
    assert_eq!(weather_code_to_text(45), "neblig");
    assert_eq!(weather_code_to_text(55), "leichter Regen");
    assert_eq!(weather_code_to_text(63), "Regen");
    assert_eq!(weather_code_to_text(73), "Schnee");
    assert_eq!(weather_code_to_text(81), "Regenschauer");
    assert_eq!(weather_code_to_text(86), "Schneeschauer");
    assert_eq!(weather_code_to_text(95), "Gewitter");
    assert_eq!(weather_code_to_text(97), "Gewitter mit Hagel");
    assert_eq!(weather_code_to_text(42), "unbekannt");
}
