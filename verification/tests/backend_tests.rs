use intent_engine::backend::backend_step;
use intent_engine::backend::BackendAction;
use intent_engine::extract::extract_parameter;
use intent_engine::intent::Intent;
use intent_engine::learning::LearningStore;
use intent_engine::stopwords::stopwords_search;
use intent_engine::stopwords::stopwords_weather;
use intent_engine::vector::Vocab;

#[test]
fn decay_is_non_increasing_and_floored() {
    // Starting from the initial learned weight, repeated decay steps
    // shrink the weight and never drop below the 0.5 floor.
    let mut store = LearningStore::new();
    let mut vocab = Vocab::new(32);
    store.add_phrase(&mut vocab, Intent::Search, "Computerspiele Tipps");
    let mut last = store.samples[0].weight;
    assert_eq!(last, 2000);
    for _ in 0..400 {
        store.decay();
        let w = store.samples[0].weight;
        assert!(w <= last);
        assert!(w >= 500);
        last = w;
    }
    assert_eq!(last, 500);
    // At the floor the weight stays put.
    store.decay();
    assert_eq!(store.samples[0].weight, 500);
}

#[test]
fn greeting_activates_the_backend() {
    let (active, action) = backend_step(false, &Intent::Greeting, "Hallo");
    assert!(active);
    assert!(matches!(action, BackendAction::Greet { first_time: true }));
    let (active2, action2) = backend_step(true, &Intent::Greeting, "Hallo");
    assert!(active2);
    assert!(matches!(action2, BackendAction::Greet { first_time: false }));
}

#[test]
fn inactive_backend_asks_for_a_greeting() {
    for intent in [Intent::Weather, Intent::Search, Intent::FileOpen, Intent::FileShow] {
        let (active, action) = backend_step(false, &intent, "irgendwas");
        assert!(!active);
        assert!(matches!(action, BackendAction::NotActive));
    }
}

#[test]
fn active_backend_extracts_parameters() {
    let (_, action) = backend_step(true, &Intent::Weather, "Wie ist das Wetter in Berlin?");
    assert!(matches!(action, BackendAction::Weather(Some(ref l)) if l == "Berlin"));
    let (_, action) = backend_step(true, &Intent::Search, "suche nach Rust Programmierung");
    assert!(matches!(action, BackendAction::SearchFor(ref q) if q == "rust programmierung"));
    let (_, action) = backend_step(true, &Intent::FileOpen, "\u{d6}ffne Firefox");
    assert!(matches!(action, BackendAction::OpenFile(ref p) if p == "Firefox"));
    let (_, action) = backend_step(true, &Intent::FileShow, "Zeig mir den Bericht");
    assert!(matches!(action, BackendAction::ShowFile(ref p) if p == "den Bericht"));
}

#[test]
fn goodbye_and_shutdown_steps() {
    let (active, action) = backend_step(true, &Intent::Goodbye, "Tsch\u{fc}ss");
    assert!(!active);
    assert!(matches!(action, BackendAction::GoodbyeReply));
    let (active, action) = backend_step(false, &Intent::Goodbye, "Tsch\u{fc}ss");
    assert!(!active);
    assert!(matches!(action, BackendAction::Ignore));
    let (_, action) = backend_step(true, &Intent::Shutdown, "Beenden");
    assert!(matches!(action, BackendAction::Shutdown));
}

#[test]
fn unknown_prompts_when_active() {
    let (_, action) = backend_step(true, &Intent::Unknown, "xkqv");
    assert!(matches!(action, BackendAction::Unsure));
    let (_, action) = backend_step(false, &Intent::Unknown, "xkqv");
    assert!(matches!(action, BackendAction::Ignore));
}

#[test]
fn parameter_extraction_filters_stopwords() {
    assert_eq!(
        extract_parameter(&Intent::Weather, "Wie ist das Wetter in Berlin"),
        Some("berli".to_string())
    );
    assert_eq!(
        extract_parameter(&Intent::Search, "Suche Informationen \u{fc}ber Katzen"),
        Some("information uber katze".to_string())
    );
    assert_eq!(extract_parameter(&Intent::Greeting, "Hallo"), None);
    assert_eq!(extract_parameter(&Intent::Weather, "Wie ist das Wetter"), None);
}

#[test]
fn stopword_lists_hold_expected_entries() {
    let s = stopwords_search();
    assert_eq!(s.len(), 12);
    assert!(s.contains(&"suche"));
    assert!(s.contains(&"\u{fc}ber"));
    let w = stopwords_weather();
    assert_eq!(w.len(), 8);
    assert!(w.contains(&"wetter"));
}
