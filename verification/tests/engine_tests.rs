use intent_engine::engine::Assistant;
use intent_engine::intent::Intent;
use intent_engine::vector::Vocab;

#[test]
fn word_vectors_are_deterministic() {
    // Same token, same dimension: identical vectors, across instances
    // and across repeated calls on one instance.
    let mut a = Vocab::new(32);
    let mut b = Vocab::new(32);
    let v1 = a.word_vec("hallo");
    let v2 = a.word_vec("hallo");
    let v3 = b.word_vec("hallo");
    assert_eq!(v1, v2);
    assert_eq!(v1, v3);
    assert_eq!(v1.len(), 32);
    assert_eq!(&v1[0..4], &[-1908, -11803, -12444, -12113]);
}

#[test]
fn sentence_vector_of_blank_text_is_zero() {
    let mut v = Vocab::new(32);
    let s = v.sentence_vec("   ?!?  ");
    assert_eq!(s, vec![0i64; 32]);
}

#[test]
fn greeting_classifies_as_greeting() {
    let mut a = Assistant::new();
    assert_eq!(a.classify_text("Hallo"), Intent::Greeting);
    assert_eq!(a.classify_text("Hallo!"), Intent::Greeting);
    assert_eq!(a.classify_text("Guten Morgen"), Intent::Greeting);
}

#[test]
fn weather_question_classifies_as_weather() {
    let mut a = Assistant::new();
    assert_eq!(a.classify_text("Wie ist das Wetter in Berlin?"), Intent::Weather);
}

#[test]
fn gibberish_classifies_as_unknown() {
    let mut a = Assistant::new();
    assert_eq!(a.classify_text("xkqv zzpr wqj"), Intent::Unknown);
}

#[test]
fn shutdown_phrase_classifies_as_shutdown() {
    let mut a = Assistant::new();
    assert_eq!(a.classify_text("Sch\u{f6}nen Tag noch beenden"), Intent::Shutdown);
}

#[test]
fn corrections_teach_new_phrases() {
    let mut a = Assistant::new();
    assert_eq!(a.classify_text("Computerspiele Tipps"), Intent::Unknown);
    a.record_correction(Intent::Search, "Computerspiele Tipps");
    assert_eq!(a.store.samples.len(), 1);
    assert_eq!(a.store.samples[0].intent, Intent::Search);
    assert_eq!(a.store.samples[0].weight, 2000);
    assert_eq!(a.classify_text("Computerspiele Tipps"), Intent::Search);
}

#[test]
fn classification_decays_learned_weights() {
    let mut a = Assistant::new();
    a.record_correction(Intent::Search, "Computerspiele Tipps");
    assert_eq!(a.store.samples[0].weight, 2000);
    a.classify_text("Hallo");
    assert_eq!(a.store.samples[0].weight, 1990);
    a.classify_text("irgendwas");
    assert_eq!(a.store.samples[0].weight, 1980);
}
