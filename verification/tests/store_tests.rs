use intent_engine::codec::decode_store;
use intent_engine::codec::encode_store;
use intent_engine::codec::intent_name;
use intent_engine::engine::Assistant;
use intent_engine::intent::Intent;
use intent_engine::learning::LearningStore;
use intent_engine::vector::Vocab;

#[test]
fn learning_round_trip() {
    // A recorded correction survives serialization and reload exactly:
    // one extra sample, intent Search, initial weight 2.0 (in
    // thousandths), with the phrase's sentence vector.
    let mut a = Assistant::new();
    a.record_correction(Intent::Search, "Computerspiele Tipps");
    let text = a.store_text();
    let reloaded = decode_store(&text, 32).expect("persisted store must parse");
    assert_eq!(reloaded.samples.len(), 1);
    assert_eq!(reloaded.samples[0].intent, Intent::Search);
    assert_eq!(reloaded.samples[0].weight, 2000);
    let mut v = Vocab::new(32);
    assert_eq!(reloaded.samples[0].vector, v.sentence_vec("Computerspiele Tipps"));
}

#[test]
fn reload_preserves_every_sample() {
    let mut a = Assistant::new();
    a.record_correction(Intent::Search, "Computerspiele Tipps");
    a.record_correction(Intent::Weather, "Regnet es morgen");
    a.classify_text("Hallo");  // decay once, so weights are not the default
    let text = a.store_text();
    let mut b = Assistant::new();
    b.load_store_text(&text);
    assert_eq!(b.store.samples.len(), a.store.samples.len());
    for (x, y) in a.store.samples.iter().zip(b.store.samples.iter()) {
        assert_eq!(x.intent, y.intent);
        assert_eq!(x.vector, y.vector);
        assert_eq!(x.weight, y.weight);
    }
}

#[test]
fn malformed_store_text_loads_empty() {
    let mut a = Assistant::new();
    a.record_correction(Intent::Search, "Computerspiele Tipps");
    // Corrupted payloads and wrong headers all fall back to an empty store.
    for bad in [
        "",
        "not a store",
        "32 Search",
        "32 Unknown 2000 1 2 3",
        "31",
        "32 Search 0 1",
        "32 Search 99999 1",
    ] {
        a.load_store_text(bad);
        assert_eq!(a.store.samples.len(), 0);
    }
}

#[test]
fn decode_rejects_out_of_range_components() {
    let mut text = String::from("32 Search 2000");
    for _ in 0..32 {
        text.push_str(" 99999");
    }
    assert!(decode_store(&text, 32).is_none());
}

#[test]
fn encode_of_empty_store_is_header_only() {
    let store = LearningStore::new();
    let text = encode_store(&store, 32);
    assert_eq!(text, "32");
    let decoded = decode_store(&text, 32).unwrap();
    assert_eq!(decoded.samples.len(), 0);
}

#[test]
fn intent_names_round_trip_in_store_text() {
    assert_eq!(intent_name(&Intent::Greeting), "Greeting");
    assert_eq!(intent_name(&Intent::Weather), "Weather");
    assert_eq!(intent_name(&Intent::Search), "Search");
    assert_eq!(intent_name(&Intent::FileOpen), "FileOpen");
    assert_eq!(intent_name(&Intent::FileShow), "FileShow");
    assert_eq!(intent_name(&Intent::Goodbye), "Goodbye");
    assert_eq!(intent_name(&Intent::Shutdown), "Shutdown");
    assert_eq!(intent_name(&Intent::Unknown), "Unknown");
}
