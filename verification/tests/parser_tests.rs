use intent_engine::parser::extract_file_path;
use intent_engine::parser::extract_location;
use intent_engine::parser::extract_search_query;
use intent_engine::parser::is_blank;

#[test]
fn test_extract_search() {
    assert_eq!(extract_search_query("suche nach Rust Programmierung"), "rust programmierung");
    assert_eq!(extract_search_query("finde Informationen über Berlin"), "berlin");
}

#[test]
fn test_extract_location() {
    assert_eq!(extract_location("Wie ist das Wetter in Berlin?"), Some("Berlin".to_string()));
    assert_eq!(extract_location("Wetter für München"), Some("München".to_string()));
}

#[test]
fn extract_search_keeps_plain_queries() {
    assert_eq!(extract_search_query("Rust Programmierung"), "rust programmierung");
    assert_eq!(extract_search_query("Was ist die Hauptstadt von Frankreich?"), "hauptstadt von frankreich");
}

#[test]
fn extract_search_falls_back_on_empty_remainder() {
    assert_eq!(extract_search_query("suche "), "suche ");
}

#[test]
fn extract_location_none_without_marker() {
    assert_eq!(extract_location("Wetter heute"), None);
}

#[test]
fn extract_file_path_strips_command() {
    assert_eq!(extract_file_path("Öffne Firefox"), "Firefox");
    assert_eq!(extract_file_path("Zeig mir den Bericht"), "den Bericht");
    assert_eq!(extract_file_path("  Bericht.pdf  "), "Bericht.pdf");
}

#[test]
fn blank_inputs_are_detected() {
    assert!(is_blank("   "));
    assert!(is_blank("\t\n"));
    assert!(!is_blank(" x "));
}
