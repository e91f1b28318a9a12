//! Title normalization, percent-encoding, duration formatting, and the
//! usage-file scrape.

use pspdrp::stats::{
    extract_bool_value, extract_game_key, extract_number_value, extract_string_value,
    find_sub, format_duration, format_duration_short, parse_game_entry, parse_usage_json,
    sample_stats,
};
use pspdrp::text::{extract_game_name, normalize_title, urlencoding_decode, urlencoding_encode};

#[test]
fn test_normalize_title() {
    assert_eq!(normalize_title("God of War: Chains of Olympus"), "god of war chains of olympus");
    assert_eq!(normalize_title("Monster Hunter Freedom Unite"), "monster hunter freedom unite");
}

#[test]
fn test_extract_game_name() {
    assert_eq!(
        extract_game_name("God of War - Chains of Olympus (USA)"),
        "God of War - Chains of Olympus"
    );
    assert_eq!(
        extract_game_name("Monster Hunter Freedom Unite (Europe) (En,Fr,De,Es,It)"),
        "Monster Hunter Freedom Unite"
    );
}

#[test]
fn test_urlencoding() {
    assert_eq!(urlencoding_decode("God%20of%20War"), "God of War");
    assert_eq!(urlencoding_encode("God of War"), "God%20of%20War");
}

#[test]
fn urlencoding_edge_cases() {
    assert_eq!(urlencoding_decode("a%2Fb"), "a/b");
    assert_eq!(urlencoding_decode("100%"), "100%");
    assert_eq!(urlencoding_decode("%zz!"), "%zz!");
    assert_eq!(urlencoding_encode("a/b.png"), "a%2Fb.png");
    assert_eq!(urlencoding_encode("A-Z_0.~"), "A-Z_0.~");
}

#[test]
fn normalize_collapses_whitespace_and_punctuation() {
    assert_eq!(normalize_title("  A  -  B!!  "), "a b");
    assert_eq!(normalize_title("..."), "");
}

#[test]
fn extract_game_name_without_region_is_unchanged() {
    assert_eq!(extract_game_name("Plain Name"), "Plain Name");
}

#[test]
fn duration_formatting() {
    assert_eq!(format_duration(0), "0s");
    assert_eq!(format_duration(59), "59s");
    assert_eq!(format_duration(61), "1m 1s");
    assert_eq!(format_duration(3600 * 12 + 60 * 34 + 56), "12h 34m 56s");
    assert_eq!(format_duration_short(59), "<1m");
    assert_eq!(format_duration_short(60 * 45), "45m");
    assert_eq!(format_duration_short(3600 * 12), "12h");
}

#[test]
fn json_field_extraction() {
    let json = "{ \"title\": \"WipEout Pulse\", \"seconds\": 120, \"hidden\": true }";
    assert_eq!(extract_string_value(json, "title"), Some("WipEout Pulse".to_string()));
    assert_eq!(extract_string_value(json, "missing"), None);
    assert_eq!(extract_number_value(json, "seconds"), Some(120));
    assert_eq!(extract_number_value(json, "title"), None);
    assert_eq!(extract_bool_value(json, "hidden"), Some(true));
    assert_eq!(extract_bool_value(json, "title"), None);
    assert_eq!(find_sub(json, "seconds"), json.find("seconds"));
    assert_eq!(find_sub(json, "nope"), None);
}

#[test]
fn game_entry_supports_both_field_revisions() {
    let current = "{ \"title\": \"A\", \"seconds\": 10, \"sessions\": 2 }";
    let g = parse_game_entry(current, "K:1".to_string()).unwrap();
    assert_eq!(g.total_seconds, 10);
    assert_eq!(g.session_count, 2);
    assert_eq!(g.game_key, "K:1");

    let legacy = "{ \"title\": \"A\", \"total_seconds\": 99, \"session_count\": 7 }";
    let g2 = parse_game_entry(legacy, "K:1".to_string()).unwrap();
    assert_eq!(g2.total_seconds, 99);
    assert_eq!(g2.session_count, 7);

    assert!(parse_game_entry("{ \"seconds\": 10 }", String::new()).is_none());
}

#[test]
fn game_key_extraction() {
    assert_eq!(extract_game_key("  \"UCUS98712:1\": "), "UCUS98712:1");
    assert_eq!(extract_game_key("\"K\":"), "K");
    assert_eq!(extract_game_key("no key here"), "");
    assert_eq!(extract_game_key(""), "");
}

#[test]
fn parse_usage_json_collects_and_sorts() {
    let mut json = String::new();
    json.push_str("{ \"psps\": { \"My PSP\": { \"psp_name\": \"My PSP\", \"games\": {\n");
    json.push_str("  \"AAA:1\": { \"game_id\": \"AAA\", \"title\": \"Short Game\", ");
    json.push_str("\"total_seconds\": 100, \"session_count\": 1, \"last_played\": \"2025-01-01\" },\n");
    json.push_str("  \"BBB:1\": { \"game_id\": \"BBB\", \"title\": \"Long Game\", ");
    json.push_str("\"total_seconds\": 5000, \"session_count\": 3, \"last_played\": \"2025-01-02\" },\n");
    json.push_str("  \"CCC:1\": { \"game_id\": \"CCC\", \"title\": \"\", ");
    json.push_str("\"total_seconds\": 7, \"session_count\": 1, \"last_played\": \"\" }\n");
    json.push_str("} } } }");
    let json = json.as_str();
    let data = parse_usage_json(json);
    // The empty-titled entry is skipped; the rest come out longest first.
    assert_eq!(data.games.len(), 2);
    assert_eq!(data.games[0].title, "Long Game");
    assert_eq!(data.games[0].game_id, "BBB");
    assert_eq!(data.games[0].game_key, "BBB:1");
    assert_eq!(data.games[1].title, "Short Game");
    assert_eq!(data.total_playtime, 5100);
    assert_eq!(data.total_sessions, 4);
}

#[test]
fn parse_usage_json_of_empty_input() {
    let data = parse_usage_json("{}");
    assert!(data.games.is_empty());
    assert_eq!(data.total_playtime, 0);
    assert_eq!(data.total_sessions, 0);
}

#[test]
fn sample_stats_totals_match_entries() {
    let s = sample_stats();
    assert_eq!(s.games.len(), 6);
    assert_eq!(s.games[0].title, "WipEout Pulse");
    assert_eq!(s.games[0].total_seconds, 3600 * 18 + 60 * 28);
    let sum: u64 = s.games.iter().map(|g| g.total_seconds).sum();
    let sessions: u32 = s.games.iter().map(|g| g.session_count).sum();
    assert_eq!(s.total_playtime, sum);
    assert_eq!(s.total_sessions, sessions);
}
