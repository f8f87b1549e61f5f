use taterboard::ledger::{LedgerEntity, TateredMessage};
use taterboard::maps::{CountMap, MsgMap};
use taterboard::persist::{
    config_filename, discover_ids, encode_config, encode_counters, load_community, parse_config,
    parse_counters, parse_stem_id, taters_filename,
};

fn sample_entity() -> LedgerEntity {
    let mut entity = LedgerEntity::new();
    entity.config.trigger_word = String::from("spud");
    entity.config.threshold = 3;
    entity.config.medals = vec![String::from("\u{1f954}"), String::from("say \"cheese\"\\")];
    entity.config.tater_emoji = String::from("\u{1f954}");
    entity.config.blacklisted_channels = vec![7, 9];
    entity.config.pin_channel = 77;
    entity.config.admins = vec![5];
    entity.tatered_messages = MsgMap {
        entries: vec![
            (100, TateredMessage { sender: 1, count: 4, pin_id: None }),
            (200, TateredMessage { sender: 2, count: 9, pin_id: Some(300) }),
        ],
    };
    entity.taters_got = CountMap { entries: vec![(1, 4), (2, 9)] };
    entity.taters_given = CountMap { entries: vec![(3, 13)] };
    entity
}

#[test]
fn counters_artifact_has_the_documented_shape() {
    let entity = sample_entity();
    let text = encode_counters(&entity);
    let want = "{\"tatered_messages\":{\"100\":{\"sender\":1,\"count\":4,\"pin_id\":null},\"200\":{\"sender\":2,\"count\":9,\"pin_id\":300}},\"taters_got\":{\"1\":4,\"2\":9},\"taters_given\":{\"3\":13}}";
    assert_eq!(text, want);
}

#[test]
fn config_artifact_escapes_quotes_and_backslashes() {
    let entity = sample_entity();
    let text = encode_config(&entity.config);
    let want = "{\"trigger_word\":\"spud\",\"threshold\":3,\"medals\":[\"\u{1f954}\",\"say \\\"cheese\\\"\\\\\"],\"tater_emoji\":\"\u{1f954}\",\"blacklisted_channels\":[7,9],\"pin_channel\":77,\"admins\":[5]}";
    assert_eq!(text, want);
}

#[test]
fn saving_then_loading_restores_the_ledger() {
    let entity = sample_entity();
    let counters_text = encode_counters(&entity);
    let config_text = encode_config(&entity.config);
    let loaded = load_community(&Some(counters_text), &Some(config_text)).unwrap();
    assert_eq!(loaded.config.trigger_word, entity.config.trigger_word);
    assert_eq!(loaded.config.threshold, entity.config.threshold);
    assert_eq!(loaded.config.medals, entity.config.medals);
    assert_eq!(loaded.config.tater_emoji, entity.config.tater_emoji);
    assert_eq!(loaded.config.blacklisted_channels, entity.config.blacklisted_channels);
    assert_eq!(loaded.config.pin_channel, entity.config.pin_channel);
    assert_eq!(loaded.config.admins, entity.config.admins);
    assert_eq!(loaded.tatered_messages.entries, entity.tatered_messages.entries);
    assert_eq!(loaded.taters_got.entries, entity.taters_got.entries);
    assert_eq!(loaded.taters_given.entries, entity.taters_given.entries);
}

#[test]
fn empty_ledger_round_trips_too() {
    let entity = LedgerEntity::new();
    let loaded = load_community(
        &Some(encode_counters(&entity)),
        &Some(encode_config(&entity.config)),
    )
    .unwrap();
    assert!(loaded.tatered_messages.entries.is_empty());
    assert_eq!(loaded.config.medals, entity.config.medals);
}

#[test]
fn missing_config_artifact_skips_the_community() {
    let entity = sample_entity();
    let counters_text = encode_counters(&entity);
    assert!(load_community(&Some(counters_text), &None).is_none());
}

#[test]
fn missing_counters_artifact_skips_the_community() {
    let entity = sample_entity();
    let config_text = encode_config(&entity.config);
    assert!(load_community(&None, &Some(config_text)).is_none());
}

#[test]
fn malformed_artifacts_skip_the_community() {
    let entity = sample_entity();
    let counters_text = encode_counters(&entity);
    let config_text = encode_config(&entity.config);
    assert!(load_community(&Some(String::from("{")), &Some(config_text.clone())).is_none());
    assert!(load_community(&Some(counters_text.clone()), &Some(String::from("nonsense"))).is_none());
    // Trailing garbage is rejected: the whole text must be the artifact.
    let mut padded = counters_text.clone();
    padded.push(' ');
    assert!(load_community(&Some(padded), &Some(config_text.clone())).is_none());
    // A configuration with a zero threshold is not well formed.
    let bad = config_text.replace("\"threshold\":3", "\"threshold\":0");
    assert!(load_community(&Some(counters_text), &Some(bad)).is_none());
}

#[test]
fn parse_rejects_duplicate_keys() {
    assert!(parse_counters(
        "{\"tatered_messages\":{},\"taters_got\":{\"1\":2,\"1\":3},\"taters_given\":{}}"
    )
    .is_none());
}

#[test]
fn parse_accepts_only_the_exact_shape() {
    assert!(parse_config("{}").is_none());
    assert!(parse_counters("").is_none());
    assert!(
        parse_counters("{\"tatered_messages\":{},\"taters_got\":{},\"taters_given\":{}}").is_some()
    );
}

#[test]
fn artifact_filenames_carry_the_community_id() {
    assert_eq!(taters_filename(42), "42_taters.json");
    assert_eq!(config_filename(42), "42_config.json");
}

#[test]
fn stem_ids_take_the_leading_digits() {
    assert_eq!(parse_stem_id("42_taters"), Some(42));
    assert_eq!(parse_stem_id("42_config"), Some(42));
    // An all-digit stem names no artifact pair.
    assert_eq!(parse_stem_id("42"), None);
    assert_eq!(parse_stem_id("_taters"), None);
    assert_eq!(parse_stem_id(""), None);
    assert_eq!(parse_stem_id("99999999999999999999999999_taters"), None);
}

#[test]
fn discovery_deduplicates_communities() {
    let stems = vec![
        String::from("42_taters"),
        String::from("42_config"),
        String::from("7_taters"),
        String::from("readme"),
    ];
    let mut ids = discover_ids(&stems);
    ids.sort();
    assert_eq!(ids, vec![7, 42]);
}

#[test]
fn extreme_counter_values_round_trip() {
    let mut entity = LedgerEntity::new();
    entity.taters_got = CountMap { entries: vec![(u64::MAX, u64::MAX), (0, 0)] };
    let loaded = load_community(
        &Some(encode_counters(&entity)),
        &Some(encode_config(&entity.config)),
    )
    .unwrap();
    assert_eq!(loaded.taters_got.entries, vec![(u64::MAX, u64::MAX), (0, 0)]);
}

#[test]
fn counter_values_beyond_the_machine_word_are_rejected() {
    let text = "{\"tatered_messages\":{},\"taters_got\":{\"1\":18446744073709551616},\"taters_given\":{}}";
    assert!(parse_counters(text).is_none());
    let ok = "{\"tatered_messages\":{},\"taters_got\":{\"1\":18446744073709551615},\"taters_given\":{}}";
    assert_eq!(parse_counters(ok).unwrap().1.entries, vec![(1, u64::MAX)]);
}
