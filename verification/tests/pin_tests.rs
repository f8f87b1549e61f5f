use taterboard::ledger::LedgerEntity;
use taterboard::pin::{
    compose_header, decide_pin_action, medal_for_tier, message_jump_link, tier_index, PinAction,
};

#[test]
fn tier_is_zero_exactly_at_threshold() {
    assert_eq!(tier_index(5, 5), Some(0));
}

#[test]
fn tier_stays_zero_just_below_double() {
    assert_eq!(tier_index(9, 5), Some(0));
}

#[test]
fn tier_becomes_one_at_double() {
    assert_eq!(tier_index(10, 5), Some(1));
}

#[test]
fn tier_is_undefined_below_threshold() {
    assert_eq!(tier_index(4, 5), None);
    assert_eq!(tier_index(0, 1), None);
}

#[test]
fn tier_doubles_per_level() {
    assert_eq!(tier_index(1, 1), Some(0));
    assert_eq!(tier_index(2, 1), Some(1));
    assert_eq!(tier_index(4, 1), Some(2));
    assert_eq!(tier_index(6, 6), Some(0));
    assert_eq!(tier_index(12, 6), Some(1));
    assert_eq!(tier_index(24, 6), Some(2));
    assert_eq!(tier_index(48, 6), Some(3));
    assert_eq!(tier_index(47, 6), Some(2));
    assert_eq!(tier_index(u64::MAX, 1), Some(63));
}

#[test]
fn medal_selection_reuses_the_last_entry() {
    let medals = vec![String::from("a"), String::from("b")];
    assert_eq!(medal_for_tier(&medals, 0), "a");
    assert_eq!(medal_for_tier(&medals, 1), "b");
    assert_eq!(medal_for_tier(&medals, 5), "b");
    let empty: Vec<String> = Vec::new();
    assert_eq!(medal_for_tier(&empty, 0), "?");
}

#[test]
fn header_shows_glyph_and_count() {
    assert_eq!(compose_header(&String::from("\u{1f954}"), 5), "\u{1f954} 5");
    assert_eq!(compose_header(&String::from("\u{1f360}"), 10), "\u{1f360} 10");
}

#[test]
fn pin_transitions_follow_the_state_machine() {
    assert_eq!(decide_pin_action(None, None), PinAction::Keep);
    assert_eq!(decide_pin_action(None, Some(0)), PinAction::Create);
    assert_eq!(decide_pin_action(Some(42), Some(1)), PinAction::Edit { pin_id: 42 });
    assert_eq!(decide_pin_action(Some(42), None), PinAction::Delete { pin_id: 42 });
}

#[test]
fn pin_lifecycle_scenario() {
    // A community with threshold 5 and two medals.
    let mut entity = LedgerEntity::new();
    entity.config.threshold = 5;
    entity.config.medals = vec![String::from("\u{1f954}"), String::from("\u{1f360}")];
    let sym = entity.config.tater_emoji.clone();
    let (msg, chan, author, bot) = (100u64, 7u64, 1u64, 999u64);

    // Five votes arrive.
    let mut snapshot = None;
    for voter in 10..15u64 {
        snapshot = Some(entity.apply_vote(msg, chan, &sym, voter, Some(author), bot).unwrap());
    }
    let tm = snapshot.unwrap();
    assert_eq!(tm.count, 5);
    let tier = tier_index(tm.count, entity.config.threshold);
    assert_eq!(tier, Some(0));
    assert_eq!(decide_pin_action(tm.pin_id, tier), PinAction::Create);
    let medal = medal_for_tier(&entity.config.medals, 0);
    assert_eq!(compose_header(&medal, tm.count), "\u{1f954} 5");
    // The transport posts the announcement and reports its id.
    entity.record_pin_outcome(msg, Some(777));
    assert_eq!(entity.tatered_messages.get(msg).unwrap().pin_id, Some(777));

    // Five more votes: the pin is edited in place with the next medal.
    let mut snapshot = None;
    for voter in 15..20u64 {
        snapshot = Some(entity.apply_vote(msg, chan, &sym, voter, None, bot).unwrap());
    }
    let tm = snapshot.unwrap();
    assert_eq!(tm.count, 10);
    let tier = tier_index(tm.count, entity.config.threshold);
    assert_eq!(tier, Some(1));
    assert_eq!(decide_pin_action(tm.pin_id, tier), PinAction::Edit { pin_id: 777 });
    let medal = medal_for_tier(&entity.config.medals, 1);
    assert_eq!(compose_header(&medal, tm.count), "\u{1f360} 10");
    entity.record_pin_outcome(msg, Some(777));

    // The count falls back under the threshold: the pin is deleted.
    let mut snapshot = None;
    for voter in 10..16u64 {
        let (tm, _) = entity.retract_vote(msg, chan, &sym, voter).unwrap();
        snapshot = Some(tm);
    }
    let tm = snapshot.unwrap();
    assert_eq!(tm.count, 4);
    let tier = tier_index(tm.count, entity.config.threshold);
    assert_eq!(tier, None);
    assert_eq!(decide_pin_action(tm.pin_id, tier), PinAction::Delete { pin_id: 777 });
    entity.record_pin_outcome(msg, None);
    assert_eq!(entity.tatered_messages.get(msg).unwrap().pin_id, None);
}

#[test]
fn jump_links_follow_the_url_scheme() {
    assert_eq!(
        message_jump_link(Some(1), 2, 3),
        "https://discord.com/channels/1/2/3"
    );
    assert_eq!(
        message_jump_link(None, 2, 3),
        "https://discord.com/channels/@me/2/3"
    );
}

#[test]
fn prior_pin_count_counts_other_messages_by_the_same_sender() {
    let mut entity = LedgerEntity::new();
    let sym = entity.config.tater_emoji.clone();
    entity.apply_vote(1, 7, &sym, 20, Some(10), 999).unwrap();
    entity.apply_vote(2, 7, &sym, 20, Some(10), 999).unwrap();
    entity.apply_vote(3, 7, &sym, 20, Some(11), 999).unwrap();
    assert_eq!(entity.prior_pin_count(10), 1);
    assert_eq!(entity.prior_pin_count(11), 0);
}

#[test]
fn plan_covers_the_whole_update_in_one_call() {
    let mut entity = LedgerEntity::new();
    entity.config.threshold = 5;
    entity.config.medals = vec![String::from("\u{1f954}"), String::from("\u{1f360}")];
    assert!(taterboard::pin::plan_pin_update(&entity, 100).is_none());
    let sym = entity.config.tater_emoji.clone();
    for voter in 10..15u64 {
        entity.apply_vote(100, 7, &sym, voter, Some(1), 999).unwrap();
    }
    let plan = taterboard::pin::plan_pin_update(&entity, 100).unwrap();
    assert_eq!(plan.action, PinAction::Create);
    assert_eq!(plan.header, "\u{1f954} 5");
    entity.record_pin_outcome(100, Some(777));
    entity.apply_vote(100, 7, &sym, 15, None, 999).unwrap();
    let plan = taterboard::pin::plan_pin_update(&entity, 100).unwrap();
    assert_eq!(plan.action, PinAction::Edit { pin_id: 777 });
    assert_eq!(plan.header, "\u{1f954} 6");
}
