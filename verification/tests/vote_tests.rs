use taterboard::ledger::{LedgerEntity, TateredMessage, VoteRejection};

fn fresh() -> (LedgerEntity, String) {
    let entity = LedgerEntity::new();
    let symbol = entity.config.tater_emoji.clone();
    (entity, symbol)
}

const MSG: u64 = 500;
const CHAN: u64 = 900;
const AUTHOR: u64 = 10;
const VOTER: u64 = 20;
const BOT: u64 = 999;

#[test]
fn first_vote_creates_entry_with_count_one() {
    let (mut entity, sym) = fresh();
    let tm = entity.apply_vote(MSG, CHAN, &sym, VOTER, Some(AUTHOR), BOT).unwrap();
    assert_eq!(tm.sender, AUTHOR);
    assert_eq!(tm.count, 1);
    assert_eq!(tm.pin_id, None);
    assert_eq!(entity.tatered_messages.get(MSG), Some(tm));
    assert_eq!(entity.taters_given.get(VOTER), Some(1));
    assert_eq!(entity.taters_got.get(AUTHOR), Some(1));
}

#[test]
fn later_votes_use_cached_sender() {
    let (mut entity, sym) = fresh();
    entity.apply_vote(MSG, CHAN, &sym, VOTER, Some(AUTHOR), BOT).unwrap();
    // The lookup answer is ignored once the message is cached.
    let tm = entity.apply_vote(MSG, CHAN, &sym, 21, None, BOT).unwrap();
    assert_eq!(tm.count, 2);
    assert_eq!(tm.sender, AUTHOR);
    assert_eq!(entity.taters_got.get(AUTHOR), Some(2));
    assert_eq!(entity.taters_given.get(21), Some(1));
}

#[test]
fn matched_add_retract_pairs_restore_count() {
    let (mut entity, sym) = fresh();
    entity.apply_vote(MSG, CHAN, &sym, VOTER, Some(AUTHOR), BOT).unwrap();
    let baseline = entity.tatered_messages.get(MSG).unwrap().count;
    // Three matched pairs, interleaved.
    entity.apply_vote(MSG, CHAN, &sym, 21, None, BOT).unwrap();
    entity.apply_vote(MSG, CHAN, &sym, 22, None, BOT).unwrap();
    entity.retract_vote(MSG, CHAN, &sym, 21).unwrap();
    entity.apply_vote(MSG, CHAN, &sym, 23, None, BOT).unwrap();
    entity.retract_vote(MSG, CHAN, &sym, 23).unwrap();
    entity.retract_vote(MSG, CHAN, &sym, 22).unwrap();
    assert_eq!(entity.tatered_messages.get(MSG).unwrap().count, baseline);
    assert_eq!(entity.taters_got.get(AUTHOR), Some(baseline));
}

#[test]
fn self_vote_is_rejected_without_any_change() {
    let (mut entity, sym) = fresh();
    let r = entity.apply_vote(MSG, CHAN, &sym, AUTHOR, Some(AUTHOR), BOT);
    assert_eq!(r, Err(VoteRejection::SelfVote));
    assert_eq!(entity.tatered_messages.get(MSG), None);
    assert_eq!(entity.taters_given.get(AUTHOR), None);
    assert_eq!(entity.taters_got.get(AUTHOR), None);
}

#[test]
fn self_vote_on_cached_message_is_rejected() {
    let (mut entity, sym) = fresh();
    entity.apply_vote(MSG, CHAN, &sym, VOTER, Some(AUTHOR), BOT).unwrap();
    let r = entity.apply_vote(MSG, CHAN, &sym, AUTHOR, None, BOT);
    assert_eq!(r, Err(VoteRejection::SelfVote));
    assert_eq!(entity.tatered_messages.get(MSG).unwrap().count, 1);
    let r = entity.retract_vote(MSG, CHAN, &sym, AUTHOR);
    assert_eq!(r, Err(VoteRejection::SelfVote));
    assert_eq!(entity.tatered_messages.get(MSG).unwrap().count, 1);
}

#[test]
fn self_vote_is_rejected_under_other_configurations() {
    // The rule does not depend on the symbol or threshold configured.
    let (mut entity, _) = fresh();
    entity.config.tater_emoji = String::from("\u{2b50}");
    entity.config.threshold = 1;
    let sym = entity.config.tater_emoji.clone();
    let r = entity.apply_vote(MSG, CHAN, &sym, AUTHOR, Some(AUTHOR), BOT);
    assert_eq!(r, Err(VoteRejection::SelfVote));
    assert_eq!(entity.taters_given.get(AUTHOR), None);
}

#[test]
fn wrong_symbol_is_rejected() {
    let (mut entity, _) = fresh();
    let other = String::from("\u{1f346}");
    let r = entity.apply_vote(MSG, CHAN, &other, VOTER, Some(AUTHOR), BOT);
    assert_eq!(r, Err(VoteRejection::SymbolMismatch));
    assert_eq!(entity.tatered_messages.get(MSG), None);
    let r = entity.retract_vote(MSG, CHAN, &other, VOTER);
    assert_eq!(r, Err(VoteRejection::SymbolMismatch));
}

#[test]
fn blacklisted_channel_is_rejected() {
    let (mut entity, sym) = fresh();
    entity.config.blacklisted_channels.push(CHAN);
    let r = entity.apply_vote(MSG, CHAN, &sym, VOTER, Some(AUTHOR), BOT);
    assert_eq!(r, Err(VoteRejection::ChannelBlacklisted));
    let r = entity.retract_vote(MSG, CHAN, &sym, VOTER);
    assert_eq!(r, Err(VoteRejection::ChannelBlacklisted));
    assert_eq!(entity.tatered_messages.get(MSG), None);
}

#[test]
fn unresolved_author_drops_the_event() {
    let (mut entity, sym) = fresh();
    let r = entity.apply_vote(MSG, CHAN, &sym, VOTER, None, BOT);
    assert_eq!(r, Err(VoteRejection::AuthorUnresolved));
    assert_eq!(entity.tatered_messages.get(MSG), None);
}

#[test]
fn bot_authored_message_is_never_tracked() {
    let (mut entity, sym) = fresh();
    let r = entity.apply_vote(MSG, CHAN, &sym, VOTER, Some(BOT), BOT);
    assert_eq!(r, Err(VoteRejection::BotAuthor));
    assert_eq!(entity.tatered_messages.get(MSG), None);
}

#[test]
fn retract_for_unknown_message_is_reported_and_ignored() {
    let (mut entity, sym) = fresh();
    let r = entity.retract_vote(MSG, CHAN, &sym, VOTER);
    assert_eq!(r, Err(VoteRejection::MissingEntry));
    assert_eq!(entity.tatered_messages.get(MSG), None);
}

#[test]
fn retract_clamps_counters_at_zero() {
    let (mut entity, sym) = fresh();
    entity.apply_vote(MSG, CHAN, &sym, VOTER, Some(AUTHOR), BOT).unwrap();
    let (_, clamped) = entity.retract_vote(MSG, CHAN, &sym, VOTER).unwrap();
    assert!(!clamped);
    assert_eq!(entity.tatered_messages.get(MSG).unwrap().count, 0);
    // A second retraction from another user must clamp, not wrap.
    let (tm, clamped) = entity.retract_vote(MSG, CHAN, &sym, 21).unwrap();
    assert!(clamped);
    assert_eq!(tm.count, 0);
    assert_eq!(entity.tatered_messages.get(MSG).unwrap().count, 0);
    assert_eq!(entity.taters_got.get(AUTHOR), Some(0));
}

#[test]
fn tatered_message_new_packs_fields() {
    let tm = TateredMessage::new(7, 3, Some(11));
    assert_eq!(tm.sender, 7);
    assert_eq!(tm.count, 3);
    assert_eq!(tm.pin_id, Some(11));
}

#[test]
fn default_config_matches_design() {
    let entity = LedgerEntity::new();
    assert_eq!(entity.config.trigger_word, "taterboard");
    assert_eq!(entity.config.threshold, 5);
    assert_eq!(entity.config.medals.len(), 6);
    assert_eq!(entity.config.medals[0], "\u{1f954}");
    assert_eq!(entity.config.tater_emoji, "<:tinypotato:735938441505931286>");
    assert!(entity.config.blacklisted_channels.is_empty());
    assert_eq!(entity.config.pin_channel, 0);
    assert_eq!(entity.config.admins, vec![273636822565912578]);
}

#[test]
fn saturated_counters_reject_the_vote_whole() {
    let (mut entity, sym) = fresh();
    entity.tatered_messages = taterboard::maps::MsgMap {
        entries: vec![(MSG, TateredMessage { sender: AUTHOR, count: u64::MAX, pin_id: None })],
    };
    let r = entity.apply_vote(MSG, CHAN, &sym, VOTER, None, BOT);
    assert_eq!(r, Err(VoteRejection::CounterSaturated));
    assert_eq!(entity.tatered_messages.get(MSG).unwrap().count, u64::MAX);
    assert_eq!(entity.taters_given.get(VOTER), None);
}
