//! The per-community ledger: configuration, cached per-message state,
//! per-user counters, and the vote transitions that mutate them.

use vstd::prelude::*;

use crate::assoc::{assoc_get, contains_u64, keys_unique};
use crate::maps::{bumped, count_at, lowered, msg_updated, CountMap, MsgMap};
use crate::maps::{lemma_moves_keep_keys_unique, lemma_msg_updated_get};

verus! {

/// Cached state of one tracked message: its author, its current vote
/// count, and the live announcement message if one exists.
#[derive(Clone, Copy, Debug, PartialEq, Eq)]
pub struct TateredMessage {
    /// Author of the original message.
    pub sender: u64,
    /// Current number of votes on it; never negative, clamped at zero.
    pub count: u64,
    /// Identifier of the live announcement message, if any.
    pub pin_id: Option<u64>,
}

impl TateredMessage {
    /// Packs the cached state of one message.
    pub fn new(sender: u64, tater_count: u64, pin: Option<u64>) -> (r: TateredMessage)
        ensures
            r == (TateredMessage { sender, count: tater_count, pin_id: pin }),
    {
        TateredMessage { sender, count: tater_count, pin_id: pin }
    }
}

/// Mathematical shadow of a community's configuration.
pub struct ConfigView {
    pub trigger_word: Seq<char>,
    pub threshold: u64,
    pub medals: Seq<Seq<char>>,
    pub tater_emoji: Seq<char>,
    pub blacklisted_channels: Seq<u64>,
    pub pin_channel: u64,
    pub admins: Seq<u64>,
}

impl ConfigView {
    /// The threshold is at least one and the two identifier sets hold no
    /// duplicates.
    pub open spec fn wf(&self) -> bool {
        &&& self.threshold >= 1
        &&& self.blacklisted_channels.no_duplicates()
        &&& self.admins.no_duplicates()
    }
}

/// Per-community configuration.
pub struct Config {
    /// Prefix that marks a message as a command for this tracker.
    pub trigger_word: String,
    /// Votes required for tier zero of the pin; always at least one.
    pub threshold: u64,
    /// Display glyph per tier; the last entry serves every later tier.
    pub medals: Vec<String>,
    /// The one reaction symbol that counts as a vote.
    pub tater_emoji: String,
    /// Channels exempt from tracking and pinning.
    pub blacklisted_channels: Vec<u64>,
    /// Destination channel for tier announcements.
    pub pin_channel: u64,
    /// Users permitted to run administrative commands.
    pub admins: Vec<u64>,
}

impl View for Config {
    type V = ConfigView;

    open spec fn view(&self) -> ConfigView {
        ConfigView {
            trigger_word: self.trigger_word@,
            threshold: self.threshold,
            medals: self.medals.deep_view(),
            tater_emoji: self.tater_emoji@,
            blacklisted_channels: self.blacklisted_channels@,
            pin_channel: self.pin_channel,
            admins: self.admins@,
        }
    }
}

/// The configuration a community receives when first seen: default
/// trigger word, threshold and medal run, the default vote symbol, no
/// blacklist, no pin channel yet, and a seed administrator.
pub open spec fn default_config() -> ConfigView {
    ConfigView {
        trigger_word: "taterboard"@,
        threshold: 5,
        medals: seq![
            "\u{1f954}"@,
            "\u{1f360}"@,
            "<:tinypotato:735938441505931286>"@,
            "<:angerypotato:559818417654333461>"@,
            "<:concernedpotato:711936190080876584>"@,
            "<a:pattato:754104288078331955>"@,
        ],
        tater_emoji: "<:tinypotato:735938441505931286>"@,
        blacklisted_channels: Seq::<u64>::empty(),
        pin_channel: 0,
        admins: seq![273636822565912578u64],
    }
}

impl Config {
    /// Builds the default configuration.
    pub fn new() -> (r: Config)
        ensures
            r@ == default_config(),
            r@.wf(),
    {
        let mut medals: Vec<String> = Vec::new();
        medals.push(String::from_str("\u{1f954}"));
        medals.push(String::from_str("\u{1f360}"));
        medals.push(String::from_str("<:tinypotato:735938441505931286>"));
        medals.push(String::from_str("<:angerypotato:559818417654333461>"));
        medals.push(String::from_str("<:concernedpotato:711936190080876584>"));
        medals.push(String::from_str("<a:pattato:754104288078331955>"));
        let mut admins: Vec<u64> = Vec::new();
        admins.push(273636822565912578);
        let r = Config {
            trigger_word: String::from_str("taterboard"),
            threshold: 5,
            medals,
            tater_emoji: String::from_str("<:tinypotato:735938441505931286>"),
            blacklisted_channels: Vec::new(),
            pin_channel: 0,
            admins,
        };
        proof {
            assert(r@.medals =~= default_config().medals);
            assert(r@.admins =~= default_config().admins);
            assert(r@.blacklisted_channels =~= default_config().blacklisted_channels);
            assert(r@ == default_config());
        }
        r
    }
}

/// Mathematical shadow of a whole community ledger.
pub struct LedgerView {
    pub config: ConfigView,
    pub tatered_messages: Seq<(u64, TateredMessage)>,
    pub taters_got: Seq<(u64, u64)>,
    pub taters_given: Seq<(u64, u64)>,
}

impl LedgerView {
    /// Configuration is well formed and no map repeats a key.
    pub open spec fn wf(&self) -> bool {
        &&& self.config.wf()
        &&& keys_unique(self.tatered_messages)
        &&& keys_unique(self.taters_got)
        &&& keys_unique(self.taters_given)
    }

    /// The cached state of one message, if tracked.
    pub open spec fn msg_of(&self, mid: u64) -> Option<TateredMessage> {
        assoc_get(self.tatered_messages, mid)
    }

    /// The vote count cached for one message, zero when untracked.
    pub open spec fn count_of(&self, mid: u64) -> nat {
        match self.msg_of(mid) {
            Some(tm) => tm.count as nat,
            None => 0,
        }
    }
}

/// Why a vote event was not counted.
#[derive(Clone, Copy, Debug, PartialEq, Eq, Structural)]
pub enum VoteRejection {
    /// The reaction is not the configured vote symbol.
    SymbolMismatch,
    /// The event's channel is blacklisted.
    ChannelBlacklisted,
    /// First vote on a message whose author could not be resolved.
    AuthorUnresolved,
    /// The message was authored by the tracker's own account.
    BotAuthor,
    /// The voter is the message's own author.
    SelfVote,
    /// A counter sits at the machine maximum and cannot rise.
    CounterSaturated,
    /// A vote was retracted from a message the ledger never saw.
    MissingEntry,
}

/// One community's complete ledger.
pub struct LedgerEntity {
    pub config: Config,
    pub tatered_messages: MsgMap,
    pub taters_got: CountMap,
    pub taters_given: CountMap,
}

impl View for LedgerEntity {
    type V = LedgerView;

    open spec fn view(&self) -> LedgerView {
        LedgerView {
            config: self.config@,
            tatered_messages: self.tatered_messages@,
            taters_got: self.taters_got@,
            taters_given: self.taters_given@,
        }
    }
}

/// A fresh community's whole ledger: the default configuration, no
/// cached messages, no counters.
pub open spec fn default_ledger() -> LedgerView {
    LedgerView {
        config: default_config(),
        tatered_messages: Seq::<(u64, TateredMessage)>::empty(),
        taters_got: Seq::<(u64, u64)>::empty(),
        taters_given: Seq::<(u64, u64)>::empty(),
    }
}

/// Everything `apply_vote` decides and changes, at the mathematical level.
///
/// The checks run in order: vote symbol, channel blacklist, author
/// resolution (first vote only), self-vote, counter saturation.  On
/// success the message's count and both per-user counters rise by one and
/// the updated snapshot is handed back for pin synchronisation.
pub open spec fn apply_vote_spec(
    pre: LedgerView,
    message_id: u64,
    channel_id: u64,
    symbol: Seq<char>,
    voter_id: u64,
    resolved_author: Option<u64>,
    bot_id: u64,
) -> (Result<TateredMessage, VoteRejection>, LedgerView) {
    if symbol != pre.config.tater_emoji {
        (Err(VoteRejection::SymbolMismatch), pre)
    } else if pre.config.blacklisted_channels.contains(channel_id) {
        (Err(VoteRejection::ChannelBlacklisted), pre)
    } else {
        let prior = match pre.msg_of(message_id) {
            Some(tm) => Some(tm),
            None => match resolved_author {
                Some(a) => Some(TateredMessage { sender: a, count: 0, pin_id: None }),
                None => None,
            },
        };
        match prior {
            None => (Err(VoteRejection::AuthorUnresolved), pre),
            Some(tm) => {
                if pre.msg_of(message_id) is None && tm.sender == bot_id {
                    (Err(VoteRejection::BotAuthor), pre)
                } else if voter_id == tm.sender {
                    (Err(VoteRejection::SelfVote), pre)
                } else if tm.count == u64::MAX || count_at(pre.taters_given, voter_id)
                    == u64::MAX || count_at(pre.taters_got, tm.sender) == u64::MAX {
                    (Err(VoteRejection::CounterSaturated), pre)
                } else {
                    let updated = TateredMessage {
                        sender: tm.sender,
                        count: (tm.count + 1) as u64,
                        pin_id: tm.pin_id,
                    };
                    (
                        Ok(updated),
                        LedgerView {
                            tatered_messages: msg_updated(
                                pre.tatered_messages,
                                message_id,
                                updated,
                            ),
                            taters_got: bumped(pre.taters_got, tm.sender),
                            taters_given: bumped(pre.taters_given, voter_id),
                            ..pre
                        },
                    )
                }
            },
        }
    }
}

/// Everything `retract_vote` decides and changes, at the mathematical
/// level.
///
/// The symbol and blacklist checks mirror the ones a vote passes; a
/// retraction for an untracked message is reported and ignored; a
/// self-retraction is rejected for symmetry.  On success the message's
/// count and both per-user counters fall by one, each clamped at zero;
/// the flag reports whether any clamp fired.
pub open spec fn retract_vote_spec(
    pre: LedgerView,
    message_id: u64,
    channel_id: u64,
    symbol: Seq<char>,
    voter_id: u64,
) -> (Result<(TateredMessage, bool), VoteRejection>, LedgerView) {
    if symbol != pre.config.tater_emoji {
        (Err(VoteRejection::SymbolMismatch), pre)
    } else if pre.config.blacklisted_channels.contains(channel_id) {
        (Err(VoteRejection::ChannelBlacklisted), pre)
    } else {
        match pre.msg_of(message_id) {
            None => (Err(VoteRejection::MissingEntry), pre),
            Some(tm) => {
                if voter_id == tm.sender {
                    (Err(VoteRejection::SelfVote), pre)
                } else {
                    let updated = TateredMessage {
                        sender: tm.sender,
                        count: if tm.count == 0 {
                            0u64
                        } else {
                            (tm.count - 1) as u64
                        },
                        pin_id: tm.pin_id,
                    };
                    let clamped = tm.count == 0 || count_at(pre.taters_given, voter_id) == 0
                        || count_at(pre.taters_got, tm.sender) == 0;
                    (
                        Ok((updated, clamped)),
                        LedgerView {
                            tatered_messages: msg_updated(
                                pre.tatered_messages,
                                message_id,
                                updated,
                            ),
                            taters_got: lowered(pre.taters_got, tm.sender),
                            taters_given: lowered(pre.taters_given, voter_id),
                            ..pre
                        },
                    )
                }
            },
        }
    }
}

impl LedgerEntity {
    /// A fresh ledger with the default configuration and no counters.
    pub fn new() -> (r: LedgerEntity)
        ensures
            r@ == default_ledger(),
            r@.wf(),
    {
        LedgerEntity {
            config: Config::new(),
            tatered_messages: MsgMap::new(),
            taters_got: CountMap::new(),
            taters_given: CountMap::new(),
        }
    }

    /// Counts one vote event against this ledger.
    ///
    /// `resolved_author` is what the message-origin lookup collaborator
    /// answered (consulted only for the first vote on a message); `bot_id`
    /// is the tracker's own account, which never enters the ledger as a
    /// sender.  Returns the updated snapshot for pin synchronisation, or
    /// the reason the event changed nothing.
    pub fn apply_vote(
        &mut self,
        message_id: u64,
        channel_id: u64,
        symbol: &String,
        voter_id: u64,
        resolved_author: Option<u64>,
        bot_id: u64,
    ) -> (r: Result<TateredMessage, VoteRejection>)
        requires
            old(self)@.wf(),
        ensures
            (r, final(self)@) == apply_vote_spec(
                old(self)@,
                message_id,
                channel_id,
                symbol@,
                voter_id,
                resolved_author,
                bot_id,
            ),
            final(self)@.wf(),
    {
        let ghost pre = self@;
        if !symbol.eq(&self.config.tater_emoji) {
            return Err(VoteRejection::SymbolMismatch);
        }
        if contains_u64(&self.config.blacklisted_channels, channel_id) {
            return Err(VoteRejection::ChannelBlacklisted);
        }
        let cached = self.tatered_messages.get(message_id);
        let tm = match cached {
            Some(tm) => tm,
            None => match resolved_author {
                Some(a) => {
                    if a == bot_id {
                        return Err(VoteRejection::BotAuthor);
                    }
                    TateredMessage { sender: a, count: 0, pin_id: None }
                },
                None => {
                    return Err(VoteRejection::AuthorUnresolved);
                },
            },
        };
        if voter_id == tm.sender {
            return Err(VoteRejection::SelfVote);
        }
        let given_now = self.taters_given.get(voter_id);
        let got_now = self.taters_got.get(tm.sender);
        if tm.count == u64::MAX || given_now == Some(u64::MAX) || got_now == Some(u64::MAX) {
            proof {
                assert(count_at(pre.taters_given, voter_id) == u64::MAX
                    <==> assoc_get(pre.taters_given, voter_id) == Some(u64::MAX));
                assert(count_at(pre.taters_got, tm.sender) == u64::MAX
                    <==> assoc_get(pre.taters_got, tm.sender) == Some(u64::MAX));
            }
            return Err(VoteRejection::CounterSaturated);
        }
        let updated = TateredMessage { sender: tm.sender, count: tm.count + 1, pin_id: tm.pin_id };
        self.tatered_messages.put(message_id, updated);
        self.taters_given.bump(voter_id);
        self.taters_got.bump(tm.sender);
        proof {
            lemma_msg_updated_get(pre.tatered_messages, message_id, updated, message_id);
            lemma_moves_keep_keys_unique(pre.taters_given, voter_id);
            lemma_moves_keep_keys_unique(pre.taters_got, tm.sender);
        }
        Ok(updated)
    }

    /// Uncounts one vote event against this ledger; every counter clamps
    /// at zero, and the returned flag reports whether a clamp fired.
    pub fn retract_vote(
        &mut self,
        message_id: u64,
        channel_id: u64,
        symbol: &String,
        voter_id: u64,
    ) -> (r: Result<(TateredMessage, bool), VoteRejection>)
        requires
            old(self)@.wf(),
        ensures
            (r, final(self)@) == retract_vote_spec(
                old(self)@,
                message_id,
                channel_id,
                symbol@,
                voter_id,
            ),
            final(self)@.wf(),
    {
        let ghost pre = self@;
        if !symbol.eq(&self.config.tater_emoji) {
            return Err(VoteRejection::SymbolMismatch);
        }
        if contains_u64(&self.config.blacklisted_channels, channel_id) {
            return Err(VoteRejection::ChannelBlacklisted);
        }
        let tm = match self.tatered_messages.get(message_id) {
            Some(tm) => tm,
            None => {
                return Err(VoteRejection::MissingEntry);
            },
        };
        if voter_id == tm.sender {
            return Err(VoteRejection::SelfVote);
        }
        let updated = TateredMessage {
            sender: tm.sender,
            count: if tm.count == 0 {
                0
            } else {
                tm.count - 1
            },
            pin_id: tm.pin_id,
        };
        self.tatered_messages.put(message_id, updated);
        let g_clamp = self.taters_given.lower(voter_id);
        let r_clamp = self.taters_got.lower(tm.sender);
        let clamped = tm.count == 0 || g_clamp || r_clamp;
        proof {
            lemma_msg_updated_get(pre.tatered_messages, message_id, updated, message_id);
            lemma_moves_keep_keys_unique(pre.taters_given, voter_id);
            lemma_moves_keep_keys_unique(pre.taters_got, tm.sender);
        }
        Ok((updated, clamped))
    }
}

/// One move of a message's vote count: an addition raises it by one, a
/// retraction lowers it by one, clamped at zero.  Successful `apply_vote`
/// and `retract_vote` calls move the count exactly this way (see
/// `lemma_apply_vote_steps_count` and `lemma_retract_vote_steps_count`).
pub open spec fn count_step(c: nat, add: bool) -> nat {
    if add {
        c + 1
    } else if c > 0 {
        (c - 1) as nat
    } else {
        0
    }
}

/// A message's vote count after a run of vote events, `true` for an
/// addition and `false` for a retraction.
pub open spec fn count_after(c0: nat, es: Seq<bool>) -> nat
    decreases es.len(),
{
    if es.len() == 0 {
        c0
    } else {
        count_step(count_after(c0, es.drop_last()), es.last())
    }
}

/// Number of additions in a run of vote events.
pub open spec fn num_adds(es: Seq<bool>) -> nat
    decreases es.len(),
{
    if es.len() == 0 {
        0
    } else {
        num_adds(es.drop_last()) + if es.last() {
            1nat
        } else {
            0nat
        }
    }
}

/// Number of retractions in a run of vote events.
pub open spec fn num_retracts(es: Seq<bool>) -> nat
    decreases es.len(),
{
    if es.len() == 0 {
        0
    } else {
        num_retracts(es.drop_last()) + if es.last() {
            0nat
        } else {
            1nat
        }
    }
}

/// A successful vote moves the message's cached count one step up.
pub proof fn lemma_apply_vote_steps_count(
    pre: LedgerView,
    message_id: u64,
    channel_id: u64,
    symbol: Seq<char>,
    voter_id: u64,
    resolved_author: Option<u64>,
    bot_id: u64,
)
    ensures
        ({
            let (r, post) = apply_vote_spec(
                pre,
                message_id,
                channel_id,
                symbol,
                voter_id,
                resolved_author,
                bot_id,
            );
            r is Ok ==> post.count_of(message_id) == count_step(pre.count_of(message_id), true)
        }),
{
    let (r, post) = apply_vote_spec(
        pre,
        message_id,
        channel_id,
        symbol,
        voter_id,
        resolved_author,
        bot_id,
    );
    if r is Ok {
        lemma_msg_updated_get(pre.tatered_messages, message_id, r->Ok_0, message_id);
    }
}

/// A successful retraction moves the message's cached count one step
/// down, clamped at zero.
pub proof fn lemma_retract_vote_steps_count(
    pre: LedgerView,
    message_id: u64,
    channel_id: u64,
    symbol: Seq<char>,
    voter_id: u64,
)
    ensures
        ({
            let (r, post) = retract_vote_spec(pre, message_id, channel_id, symbol, voter_id);
            r is Ok ==> post.count_of(message_id) == count_step(pre.count_of(message_id), false)
        }),
{
    let (r, post) = retract_vote_spec(pre, message_id, channel_id, symbol, voter_id);
    if r is Ok {
        lemma_msg_updated_get(pre.tatered_messages, message_id, r->Ok_0.0, message_id);
    }
}

/// Helper: over a run whose every prefix retracts no more than it adds,
/// the clamp never fires, so the count moves by the plain difference.
proof fn lemma_balanced_run(c0: nat, es: Seq<bool>)
    requires
        forall|i: int|
            0 <= i <= es.len() ==> num_retracts(#[trigger] es.subrange(0, i)) <= num_adds(
                es.subrange(0, i),
            ),
    ensures
        count_after(c0, es) == c0 + num_adds(es) - num_retracts(es),
    decreases es.len(),
{
    if es.len() > 0 {
        let head = es.drop_last();
        assert forall|i: int|
            0 <= i <= head.len() implies num_retracts(#[trigger] head.subrange(0, i)) <= num_adds(
            head.subrange(0, i),
        ) by {
            assert(head.subrange(0, i) =~= es.subrange(0, i));
        }
        lemma_balanced_run(c0, head);
        assert(es.subrange(0, es.len() as int) =~= es);
        if !es.last() {
            assert(num_retracts(es) <= num_adds(es));
        }
    }
}

/// Law: a run of matched additions and retractions on one message leaves
/// its vote count where it began.  A run is matched when every prefix has
/// retracted at most as often as it has added (so each retraction undoes
/// an earlier addition) and the whole run adds and retracts equally
/// often.
pub proof fn lemma_matched_votes_restore_count(c0: nat, es: Seq<bool>)
    requires
        forall|i: int|
            0 <= i <= es.len() ==> num_retracts(#[trigger] es.subrange(0, i)) <= num_adds(
                es.subrange(0, i),
            ),
        num_adds(es) == num_retracts(es),
    ensures
        count_after(c0, es) == c0,
{
    lemma_balanced_run(c0, es);
}

/// Law: a user's vote on their own message never changes the ledger, and
/// never earns a counter, whatever the configuration says.  The voter is
/// the sender either because the cached entry says so or, on a first
/// vote, because the origin lookup resolved to the voter.
pub proof fn lemma_self_vote_never_counts(
    pre: LedgerView,
    message_id: u64,
    channel_id: u64,
    symbol: Seq<char>,
    voter_id: u64,
    resolved_author: Option<u64>,
    bot_id: u64,
)
    requires
        match pre.msg_of(message_id) {
            Some(tm) => tm.sender == voter_id,
            None => resolved_author == Some(voter_id),
        },
    ensures
        apply_vote_spec(
            pre,
            message_id,
            channel_id,
            symbol,
            voter_id,
            resolved_author,
            bot_id,
        ).1 == pre,
        apply_vote_spec(
            pre,
            message_id,
            channel_id,
            symbol,
            voter_id,
            resolved_author,
            bot_id,
        ).0 is Err,
        retract_vote_spec(pre, message_id, channel_id, symbol, voter_id).1 == pre,
        retract_vote_spec(pre, message_id, channel_id, symbol, voter_id).0 is Err,
{
}

/// The ledger after a run of vote events against one message: each event
/// is an addition or retraction (`true` or `false`) by some voter, under
/// one channel and symbol, with no origin lookup (the message must
/// already be cached for an addition to succeed).
pub open spec fn run_votes(
    pre: LedgerView,
    message_id: u64,
    channel_id: u64,
    symbol: Seq<char>,
    bot_id: u64,
    es: Seq<(bool, u64)>,
) -> LedgerView
    decreases es.len(),
{
    if es.len() == 0 {
        pre
    } else {
        let prev = run_votes(pre, message_id, channel_id, symbol, bot_id, es.drop_last());
        if es.last().0 {
            apply_vote_spec(prev, message_id, channel_id, symbol, es.last().1, None, bot_id).1
        } else {
            retract_vote_spec(prev, message_id, channel_id, symbol, es.last().1).1
        }
    }
}

/// Whether every event of a run is counted (none is rejected).
pub open spec fn run_all_counted(
    pre: LedgerView,
    message_id: u64,
    channel_id: u64,
    symbol: Seq<char>,
    bot_id: u64,
    es: Seq<(bool, u64)>,
) -> bool
    decreases es.len(),
{
    if es.len() == 0 {
        true
    } else {
        let prev = run_votes(pre, message_id, channel_id, symbol, bot_id, es.drop_last());
        &&& run_all_counted(pre, message_id, channel_id, symbol, bot_id, es.drop_last())
        &&& if es.last().0 {
            apply_vote_spec(prev, message_id, channel_id, symbol, es.last().1, None, bot_id).0
                is Ok
        } else {
            retract_vote_spec(prev, message_id, channel_id, symbol, es.last().1).0 is Ok
        }
    }
}

/// The additions and retractions of a run, by themselves.
pub open spec fn adds_of(es: Seq<(bool, u64)>) -> Seq<bool> {
    es.map_values(|e: (bool, u64)| e.0)
}

/// Helper: over a counted run, the message's count moves exactly one
/// step per event.
proof fn lemma_run_counts(
    pre: LedgerView,
    message_id: u64,
    channel_id: u64,
    symbol: Seq<char>,
    bot_id: u64,
    es: Seq<(bool, u64)>,
)
    requires
        run_all_counted(pre, message_id, channel_id, symbol, bot_id, es),
    ensures
        run_votes(pre, message_id, channel_id, symbol, bot_id, es).count_of(message_id)
            == count_after(pre.count_of(message_id), adds_of(es)),
    decreases es.len(),
{
    if es.len() > 0 {
        let head = es.drop_last();
        lemma_run_counts(pre, message_id, channel_id, symbol, bot_id, head);
        let prev = run_votes(pre, message_id, channel_id, symbol, bot_id, head);
        assert(adds_of(es).drop_last() =~= adds_of(head));
        assert(adds_of(es).last() == es.last().0);
        if es.last().0 {
            lemma_apply_vote_steps_count(
                prev,
                message_id,
                channel_id,
                symbol,
                es.last().1,
                None,
                bot_id,
            );
        } else {
            lemma_retract_vote_steps_count(prev, message_id, channel_id, symbol, es.last().1);
        }
    } else {
        assert(adds_of(es) =~= Seq::<bool>::empty());
    }
}

/// Law: a run of matched vote events against one message, every one of
/// them counted, leaves that message's vote count where it began.  A run
/// is matched when every prefix has retracted at most as often as it has
/// added and the whole run adds and retracts equally often.
pub proof fn lemma_matched_run_restores_ledger_count(
    pre: LedgerView,
    message_id: u64,
    channel_id: u64,
    symbol: Seq<char>,
    bot_id: u64,
    es: Seq<(bool, u64)>,
)
    requires
        run_all_counted(pre, message_id, channel_id, symbol, bot_id, es),
        forall|i: int|
            0 <= i <= es.len() ==> num_retracts(#[trigger] adds_of(es).subrange(0, i))
                <= num_adds(adds_of(es).subrange(0, i)),
        num_adds(adds_of(es)) == num_retracts(adds_of(es)),
    ensures
        run_votes(pre, message_id, channel_id, symbol, bot_id, es).count_of(message_id)
            == pre.count_of(message_id),
{
    lemma_run_counts(pre, message_id, channel_id, symbol, bot_id, es);
    assert(adds_of(es).len() == es.len());
    lemma_matched_votes_restore_count(pre.count_of(message_id), adds_of(es));
}

} // verus!
