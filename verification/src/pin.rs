//! The pin-lifecycle engine: which tier a vote count has reached, which
//! medal glyph a tier shows, and whether the announcement message must be
//! created, edited or deleted.

use vstd::prelude::*;

use vstd::arithmetic::power2::{lemma2_to64, lemma_pow2_strictly_increases, lemma_pow2_unfold, pow2};

use crate::ledger::{LedgerEntity, TateredMessage};
use crate::maps::msg_updated;
use crate::maps::{lemma_msg_updated_get, sent_by};
use crate::text::{dec_digits, push_dec, push_str_chars, chars_to_string};

verus! {

/// The tier a count has reached over a threshold: how often the
/// threshold doubles before it passes the count.
pub open spec fn tier_of(count: nat, threshold: nat) -> nat
    decreases count - threshold,
        when 1 <= threshold <= count
{
    if count < 2 * threshold {
        0
    } else {
        1 + tier_of(count, 2 * threshold)
    }
}

/// The tier a vote count has reached: the largest `t` with
/// `threshold * 2^t <= count`, or nothing while the count sits below the
/// threshold.
pub fn tier_index(count: u64, threshold: u64) -> (r: Option<u64>)
    requires
        threshold >= 1,
    ensures
        r == if count < threshold {
            None::<u64>
        } else {
            Some((tier_of(count as nat, threshold as nat) as u64))
        },
        match r {
            None => count < threshold,
            Some(t) => threshold * pow2(t as nat) <= count < threshold * pow2(t as nat + 1),
        },
{
    if count < threshold {
        return None;
    }
    let mut t: u64 = 0;
    let mut bound: u64 = threshold;
    proof {
        lemma2_to64();
    }
    while count / 2 >= bound
        invariant
            threshold >= 1,
            count >= threshold,
            bound >= 1,
            bound == threshold * pow2(t as nat),
            pow2(t as nat) <= bound,
            bound <= count,
            tier_of(count as nat, threshold as nat) == t + tier_of(count as nat, bound as nat),
        decreases count - bound,
    {
        proof {
            assert(count == 2 * (count / 2) + count % 2);
            assert(2 * bound <= count);
            lemma_pow2_unfold(t as nat + 1);
            assert(pow2(t as nat + 1) == 2 * pow2(t as nat));
            lemma2_to64();
            if t >= 64 {
                lemma_pow2_strictly_increases(64, t as nat);
                assert(pow2(t as nat) > u64::MAX);
                assert(false);
            }
            assert(threshold * pow2(t as nat + 1) == 2 * (threshold * pow2(t as nat)))
                by (nonlinear_arith)
                requires pow2(t as nat + 1) == 2 * pow2(t as nat);
            assert(pow2(t as nat + 1) <= 2 * bound);
        }
        bound = bound * 2;
        t = t + 1;
    }
    proof {
        assert(count / 2 < bound);
        assert(count <= 2 * (count / 2) + 1);
        assert(count < 2 * bound + 1);
        assert(count <= 2 * bound);
        if count == 2 * bound {
            assert(count / 2 == bound);
            assert(false);
        }
        lemma_pow2_unfold(t as nat + 1);
        assert(threshold * pow2(t as nat + 1) == 2 * (threshold * pow2(t as nat)))
            by (nonlinear_arith)
            requires pow2(t as nat + 1) == 2 * pow2(t as nat);
        assert(tier_of(count as nat, bound as nat) == 0);
    }
    Some(t)
}

/// The glyph a tier shows: its own medal while one exists, the last
/// medal for every later tier, and a placeholder when the list is empty.
pub open spec fn medal_text(medals: Seq<Seq<char>>, tier: nat) -> Seq<char> {
    if medals.len() == 0 {
        "?"@
    } else if tier < medals.len() {
        medals[tier as int]
    } else {
        medals[medals.len() - 1]
    }
}

/// The glyph for a tier: the tier's own medal while one exists, the last
/// medal for every tier beyond the list, and a placeholder when the list
/// is empty.
pub fn medal_for_tier(medals: &Vec<String>, tier: u64) -> (m: String)
    ensures
        m@ == medal_text(medals.deep_view(), tier as nat),
{
    if medals.len() == 0 {
        String::from_str("?")
    } else {
        let len = medals.len();
        let i: usize = if tier < (len as u64) {
            tier as usize
        } else {
            len - 1
        };
        let m = medals[i].clone();
        proof {
            assert(medals.deep_view()[i as int] == medals@[i as int]@);
        }
        m
    }
}

/// The header an announcement shows: the medal glyph, a space, and the
/// decimal vote count.
pub open spec fn header_text(medal: Seq<char>, count: nat) -> Seq<char> {
    medal + seq![' '] + dec_digits(count)
}

/// Renders an announcement header.
pub fn compose_header(medal: &String, count: u64) -> (s: String)
    ensures
        s@ == header_text(medal@, count as nat),
{
    let mut out: Vec<char> = Vec::new();
    push_str_chars(&mut out, medal.as_str());
    out.push(' ');
    push_dec(&mut out, count);
    proof {
        assert(out@ =~= header_text(medal@, count as nat));
    }
    chars_to_string(&out)
}

/// What the announcement channel must do for one message's new state.
#[derive(Clone, Copy, Debug, PartialEq, Eq, Structural)]
pub enum PinAction {
    /// Nothing: the message is unpinned and stays below the threshold.
    Keep,
    /// Post a new announcement; the caller reports the new id back through
    /// `record_pin_outcome`.
    Create,
    /// Edit the header of the existing announcement in place.
    Edit { pin_id: u64 },
    /// Delete the announcement; the pin is gone.
    Delete { pin_id: u64 },
}

/// The pin state machine: what must happen given the live announcement
/// (if any) and the tier the count now sits at (if any).
pub fn decide_pin_action(pin_id: Option<u64>, tier: Option<u64>) -> (a: PinAction)
    ensures
        a == match (pin_id, tier) {
            (None, None) => PinAction::Keep,
            (None, Some(_)) => PinAction::Create,
            (Some(p), Some(_)) => PinAction::Edit { pin_id: p },
            (Some(p), None) => PinAction::Delete { pin_id: p },
        },
{
    match (pin_id, tier) {
        (None, None) => PinAction::Keep,
        (None, Some(_)) => PinAction::Create,
        (Some(p), Some(_)) => PinAction::Edit { pin_id: p },
        (Some(p), None) => PinAction::Delete { pin_id: p },
    }
}

/// The jump link back to an original message, as the chat platform's
/// message URL scheme writes it.
pub open spec fn jump_link_text(guild_id: Option<u64>, channel_id: u64, message_id: u64) -> Seq<
    char,
> {
    match guild_id {
        Some(g) => "https://discord.com/channels/"@ + dec_digits(g as nat) + "/"@ + dec_digits(
            channel_id as nat,
        ) + "/"@ + dec_digits(message_id as nat),
        None => "https://discord.com/channels/@me/"@ + dec_digits(channel_id as nat) + "/"@
            + dec_digits(message_id as nat),
    }
}

/// Renders the jump link back to an original message.
pub fn message_jump_link(guild_id: Option<u64>, channel_id: u64, message_id: u64) -> (s: String)
    ensures
        s@ == jump_link_text(guild_id, channel_id, message_id),
{
    let mut out: Vec<char> = Vec::new();
    match guild_id {
        Some(g) => {
            push_str_chars(&mut out, "https://discord.com/channels/");
            push_dec(&mut out, g);
            push_str_chars(&mut out, "/");
            push_dec(&mut out, channel_id);
            push_str_chars(&mut out, "/");
            push_dec(&mut out, message_id);
        },
        None => {
            push_str_chars(&mut out, "https://discord.com/channels/@me/");
            push_dec(&mut out, channel_id);
            push_str_chars(&mut out, "/");
            push_dec(&mut out, message_id);
        },
    }
    proof {
        assert(out@ =~= jump_link_text(guild_id, channel_id, message_id));
    }
    chars_to_string(&out)
}

/// Everything the announcement channel needs for one message's update.
pub struct PinPlan {
    /// What must happen to the announcement.
    pub action: PinAction,
    /// The header a created or edited announcement shows.
    pub header: String,
}

/// Plans the announcement update for one tracked message: which
/// transition the pin state machine takes and, for a create or edit, the
/// header to show.  An untracked message needs no plan.
pub fn plan_pin_update(entity: &LedgerEntity, message_id: u64) -> (r: Option<PinPlan>)
    requires
        entity@.wf(),
    ensures
        match entity@.msg_of(message_id) {
            None => r is None,
            Some(tm) => {
                let tier = if tm.count < entity@.config.threshold {
                    None
                } else {
                    Some(tier_of(tm.count as nat, entity@.config.threshold as nat) as u64)
                };
                &&& r is Some
                &&& r->Some_0.action == match (tm.pin_id, tier) {
                    (None, None) => PinAction::Keep,
                    (None, Some(_)) => PinAction::Create,
                    (Some(p), Some(_)) => PinAction::Edit { pin_id: p },
                    (Some(p), None) => PinAction::Delete { pin_id: p },
                }
                &&& tier is Some ==> r->Some_0.header@ == header_text(
                    medal_text(entity@.config.medals, tier->Some_0 as nat),
                    tm.count as nat,
                )
            },
        },
{
    let tm = match entity.tatered_messages.get(message_id) {
        Some(tm) => tm,
        None => {
            return None;
        },
    };
    let tier = tier_index(tm.count, entity.config.threshold);
    let action = decide_pin_action(tm.pin_id, tier);
    let header = match tier {
        Some(t) => {
            let medal = medal_for_tier(&entity.config.medals, t);
            compose_header(&medal, tm.count)
        },
        None => String::new(),
    };
    Some(PinPlan { action, header })
}

impl LedgerEntity {
    /// How many other cached messages this sender already has: what a new
    /// announcement's footer reports as earlier pins.  Meaningful once the
    /// sender's current message is cached, hence the positive filter
    /// count.
    pub fn prior_pin_count(&self, sender: u64) -> (r: usize)
        requires
            exists|i: int|
                0 <= i < self@.tatered_messages.len() && (#[trigger] self@.tatered_messages[i]).1.sender
                    == sender,
        ensures
            r + 1 == self@.tatered_messages.filter(sent_by(sender)).len(),
    {
        let n = self.tatered_messages.count_by_sender(sender);
        proof {
            let i = choose|i: int|
                0 <= i < self@.tatered_messages.len() && (#[trigger] self@.tatered_messages[i]).1.sender
                    == sender;
            self@.tatered_messages.lemma_filter_contains(sent_by(sender), i);
        }
        n - 1
    }

    /// Records what the transport did to the announcement: the new pin id
    /// after a successful create, nothing after a delete, the old id after
    /// an edit.  A message the ledger no longer tracks is left alone.
    pub fn record_pin_outcome(&mut self, message_id: u64, new_pin: Option<u64>)
        ensures
            final(self)@ == match old(self)@.msg_of(message_id) {
                Some(tm) => crate::ledger::LedgerView {
                    tatered_messages: msg_updated(
                        old(self)@.tatered_messages,
                        message_id,
                        TateredMessage { sender: tm.sender, count: tm.count, pin_id: new_pin },
                    ),
                    ..old(self)@
                },
                None => old(self)@,
            },
            old(self)@.wf() ==> final(self)@.wf(),
    {
        let ghost pre = self@;
        match self.tatered_messages.get(message_id) {
            Some(tm) => {
                let updated = TateredMessage { sender: tm.sender, count: tm.count, pin_id: new_pin };
                self.tatered_messages.put(message_id, updated);
                proof {
                    lemma_msg_updated_get(pre.tatered_messages, message_id, updated, message_id);
                }
            },
            None => {},
        }
    }
}

} // verus!
