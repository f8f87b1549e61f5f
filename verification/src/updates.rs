//! Periodic housekeeping decisions: when to flush every community to
//! storage and which aggregate-statistics status message to rotate in
//! next.  The caller owns the clock and hands in the current time as
//! plain seconds; this module only decides.

use vstd::prelude::*;

use crate::maps::sat64;
use crate::store::{total_given_of, total_messages_of, CommunityStore};
use crate::text::{chars_to_string, dec_digits, push_dec, push_str_chars};

verus! {

/// Seconds between periodic full saves.
pub const SAVE_EVERY_SECS: u64 = 1800;

/// Seconds between status rotations.
pub const UPDATE_EVERY_SECS: u64 = 3600;

/// How many status messages the rotation cycles through.
pub const STATUSES_COUNT: u64 = 4;

/// Timer state for periodic saving and status rotation.
pub struct Updates {
    /// When the last full save ran, in the caller's clock seconds.
    pub last_save: u64,
    /// When the status last rotated, in the caller's clock seconds.
    pub last_status_change: u64,
    /// Position in the status rotation; absent until a status has been
    /// set once.
    pub status_idx: Option<u64>,
}

impl Updates {
    /// Fresh timer state: both timers start now, no status set yet.
    pub fn new(now: u64) -> (r: Updates)
        ensures
            r.last_save == now,
            r.last_status_change == now,
            r.status_idx is None,
    {
        Updates { last_save: now, last_status_change: now, status_idx: None }
    }
}

/// How a status message is presented.
#[derive(Clone, Copy, Debug, PartialEq, Eq, Structural)]
pub enum StatusKind {
    /// "Playing ..." presence.
    Playing,
    /// "Listening to ..." presence.
    Listening,
    /// "Competing in ..." presence.
    Competing,
}

/// Seconds elapsed on a clock that never runs backwards below zero.
pub open spec fn elapsed(now: u64, since: u64) -> nat {
    if now >= since {
        (now - since) as nat
    } else {
        0
    }
}

/// The status message at one rotation position, over the store's
/// aggregate statistics.
pub open spec fn status_text_at(idx: u64, s: Seq<(u64, crate::ledger::LedgerView)>) -> (
    StatusKind,
    Seq<char>,
) {
    if idx == 0 {
        (
            StatusKind::Playing,
            "with the "@ + dec_digits(sat64(total_given_of(s)) as nat) + " potatoes given"@,
        )
    } else if idx == 1 {
        (StatusKind::Playing, "in "@ + dec_digits(s.len()) + " servers"@)
    } else if idx == 2 {
        (
            StatusKind::Listening,
            "to "@ + dec_digits(sat64(total_messages_of(s)) as nat) + " potatoed messages"@,
        )
    } else {
        (
            StatusKind::Competing,
            "the record "@ + dec_digits(crate::store::store_max(s) as nat)
                + " potatoes on one message"@,
        )
    }
}

/// What one housekeeping check decides.
pub struct UpdateActions {
    /// The caller must now persist every community.
    pub save_needed: bool,
    /// The presence text to publish, if the rotation is due.
    pub status: Option<(StatusKind, String)>,
}

impl Updates {
    /// Decides the periodic work that is due at `now`: a full save once
    /// the save interval has elapsed, and the next status of the rotation
    /// once the rotation interval has elapsed (or none was ever set).
    /// Each timer that fires is reset to `now`; the rotation position
    /// advances cyclically.
    pub fn check_updates(&mut self, now: u64, store: &CommunityStore) -> (r: UpdateActions)
        ensures
            r.save_needed == (elapsed(now, old(self).last_save) >= SAVE_EVERY_SECS),
            final(self).last_save == if r.save_needed {
                now
            } else {
                old(self).last_save
            },
            ({
                let due = elapsed(now, old(self).last_status_change) >= UPDATE_EVERY_SECS || old(
                    self,
                ).status_idx is None;
                let idx = match old(self).status_idx {
                    Some(i) => i,
                    None => 0,
                };
                if due {
                    &&& final(self).last_status_change == now
                    &&& final(self).status_idx == Some(
                        if idx + 1 >= STATUSES_COUNT {
                            0u64
                        } else {
                            (idx + 1) as u64
                        },
                    )
                    &&& match r.status {
                        Some((kind, text)) => {
                            let (sk, st) = status_text_at(idx, store@);
                            kind == sk && text@ == st
                        },
                        None => false,
                    }
                } else {
                    &&& final(self).last_status_change == old(self).last_status_change
                    &&& final(self).status_idx == old(self).status_idx
                    &&& r.status is None
                }
            }),
{
        let save_needed = now >= self.last_save && now - self.last_save >= SAVE_EVERY_SECS;
        if save_needed {
            self.last_save = now;
        }
        let status_due = (now >= self.last_status_change && now - self.last_status_change
            >= UPDATE_EVERY_SECS) || self.status_idx.is_none();
        let status = if status_due {
            self.last_status_change = now;
            let idx = match self.status_idx {
                Some(i) => i,
                None => 0,
            };
            let entry = if idx == 0 {
                let mut out: Vec<char> = Vec::new();
                push_str_chars(&mut out, "with the ");
                push_dec(&mut out, store.total_given());
                push_str_chars(&mut out, " potatoes given");
                proof {
                    assert(out@ =~= status_text_at(0, store@).1);
                }
                (StatusKind::Playing, chars_to_string(&out))
            } else if idx == 1 {
                let mut out: Vec<char> = Vec::new();
                push_str_chars(&mut out, "in ");
                let n = store.len();
                push_dec(&mut out, n as u64);
                push_str_chars(&mut out, " servers");
                proof {
                    assert(out@ =~= status_text_at(1, store@).1);
                }
                (StatusKind::Playing, chars_to_string(&out))
            } else if idx == 2 {
                let mut out: Vec<char> = Vec::new();
                push_str_chars(&mut out, "to ");
                push_dec(&mut out, store.total_messages());
                push_str_chars(&mut out, " potatoed messages");
                proof {
                    assert(out@ =~= status_text_at(2, store@).1);
                }
                (StatusKind::Listening, chars_to_string(&out))
            } else {
                let mut out: Vec<char> = Vec::new();
                push_str_chars(&mut out, "the record ");
                push_dec(&mut out, store.max_single_count());
                push_str_chars(&mut out, " potatoes on one message");
                proof {
                    if idx >= 3 {
                        assert(out@ =~= status_text_at(idx, store@).1);
                    }
                }
                (StatusKind::Competing, chars_to_string(&out))
            };
            let next: u64 = if idx >= STATUSES_COUNT - 1 {
                0
            } else {
                idx + 1
            };
            self.status_idx = Some(next);
            Some(entry)
        } else {
            None
        };
        UpdateActions { save_needed, status }
    }
}

} // verus!
