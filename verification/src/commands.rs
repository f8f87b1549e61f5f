//! The administrative command surface: argument parsing, configuration
//! edits, and the replies each command sends back.  Every command states
//! exactly what it changes and what it answers.

use vstd::prelude::*;

use crate::codec::{digit_run_end, sp_parse_u64};
use crate::ledger::{Config, ConfigView, LedgerEntity};
use crate::persist::parse_u64_at;
use crate::text::{
    chars_to_string, dec_digits, dec_value, is_digit, push_dec, push_str_chars, str_eq,
    str_to_chars,
};

verus! {

/// A whole argument read as a number: every character must be a digit and
/// the value must fit the machine word.
pub open spec fn parse_full_u64(s: Seq<char>) -> Option<u64> {
    match sp_parse_u64(s, 0) {
        Some((n, e)) => if e == s.len() {
            Some(n)
        } else {
            None
        },
        None => None,
    }
}

/// Reads a whole argument as a number.
pub fn parse_full_u64_exec(s: &str) -> (r: Option<u64>)
    ensures
        r == parse_full_u64(s@),
{
    let chars = str_to_chars(s);
    match parse_u64_at(&chars, 0) {
        Some((n, e)) => if e == chars.len() {
            Some(n)
        } else {
            None
        },
        None => None,
    }
}

/// A channel mention in the chat platform's notation.
pub open spec fn channel_mention(id: u64) -> Seq<char> {
    "<#"@ + dec_digits(id as nat) + ">"@
}

/// Appends a channel mention.
fn push_channel_mention(out: &mut Vec<char>, id: u64)
    ensures
        final(out)@ == old(out)@ + channel_mention(id),
{
    push_str_chars(out, "<#");
    push_dec(out, id);
    push_str_chars(out, ">");
    proof {
        assert(out@ =~= old(out)@ + channel_mention(id));
    }
}

/// The reply to a command missing its argument.
pub open spec fn msg_missing_arg() -> Seq<char> {
    "Not enough arguments (1 expected)"@
}

/// The reply to an argument that is not a number.
pub open spec fn msg_bad_number(arg: Seq<char>) -> Seq<char> {
    "`"@ + arg + "` is not a number"@
}

/// First position in an identifier list holding `x`.
pub open spec fn u64_index_of(s: Seq<u64>, x: u64) -> int
    decreases s.len(),
{
    if s.len() == 0 {
        0
    } else if s[0] == x {
        0
    } else {
        1 + u64_index_of(s.drop_first(), x)
    }
}

/// Adds `x` to an identifier list unless present; reports whether it was
/// already there.
fn insert_unique(v: &mut Vec<u64>, x: u64) -> (existed: bool)
    requires
        old(v)@.no_duplicates(),
    ensures
        existed == old(v)@.contains(x),
        existed ==> *final(v) == *old(v),
        !existed ==> final(v)@ == old(v)@.push(x),
        final(v)@.no_duplicates(),
{
    if crate::assoc::contains_u64(v, x) {
        true
    } else {
        let ghost pre = v@;
        v.push(x);
        proof {
            assert forall|a: int, b: int| 0 <= a < b < v@.len() implies v@[a] != v@[b] by {
                if b < pre.len() {
                } else {
                    assert(v@[a] == pre[a]);
                    assert(v@[b] == x);
                    assert(!pre.contains(x));
                }
            }
        }
        false
    }
}

/// Removes `x`'s first occurrence from an identifier list, if any;
/// reports whether it was there.
fn remove_value(v: &mut Vec<u64>, x: u64) -> (existed: bool)
    requires
        old(v)@.no_duplicates(),
    ensures
        existed == old(v)@.contains(x),
        !existed ==> final(v)@ == old(v)@,
        existed ==> final(v)@ == old(v)@.remove(u64_index_of(old(v)@, x)),
        final(v)@.no_duplicates(),
        forall|y: u64| y != x ==> final(v)@.contains(y) == old(v)@.contains(y),
        !final(v)@.contains(x),
{
    let ghost pre = v@;
    let mut i: usize = 0;
    while i < v.len()
        invariant
            pre == v@,
            pre == old(v)@,
            pre.no_duplicates(),
            i <= pre.len(),
            forall|j: int| 0 <= j < i ==> pre[j] != x,
        decreases pre.len() - i,
    {
        if v[i] == x {
            proof {
                lemma_u64_index_of_prefix(pre, x, i as int);
            }
            v.remove(i);
            proof {
                let post = v@;
                pre.remove_ensures(i as int);
                assert(post == pre.remove(i as int));
                assert forall|w: int| 0 <= w < post.len() implies post[w] == (if w < i {
                    pre[w]
                } else {
                    pre[w + 1]
                }) by {
                    assert(post =~= pre.subrange(0, i as int) + pre.subrange(
                        i + 1,
                        pre.len() as int,
                    ));
                }
                assert forall|a: int, b: int| 0 <= a < b < post.len() implies post[a] != post[b] by {
                    let pa: int = if a < i { a } else { a + 1 };
                    let pb: int = if b < i { b } else { b + 1 };
                    assert(post[a] == pre[pa]);
                    assert(post[b] == pre[pb]);
                    assert(pre[pa] != pre[pb]);
                }
                assert forall|y: u64| y != x implies post.contains(y) == pre.contains(y) by {
                    if pre.contains(y) {
                        let w = choose|w: int| 0 <= w < pre.len() && pre[w] == y;
                        assert(w != i);
                        if w < i {
                            assert(post[w] == y);
                        } else {
                            assert(post[w - 1] == y);
                        }
                    }
                    if post.contains(y) {
                        let w = choose|w: int| 0 <= w < post.len() && post[w] == y;
                        assert(post[w] == (if w < i { pre[w] } else { pre[w + 1] }));
                    }
                }
                assert forall|w: int| 0 <= w < post.len() implies post[w] != x by {
                    assert(post[w] == (if w < i { pre[w] } else { pre[w + 1] }));
                    if w >= i {
                        assert(w + 1 != i);
                        assert(pre[i as int] != pre[w + 1]);
                    }
                }
            }
            return true;
        }
        i = i + 1;
    }
    proof {
        assert(!pre.contains(x));
    }
    false
}

/// The first match found by a left-to-right scan is the index-of.
proof fn lemma_u64_index_of_prefix(s: Seq<u64>, x: u64, i: int)
    requires
        0 <= i < s.len(),
        s[i] == x,
        forall|j: int| 0 <= j < i ==> s[j] != x,
    ensures
        u64_index_of(s, x) == i,
        s.contains(x),
    decreases s.len(),
{
    if s[0] != x {
        assert(forall|j: int| 0 <= j < i - 1 ==> s.drop_first()[j] == s[j + 1]);
        assert(s.drop_first()[i - 1] == s[i]);
        lemma_u64_index_of_prefix(s.drop_first(), x, i - 1);
    }
}

/// What `set_pin_channel` answers and changes: the pin channel is set to
/// the named channel, which also enters the blacklist if not yet there.
pub open spec fn set_pin_channel_spec(cv: ConfigView, args: Seq<Seq<char>>) -> (
    Result<Seq<char>, Seq<char>>,
    ConfigView,
) {
    if args.len() < 1 {
        (Err(msg_missing_arg()), cv)
    } else {
        match parse_full_u64(args[0]) {
            None => (Err(msg_bad_number(args[0])), cv),
            Some(id) => {
                let existed = cv.blacklisted_channels.contains(id);
                let cv2 = ConfigView {
                    pin_channel: id,
                    blacklisted_channels: if existed {
                        cv.blacklisted_channels
                    } else {
                        cv.blacklisted_channels.push(id)
                    },
                    ..cv
                };
                let reply = if existed {
                    "Set pins channel to `"@ + channel_mention(id)
                        + "`, and it was already blacklisted"@
                } else {
                    "Set pins channel to `"@ + channel_mention(id)
                        + "` and added it to the blacklist"@
                };
                (Ok(reply), cv2)
            },
        }
    }
}

/// Sets the announcement channel and blacklists it.
pub fn set_pin_channel(args: &Vec<String>, config: &mut Config) -> (r: Result<String, String>)
    requires
        old(config)@.wf(),
    ensures
        ({
            let (sr, cv2) = set_pin_channel_spec(old(config)@, args.deep_view());
            &&& final(config)@ == cv2
            &&& match (r, sr) {
                (Ok(m), Ok(sm)) => m@ == sm,
                (Err(m), Err(sm)) => m@ == sm,
                _ => false,
            }
        }),
        final(config)@.wf(),
{
    proof {
        assert(args.deep_view().len() == args@.len());
    }
    if args.len() < 1 {
        return Err(String::from_str("Not enough arguments (1 expected)"));
    }
    proof {
        assert(args.deep_view()[0] == args@[0]@);
    }
    let id = match parse_full_u64_exec(args[0].as_str()) {
        Some(id) => id,
        None => {
            let mut out: Vec<char> = Vec::new();
            push_str_chars(&mut out, "`");
            push_str_chars(&mut out, args[0].as_str());
            push_str_chars(&mut out, "` is not a number");
            proof {
                assert(out@ =~= msg_bad_number(args.deep_view()[0]));
            }
            return Err(chars_to_string(&out));
        },
    };
    config.pin_channel = id;
    let existed = insert_unique(&mut config.blacklisted_channels, id);
    let mut out: Vec<char> = Vec::new();
    push_str_chars(&mut out, "Set pins channel to `");
    push_channel_mention(&mut out, id);
    if existed {
        push_str_chars(&mut out, "`, and it was already blacklisted");
    } else {
        push_str_chars(&mut out, "` and added it to the blacklist");
    }
    proof {
        let (sr, cv2) = set_pin_channel_spec(old(config)@, args.deep_view());
        assert(out@ =~= sr->Ok_0);
        if !existed {
            assert(config@.blacklisted_channels =~= cv2.blacklisted_channels);
        }
        assert(config@ == cv2);
    }
    Ok(chars_to_string(&out))
}

/// What `set_threshold` answers and changes: the threshold is replaced,
/// but may never drop below one.
pub open spec fn set_threshold_spec(cv: ConfigView, args: Seq<Seq<char>>) -> (
    Result<Seq<char>, Seq<char>>,
    ConfigView,
) {
    if args.len() < 1 {
        (Err(msg_missing_arg()), cv)
    } else {
        match parse_full_u64(args[0]) {
            None => (Err(msg_bad_number(args[0])), cv),
            Some(n) => if n < 1 {
                (Err("Threshold must be at least 1"@), cv)
            } else {
                (
                    Ok("Threshold changed to "@ + dec_digits(n as nat)),
                    ConfigView { threshold: n, ..cv },
                )
            },
        }
    }
}

/// Sets how many votes tier zero requires.
pub fn set_threshold(args: &Vec<String>, config: &mut Config) -> (r: Result<String, String>)
    requires
        old(config)@.wf(),
    ensures
        ({
            let (sr, cv2) = set_threshold_spec(old(config)@, args.deep_view());
            &&& final(config)@ == cv2
            &&& match (r, sr) {
                (Ok(m), Ok(sm)) => m@ == sm,
                (Err(m), Err(sm)) => m@ == sm,
                _ => false,
            }
        }),
        final(config)@.wf(),
{
    proof {
        assert(args.deep_view().len() == args@.len());
    }
    if args.len() < 1 {
        return Err(String::from_str("Not enough arguments (1 expected)"));
    }
    proof {
        assert(args.deep_view()[0] == args@[0]@);
    }
    let n = match parse_full_u64_exec(args[0].as_str()) {
        Some(n) => n,
        None => {
            let mut out: Vec<char> = Vec::new();
            push_str_chars(&mut out, "`");
            push_str_chars(&mut out, args[0].as_str());
            push_str_chars(&mut out, "` is not a number");
            proof {
                assert(out@ =~= msg_bad_number(args.deep_view()[0]));
            }
            return Err(chars_to_string(&out));
        },
    };
    if n < 1 {
        return Err(String::from_str("Threshold must be at least 1"));
    }
    config.threshold = n;
    let mut out: Vec<char> = Vec::new();
    push_str_chars(&mut out, "Threshold changed to ");
    push_dec(&mut out, n);
    proof {
        assert(out@ =~= "Threshold changed to "@ + dec_digits(n as nat));
    }
    Ok(chars_to_string(&out))
}

/// What `blacklist` answers and changes: the channel enters the blacklist
/// if not yet there.
pub open spec fn blacklist_spec(cv: ConfigView, args: Seq<Seq<char>>) -> (
    Result<Seq<char>, Seq<char>>,
    ConfigView,
) {
    if args.len() < 1 {
        (Err(msg_missing_arg()), cv)
    } else {
        match parse_full_u64(args[0]) {
            None => (Err(msg_bad_number(args[0])), cv),
            Some(id) => {
                let existed = cv.blacklisted_channels.contains(id);
                let cv2 = ConfigView {
                    blacklisted_channels: if existed {
                        cv.blacklisted_channels
                    } else {
                        cv.blacklisted_channels.push(id)
                    },
                    ..cv
                };
                let reply = if existed {
                    "`"@ + channel_mention(id) + "` was already blacklisted"@
                } else {
                    "Blacklisted `"@ + channel_mention(id) + "`"@
                };
                (Ok(reply), cv2)
            },
        }
    }
}

/// Exempts a channel from tracking and pinning.
pub fn blacklist(args: &Vec<String>, config: &mut Config) -> (r: Result<String, String>)
    requires
        old(config)@.wf(),
    ensures
        ({
            let (sr, cv2) = blacklist_spec(old(config)@, args.deep_view());
            &&& final(config)@ == cv2
            &&& match (r, sr) {
                (Ok(m), Ok(sm)) => m@ == sm,
                (Err(m), Err(sm)) => m@ == sm,
                _ => false,
            }
        }),
        final(config)@.wf(),
{
    proof {
        assert(args.deep_view().len() == args@.len());
    }
    if args.len() < 1 {
        return Err(String::from_str("Not enough arguments (1 expected)"));
    }
    proof {
        assert(args.deep_view()[0] == args@[0]@);
    }
    let id = match parse_full_u64_exec(args[0].as_str()) {
        Some(id) => id,
        None => {
            let mut out: Vec<char> = Vec::new();
            push_str_chars(&mut out, "`");
            push_str_chars(&mut out, args[0].as_str());
            push_str_chars(&mut out, "` is not a number");
            proof {
                assert(out@ =~= msg_bad_number(args.deep_view()[0]));
            }
            return Err(chars_to_string(&out));
        },
    };
    let existed = insert_unique(&mut config.blacklisted_channels, id);
    let mut out: Vec<char> = Vec::new();
    if existed {
        push_str_chars(&mut out, "`");
        push_channel_mention(&mut out, id);
        push_str_chars(&mut out, "` was already blacklisted");
    } else {
        push_str_chars(&mut out, "Blacklisted `");
        push_channel_mention(&mut out, id);
        push_str_chars(&mut out, "`");
    }
    proof {
        let (sr, cv2) = blacklist_spec(old(config)@, args.deep_view());
        assert(out@ =~= sr->Ok_0);
        if !existed {
            assert(config@.blacklisted_channels =~= cv2.blacklisted_channels);
        }
        assert(config@ == cv2);
    }
    Ok(chars_to_string(&out))
}

/// What `unblacklist` answers and changes: the channel leaves the
/// blacklist if there.
pub open spec fn unblacklist_spec(cv: ConfigView, args: Seq<Seq<char>>) -> (
    Result<Seq<char>, Seq<char>>,
    ConfigView,
) {
    if args.len() < 1 {
        (Err(msg_missing_arg()), cv)
    } else {
        match parse_full_u64(args[0]) {
            None => (Err(msg_bad_number(args[0])), cv),
            Some(id) => {
                let existed = cv.blacklisted_channels.contains(id);
                let cv2 = ConfigView {
                    blacklisted_channels: if existed {
                        cv.blacklisted_channels.remove(
                            u64_index_of(cv.blacklisted_channels, id),
                        )
                    } else {
                        cv.blacklisted_channels
                    },
                    ..cv
                };
                let reply = if existed {
                    "Unblacklisted `"@ + channel_mention(id) + "`"@
                } else {
                    "`"@ + channel_mention(id) + "` was not blacklisted"@
                };
                (Ok(reply), cv2)
            },
        }
    }
}

/// Lets a channel be tracked and pinned again.
pub fn unblacklist(args: &Vec<String>, config: &mut Config) -> (r: Result<String, String>)
    requires
        old(config)@.wf(),
    ensures
        ({
            let (sr, cv2) = unblacklist_spec(old(config)@, args.deep_view());
            &&& final(config)@ == cv2
            &&& match (r, sr) {
                (Ok(m), Ok(sm)) => m@ == sm,
                (Err(m), Err(sm)) => m@ == sm,
                _ => false,
            }
        }),
        final(config)@.wf(),
{
    proof {
        assert(args.deep_view().len() == args@.len());
    }
    if args.len() < 1 {
        return Err(String::from_str("Not enough arguments (1 expected)"));
    }
    proof {
        assert(args.deep_view()[0] == args@[0]@);
    }
    let id = match parse_full_u64_exec(args[0].as_str()) {
        Some(id) => id,
        None => {
            let mut out: Vec<char> = Vec::new();
            push_str_chars(&mut out, "`");
            push_str_chars(&mut out, args[0].as_str());
            push_str_chars(&mut out, "` is not a number");
            proof {
                assert(out@ =~= msg_bad_number(args.deep_view()[0]));
            }
            return Err(chars_to_string(&out));
        },
    };
    let existed = remove_value(&mut config.blacklisted_channels, id);
    let mut out: Vec<char> = Vec::new();
    if existed {
        push_str_chars(&mut out, "Unblacklisted `");
        push_channel_mention(&mut out, id);
        push_str_chars(&mut out, "`");
    } else {
        push_str_chars(&mut out, "`");
        push_channel_mention(&mut out, id);
        push_str_chars(&mut out, "` was not blacklisted");
    }
    proof {
        let (sr, cv2) = unblacklist_spec(old(config)@, args.deep_view());
        assert(out@ =~= sr->Ok_0);
        assert(config@ == cv2);
    }
    Ok(chars_to_string(&out))
}

/// What `admin` answers and changes: the user enters the admin set if
/// not yet there.
pub open spec fn admin_spec(cv: ConfigView, args: Seq<Seq<char>>) -> (
    Result<Seq<char>, Seq<char>>,
    ConfigView,
) {
    if args.len() < 1 {
        (Err(msg_missing_arg()), cv)
    } else {
        match parse_full_u64(args[0]) {
            None => (Err(msg_bad_number(args[0])), cv),
            Some(id) => {
                let existed = cv.admins.contains(id);
                let cv2 = ConfigView {
                    admins: if existed {
                        cv.admins
                    } else {
                        cv.admins.push(id)
                    },
                    ..cv
                };
                let reply = if existed {
                    "`"@ + dec_digits(id as nat) + "` was already an admin"@
                } else {
                    "Added `"@ + dec_digits(id as nat) + "` as a new admin"@
                };
                (Ok(reply), cv2)
            },
        }
    }
}

/// Grants a user this tracker's administrative commands.
pub fn admin(args: &Vec<String>, config: &mut Config) -> (r: Result<String, String>)
    requires
        old(config)@.wf(),
    ensures
        ({
            let (sr, cv2) = admin_spec(old(config)@, args.deep_view());
            &&& final(config)@ == cv2
            &&& match (r, sr) {
                (Ok(m), Ok(sm)) => m@ == sm,
                (Err(m), Err(sm)) => m@ == sm,
                _ => false,
            }
        }),
        final(config)@.wf(),
{
    proof {
        assert(args.deep_view().len() == args@.len());
    }
    if args.len() < 1 {
        return Err(String::from_str("Not enough arguments (1 expected)"));
    }
    proof {
        assert(args.deep_view()[0] == args@[0]@);
    }
    let id = match parse_full_u64_exec(args[0].as_str()) {
        Some(id) => id,
        None => {
            let mut out: Vec<char> = Vec::new();
            push_str_chars(&mut out, "`");
            push_str_chars(&mut out, args[0].as_str());
            push_str_chars(&mut out, "` is not a number");
            proof {
                assert(out@ =~= msg_bad_number(args.deep_view()[0]));
            }
            return Err(chars_to_string(&out));
        },
    };
    let existed = insert_unique(&mut config.admins, id);
    let mut out: Vec<char> = Vec::new();
    if existed {
        push_str_chars(&mut out, "`");
        push_dec(&mut out, id);
        push_str_chars(&mut out, "` was already an admin");
    } else {
        push_str_chars(&mut out, "Added `");
        push_dec(&mut out, id);
        push_str_chars(&mut out, "` as a new admin");
    }
    proof {
        let (sr, cv2) = admin_spec(old(config)@, args.deep_view());
        assert(out@ =~= sr->Ok_0);
        if !existed {
            assert(config@.admins =~= cv2.admins);
        }
        assert(config@ == cv2);
    }
    Ok(chars_to_string(&out))
}

/// What `unadmin` answers and changes: the user leaves the admin set if
/// there.
pub open spec fn unadmin_spec(cv: ConfigView, args: Seq<Seq<char>>) -> (
    Result<Seq<char>, Seq<char>>,
    ConfigView,
) {
    if args.len() < 1 {
        (Err(msg_missing_arg()), cv)
    } else {
        match parse_full_u64(args[0]) {
            None => (Err(msg_bad_number(args[0])), cv),
            Some(id) => {
                let existed = cv.admins.contains(id);
                let cv2 = ConfigView {
                    admins: if existed {
                        cv.admins.remove(u64_index_of(cv.admins, id))
                    } else {
                        cv.admins
                    },
                    ..cv
                };
                let reply = if existed {
                    "Removed `"@ + dec_digits(id as nat) + "` from being an admin"@
                } else {
                    "`"@ + dec_digits(id as nat) + "` was not an admin"@
                };
                (Ok(reply), cv2)
            },
        }
    }
}

/// Withdraws a user's administrative commands.
pub fn unadmin(args: &Vec<String>, config: &mut Config) -> (r: Result<String, String>)
    requires
        old(config)@.wf(),
    ensures
        ({
            let (sr, cv2) = unadmin_spec(old(config)@, args.deep_view());
            &&& final(config)@ == cv2
            &&& match (r, sr) {
                (Ok(m), Ok(sm)) => m@ == sm,
                (Err(m), Err(sm)) => m@ == sm,
                _ => false,
            }
        }),
        final(config)@.wf(),
{
    proof {
        assert(args.deep_view().len() == args@.len());
    }
    if args.len() < 1 {
        return Err(String::from_str("Not enough arguments (1 expected)"));
    }
    proof {
        assert(args.deep_view()[0] == args@[0]@);
    }
    let id = match parse_full_u64_exec(args[0].as_str()) {
        Some(id) => id,
        None => {
            let mut out: Vec<char> = Vec::new();
            push_str_chars(&mut out, "`");
            push_str_chars(&mut out, args[0].as_str());
            push_str_chars(&mut out, "` is not a number");
            proof {
                assert(out@ =~= msg_bad_number(args.deep_view()[0]));
            }
            return Err(chars_to_string(&out));
        },
    };
    let existed = remove_value(&mut config.admins, id);
    let mut out: Vec<char> = Vec::new();
    if existed {
        push_str_chars(&mut out, "Removed `");
        push_dec(&mut out, id);
        push_str_chars(&mut out, "` from being an admin");
    } else {
        push_str_chars(&mut out, "`");
        push_dec(&mut out, id);
        push_str_chars(&mut out, "` was not an admin");
    }
    proof {
        let (sr, cv2) = unadmin_spec(old(config)@, args.deep_view());
        assert(out@ =~= sr->Ok_0);
        assert(config@ == cv2);
    }
    Ok(chars_to_string(&out))
}

/// First position at or after `i` that holds a colon (or the end).
pub open spec fn scan_to_colon(s: Seq<char>, i: int) -> int
    decreases s.len() - i,
{
    if 0 <= i < s.len() && s[i] != ':' {
        scan_to_colon(s, i + 1)
    } else {
        i
    }
}

/// A custom reaction symbol: `<:name:id>` or `<a:name:id>`, with a
/// non-empty name, and an identifier that is all digits and fits the
/// machine word.
pub open spec fn valid_custom_symbol(s: Seq<char>) -> bool {
    let p: int = if s.len() >= 2 && s[1] == 'a' {
        2
    } else {
        1
    };
    &&& p < s.len()
    &&& s[p] == ':'
    &&& {
        let q = scan_to_colon(s, p + 1);
        &&& q > p + 1
        &&& q < s.len()
        &&& {
            let e = digit_run_end(s, q + 1);
            &&& e > q + 1
            &&& e == s.len() - 1
            &&& s[e] == '>'
            &&& dec_value(s.subrange(q + 1, e)) <= u64::MAX
        }
    }
}

/// An acceptable reaction symbol: any plain token (taken as a unicode
/// emoji), or a well-formed custom symbol when it opens with `<`.
pub open spec fn valid_symbol(s: Seq<char>) -> bool {
    s.len() >= 1 && (s[0] == '<' ==> valid_custom_symbol(s))
}

/// Checks a reaction symbol's shape.
pub fn validate_symbol(sym: &str) -> (r: bool)
    ensures
        r == valid_symbol(sym@),
{
    let chars = str_to_chars(sym);
    let ghost t = chars@;
    let n = chars.len();
    if n == 0 {
        return false;
    }
    if !(chars[0] == '<') {
        return true;
    }
    let p: usize = if n >= 2 && chars[1] == 'a' {
        2
    } else {
        1
    };
    if p >= n || !(chars[p] == ':') {
        return false;
    }
    let mut q: usize = p + 1;
    while q < n && !(chars[q] == ':')
        invariant
            t == chars@,
            n == t.len(),
            p + 1 <= q <= n,
            scan_to_colon(t, p + 1) == scan_to_colon(t, q as int),
        decreases n - q,
    {
        q = q + 1;
    }
    proof {
        assert(scan_to_colon(t, q as int) == q);
    }
    if q <= p + 1 || q >= n {
        return false;
    }
    match parse_u64_at(&chars, q + 1) {
        Some((_, e)) => {
            proof {
                crate::codec::lemma_sp_parse_u64_advances(t, q + 1);
            }
            e == n - 1 && chars[e] == '>'
        },
        None => {
            proof {
                if !(q + 1 < t.len() && is_digit(t[q + 1])) {
                    assert(digit_run_end(t, q + 1) == q + 1);
                }
            }
            false
        },
    }
}

/// What `set_potato` answers and changes: the vote symbol is replaced,
/// provided the argument has an acceptable shape.
pub open spec fn set_potato_spec(cv: ConfigView, args: Seq<Seq<char>>) -> (
    Result<Seq<char>, Seq<char>>,
    ConfigView,
) {
    if args.len() < 1 {
        (Err(msg_missing_arg()), cv)
    } else if !valid_symbol(args[0]) {
        (Err("`"@ + args[0] + "` is not an emoji this tracker accepts"@), cv)
    } else {
        (
            Ok("Set potato emoji to "@ + args[0] + " (from "@ + cv.tater_emoji + ")"@),
            ConfigView { tater_emoji: args[0], ..cv },
        )
    }
}

/// Replaces the reaction symbol that counts as a vote.
pub fn set_potato(args: &Vec<String>, config: &mut Config) -> (r: Result<String, String>)
    requires
        old(config)@.wf(),
    ensures
        ({
            let (sr, cv2) = set_potato_spec(old(config)@, args.deep_view());
            &&& final(config)@ == cv2
            &&& match (r, sr) {
                (Ok(m), Ok(sm)) => m@ == sm,
                (Err(m), Err(sm)) => m@ == sm,
                _ => false,
            }
        }),
        final(config)@.wf(),
{
    proof {
        assert(args.deep_view().len() == args@.len());
    }
    if args.len() < 1 {
        return Err(String::from_str("Not enough arguments (1 expected)"));
    }
    proof {
        assert(args.deep_view()[0] == args@[0]@);
    }
    if !validate_symbol(args[0].as_str()) {
        let mut out: Vec<char> = Vec::new();
        push_str_chars(&mut out, "`");
        push_str_chars(&mut out, args[0].as_str());
        push_str_chars(&mut out, "` is not an emoji this tracker accepts");
        proof {
            assert(out@ =~= "`"@ + args.deep_view()[0]
                + "` is not an emoji this tracker accepts"@);
        }
        return Err(chars_to_string(&out));
    }
    let mut out: Vec<char> = Vec::new();
    push_str_chars(&mut out, "Set potato emoji to ");
    push_str_chars(&mut out, args[0].as_str());
    push_str_chars(&mut out, " (from ");
    push_str_chars(&mut out, config.tater_emoji.as_str());
    push_str_chars(&mut out, ")");
    config.tater_emoji = args[0].clone();
    proof {
        let (sr, cv2) = set_potato_spec(old(config)@, args.deep_view());
        assert(out@ =~= sr->Ok_0);
        assert(config@ == cv2);
    }
    Ok(chars_to_string(&out))
}

/// The `list_admins` reply body: one line per administrator.
pub open spec fn admins_lines(s: Seq<u64>) -> Seq<char>
    decreases s.len(),
{
    if s.len() == 0 {
        Seq::<char>::empty()
    } else {
        admins_lines(s.drop_last()) + "\n- "@ + crate::leaderboard::mention_text(s.last())
    }
}

/// The whole `list_admins` reply.
pub open spec fn list_admins_text(s: Seq<u64>) -> Seq<char> {
    "Admins:"@ + admins_lines(s)
}

/// Lists the configured administrators.
pub fn list_admins(config: &Config) -> (r: String)
    ensures
        r@ == list_admins_text(config@.admins),
{
    let ghost s = config@.admins;
    let mut out: Vec<char> = Vec::new();
    push_str_chars(&mut out, "Admins:");
    let mut i: usize = 0;
    while i < config.admins.len()
        invariant
            s == config@.admins,
            i <= s.len(),
            out@ == "Admins:"@ + admins_lines(s.subrange(0, i as int)),
        decreases s.len() - i,
    {
        push_str_chars(&mut out, "\n- ");
        push_str_chars(&mut out, "<@");
        push_dec(&mut out, config.admins[i]);
        push_str_chars(&mut out, ">");
        proof {
            assert(s.subrange(0, i + 1).drop_last() =~= s.subrange(0, i as int));
            assert(s.subrange(0, i + 1).last() == s[i as int]);
            assert(out@ =~= "Admins:"@ + admins_lines(s.subrange(0, i + 1)));
        }
        i = i + 1;
    }
    proof {
        assert(s.subrange(0, s.len() as int) =~= s);
    }
    chars_to_string(&out)
}

/// The `show_blacklist` reply: one line per blacklisted channel, empty
/// when nothing is blacklisted.
pub open spec fn blacklist_lines(s: Seq<u64>) -> Seq<char>
    decreases s.len(),
{
    if s.len() == 0 {
        Seq::<char>::empty()
    } else if s.len() == 1 {
        "- "@ + channel_mention(s[0])
    } else {
        blacklist_lines(s.drop_last()) + "\n- "@ + channel_mention(s.last())
    }
}

/// Lists the blacklisted channels.
pub fn show_blacklist(config: &Config) -> (r: String)
    ensures
        r@ == blacklist_lines(config@.blacklisted_channels),
{
    let ghost s = config@.blacklisted_channels;
    let mut out: Vec<char> = Vec::new();
    let mut i: usize = 0;
    while i < config.blacklisted_channels.len()
        invariant
            s == config@.blacklisted_channels,
            i <= s.len(),
            out@ == blacklist_lines(s.subrange(0, i as int)),
        decreases s.len() - i,
    {
        if i > 0 {
            push_str_chars(&mut out, "\n- ");
        } else {
            push_str_chars(&mut out, "- ");
        }
        push_channel_mention(&mut out, config.blacklisted_channels[i]);
        proof {
            assert(s.subrange(0, i + 1).drop_last() =~= s.subrange(0, i as int));
            assert(s.subrange(0, i + 1).last() == s[i as int]);
            if i == 0 {
                assert(s.subrange(0, 1) =~= seq![s[0]]);
            }
            assert(out@ =~= blacklist_lines(s.subrange(0, i + 1)));
        }
        i = i + 1;
    }
    proof {
        assert(s.subrange(0, s.len() as int) =~= s);
    }
    chars_to_string(&out)
}

/// The exported counter rows, one `key,value` line per user.
pub open spec fn csv_lines(s: Seq<(u64, u64)>) -> Seq<char>
    decreases s.len(),
{
    if s.len() == 0 {
        Seq::<char>::empty()
    } else {
        csv_lines(s.drop_last()) + "\n"@ + dec_digits(s.last().0 as nat) + ","@ + dec_digits(
            s.last().1 as nat,
        )
    }
}

/// A whole counter export: header row, then one row per user.
pub open spec fn csv_text(s: Seq<(u64, u64)>) -> Seq<char> {
    "uid,value"@ + csv_lines(s)
}

/// What `generate_csv` answers: an export of the named counter map, or
/// an error for an unknown report name.
pub open spec fn generate_csv_spec(lv: crate::ledger::LedgerView, args: Seq<Seq<char>>) -> Result<
    Seq<char>,
    Seq<char>,
> {
    if args.len() >= 1 && args[0] == "receivers"@ {
        Ok(csv_text(lv.taters_got))
    } else if args.len() >= 1 && args[0] == "givers"@ {
        Ok(csv_text(lv.taters_given))
    } else {
        Err("Unknown report"@)
    }
}

/// Renders one counter map as comma-separated rows.
fn render_csv(map: &crate::maps::CountMap) -> (r: String)
    ensures
        r@ == csv_text(map@),
{
    let ghost s = map@;
    let mut out: Vec<char> = Vec::new();
    push_str_chars(&mut out, "uid,value");
    let mut i: usize = 0;
    while i < map.entries.len()
        invariant
            s == map@,
            i <= s.len(),
            out@ == "uid,value"@ + csv_lines(s.subrange(0, i as int)),
        decreases s.len() - i,
    {
        push_str_chars(&mut out, "\n");
        push_dec(&mut out, map.entries[i].0);
        push_str_chars(&mut out, ",");
        push_dec(&mut out, map.entries[i].1);
        proof {
            assert(s.subrange(0, i + 1).drop_last() =~= s.subrange(0, i as int));
            assert(s.subrange(0, i + 1).last() == s[i as int]);
            assert(out@ =~= "uid,value"@ + csv_lines(s.subrange(0, i + 1)));
        }
        i = i + 1;
    }
    proof {
        assert(s.subrange(0, s.len() as int) =~= s);
    }
    chars_to_string(&out)
}

/// Exports one counter map as rows for an attachment.
pub fn generate_csv(args: &Vec<String>, entity: &LedgerEntity) -> (r: Result<String, String>)
    ensures
        ({
            let sr = generate_csv_spec(entity@, args.deep_view());
            match (r, sr) {
                (Ok(m), Ok(sm)) => m@ == sm,
                (Err(m), Err(sm)) => m@ == sm,
                _ => false,
            }
        }),
{
    proof {
        assert(args.deep_view().len() == args@.len());
        if args@.len() >= 1 {
            assert(args.deep_view()[0] == args@[0]@);
        }
    }
    if args.len() >= 1 && str_eq(args[0].as_str(), "receivers") {
        Ok(render_csv(&entity.taters_got))
    } else if args.len() >= 1 && str_eq(args[0].as_str(), "givers") {
        Ok(render_csv(&entity.taters_given))
    } else {
        Err(String::from_str("Unknown report"))
    }
}

/// The general help message.
pub open spec fn help_message_basic() -> Seq<char> {
    " === PotatoBoard Help ===\n- `help`: Get this message.\n- `receivers <page_number>`: See the most protatolific receivers of potatoes. `page_number` is optional.\n- `givers <page_number>`: See the most protatolific givers of potatoes. `page_number` is optional."@
}

/// The administrator's addendum to the help message.
pub open spec fn help_message_admin() -> Seq<char> {
    "You're an admin! Here's the admin commands:\n- `set_pin_channel <channel_id>`: Set the channel that pinned messages to go, and adds it to the potato blacklist.\n- `set_potato <emoji>`: Set the given emoji to be the operative one.\n- `set_threshold <number>`: Set how many potatoes have to be on a message before it is pinned.\n- `blacklist <channel_id>`: Make the channel no longer eligible for pinning messages, regardless of potato count.\n- `unblacklist <channel_id>`: Unblacklist this channel so messages from it can be pinned again.\n- `show_blacklist`: Show which channels are ineligible for pinning messages.\n- `admin <user_id>`: Let this user access this bot's admin commands on this server.\n- `unadmin <user_id>`: Stops this user from being an admin on this server.\n- `list_admins`: Print a list of admins.\n- `save`: Flush any in-memory state to disk.\nPeople with any role with an Administrator privilege are always admins of this bot."@
}

/// The whole help reply: administrators also see the admin commands.
pub open spec fn help_message(is_admin: bool) -> Seq<char> {
    if is_admin {
        help_message_basic() + "\n"@ + help_message_admin()
    } else {
        help_message_basic()
    }
}

/// Renders the help reply.
pub fn help_text(is_admin: bool) -> (r: String)
    ensures
        r@ == help_message(is_admin),
{
    let mut s = String::from_str(
        " === PotatoBoard Help ===\n- `help`: Get this message.\n- `receivers <page_number>`: See the most protatolific receivers of potatoes. `page_number` is optional.\n- `givers <page_number>`: See the most protatolific givers of potatoes. `page_number` is optional.",
    );
    if is_admin {
        s.append("\n");
        s.append(
            "You're an admin! Here's the admin commands:\n- `set_pin_channel <channel_id>`: Set the channel that pinned messages to go, and adds it to the potato blacklist.\n- `set_potato <emoji>`: Set the given emoji to be the operative one.\n- `set_threshold <number>`: Set how many potatoes have to be on a message before it is pinned.\n- `blacklist <channel_id>`: Make the channel no longer eligible for pinning messages, regardless of potato count.\n- `unblacklist <channel_id>`: Unblacklist this channel so messages from it can be pinned again.\n- `show_blacklist`: Show which channels are ineligible for pinning messages.\n- `admin <user_id>`: Let this user access this bot's admin commands on this server.\n- `unadmin <user_id>`: Stops this user from being an admin on this server.\n- `list_admins`: Print a list of admins.\n- `save`: Flush any in-memory state to disk.\nPeople with any role with an Administrator privilege are always admins of this bot.",
        );
    }
    s
}

/// Whether a user may run administrative commands: configured as an
/// admin here, or holding an administrator-level platform role.
pub fn is_admin_user(config: &Config, user_id: u64, has_platform_admin_role: bool) -> (r: bool)
    ensures
        r == (has_platform_admin_role || config@.admins.contains(user_id)),
{
    has_platform_admin_role || crate::assoc::contains_u64(&config.admins, user_id)
}

/// What a text command asks the caller to do next.
pub enum CommandEffect {
    /// Nothing to send back.
    Quiet,
    /// A plain text reply.
    Reply { text: String },
    /// A leaderboard reply: title, ranked body, footer.
    Board { title: String, body: String, footer: String },
    /// Counter rows to send back as a file attachment.
    Csv { data: String },
    /// The caller must persist this community's counters and report how
    /// it went.
    SaveCounters,
}

/// How a command's result is spoken back: an error is prefixed so the
/// reply channel shows it as one.
pub open spec fn reply_of(sr: Result<Seq<char>, Seq<char>>) -> Seq<char> {
    match sr {
        Ok(m) => m,
        Err(m) => "An error occured: \n"@ + m,
    }
}

/// The page a leaderboard command's argument asks for; one when absent
/// or unreadable.
pub open spec fn page_from_args(args: Seq<Seq<char>>) -> nat {
    if args.len() >= 1 {
        match parse_full_u64(args[0]) {
            Some(p) => clamp_page(p as nat),
            None => 1,
        }
    } else {
        1
    }
}

/// A requested page held to the machine's index range; the later clamp
/// into the board's page count makes anything beyond it equivalent
/// anyway.
pub open spec fn clamp_page(p: nat) -> nat {
    if p > usize::MAX {
        usize::MAX as nat
    } else {
        p
    }
}

/// Wraps a command result as a reply effect.
fn effect_of(res: Result<String, String>) -> (r: CommandEffect)
    ensures
        ({
            let sr = match res {
                Ok(m) => Ok::<Seq<char>, Seq<char>>(m@),
                Err(m) => Err(m@),
            };
            r matches CommandEffect::Reply { text } && text@ == reply_of(sr)
        }),
{
    match res {
        Ok(m) => CommandEffect::Reply { text: m },
        Err(m) => {
            let mut t = String::from_str("An error occured: \n");
            t.append(m.as_str());
            CommandEffect::Reply { text: t }
        },
    }
}

/// Reads the requested page out of a command's first argument.
fn page_arg(args: &Vec<String>) -> (r: usize)
    ensures
        r as nat == page_from_args(args.deep_view()),
{
    proof {
        assert(args.deep_view().len() == args@.len());
        if args@.len() >= 1 {
            assert(args.deep_view()[0] == args@[0]@);
        }
    }
    let p: u64 = if args.len() >= 1 {
        match parse_full_u64_exec(args[0].as_str()) {
            Some(p) => p,
            None => 1,
        }
    } else {
        1
    };
    let r: usize = if p > (usize::MAX as u64) {
        usize::MAX
    } else {
        p as usize
    };
    r
}

/// Runs one text command against a community's ledger and says what the
/// caller must do with the outcome.
///
/// The caller has already tokenized the message, dropped the trigger
/// word, and decided `is_admin` (see `is_admin_user`).  Administrative
/// commands from non-admins fall through to silence, as does an unknown
/// command.
pub fn handle_commands(
    entity: &mut LedgerEntity,
    cmd: &String,
    args: &Vec<String>,
    author_id: u64,
    is_admin: bool,
) -> (r: CommandEffect)
    requires
        old(entity)@.wf(),
    ensures
        final(entity)@.wf(),
        final(entity)@.tatered_messages == old(entity)@.tatered_messages,
        final(entity)@.taters_got == old(entity)@.taters_got,
        final(entity)@.taters_given == old(entity)@.taters_given,
        ({
            let a = args.deep_view();
            let pre = old(entity)@;
            let post = final(entity)@;
            if cmd@ == "help"@ {
                &&& post == pre
                &&& r matches CommandEffect::Reply { text } && text@ == help_message(is_admin)
            } else if cmd@ == "receivers"@ {
                &&& post == pre
                &&& r matches CommandEffect::Board { title, body, footer }
                    && crate::leaderboard::leaderboard_reply_ok(
                    pre,
                    crate::leaderboard::BoardMetric::Received,
                    page_from_args(a),
                    author_id,
                    title@,
                    body@,
                    footer@,
                )
            } else if cmd@ == "givers"@ {
                &&& post == pre
                &&& r matches CommandEffect::Board { title, body, footer }
                    && crate::leaderboard::leaderboard_reply_ok(
                    pre,
                    crate::leaderboard::BoardMetric::Given,
                    page_from_args(a),
                    author_id,
                    title@,
                    body@,
                    footer@,
                )
            } else if cmd@ == "csv"@ && is_admin {
                &&& post == pre
                &&& match generate_csv_spec(pre, a) {
                    Ok(data) => r matches CommandEffect::Csv { data: d } && d@ == data,
                    Err(m) => r matches CommandEffect::Reply { text } && text@ == reply_of(
                        Err(m),
                    ),
                }
            } else if cmd@ == "set_pin_channel"@ && is_admin {
                let (sr, cv2) = set_pin_channel_spec(pre.config, a);
                &&& post.config == cv2
                &&& r matches CommandEffect::Reply { text } && text@ == reply_of(sr)
            } else if cmd@ == "set_threshold"@ && is_admin {
                let (sr, cv2) = set_threshold_spec(pre.config, a);
                &&& post.config == cv2
                &&& r matches CommandEffect::Reply { text } && text@ == reply_of(sr)
            } else if cmd@ == "blacklist"@ && is_admin {
                let (sr, cv2) = blacklist_spec(pre.config, a);
                &&& post.config == cv2
                &&& r matches CommandEffect::Reply { text } && text@ == reply_of(sr)
            } else if cmd@ == "unblacklist"@ && is_admin {
                let (sr, cv2) = unblacklist_spec(pre.config, a);
                &&& post.config == cv2
                &&& r matches CommandEffect::Reply { text } && text@ == reply_of(sr)
            } else if cmd@ == "show_blacklist"@ && is_admin {
                &&& post == pre
                &&& if blacklist_lines(pre.config.blacklisted_channels).len() == 0 {
                    r is Quiet
                } else {
                    r matches CommandEffect::Reply { text } && text@ == blacklist_lines(
                        pre.config.blacklisted_channels,
                    )
                }
            } else if cmd@ == "set_potato"@ && is_admin {
                let (sr, cv2) = set_potato_spec(pre.config, a);
                &&& post.config == cv2
                &&& r matches CommandEffect::Reply { text } && text@ == reply_of(sr)
            } else if cmd@ == "admin"@ && is_admin {
                let (sr, cv2) = admin_spec(pre.config, a);
                &&& post.config == cv2
                &&& r matches CommandEffect::Reply { text } && text@ == reply_of(sr)
            } else if cmd@ == "unadmin"@ && is_admin {
                let (sr, cv2) = unadmin_spec(pre.config, a);
                &&& post.config == cv2
                &&& r matches CommandEffect::Reply { text } && text@ == reply_of(sr)
            } else if cmd@ == "list_admins"@ && is_admin {
                &&& post == pre
                &&& r matches CommandEffect::Reply { text } && text@ == list_admins_text(
                    pre.config.admins,
                )
            } else if cmd@ == "save"@ && is_admin {
                &&& post == pre
                &&& r is SaveCounters
            } else {
                &&& post == pre
                &&& r is Quiet
            }
        }),
{
    if str_eq(cmd.as_str(), "help") {
        CommandEffect::Reply { text: help_text(is_admin) }
    } else if str_eq(cmd.as_str(), "receivers") {
        let page = page_arg(args);
        let (title, body, footer) = crate::leaderboard::generate_leaderboard(
            entity,
            crate::leaderboard::BoardMetric::Received,
            page,
            author_id,
        );
        CommandEffect::Board { title, body, footer }
    } else if str_eq(cmd.as_str(), "givers") {
        let page = page_arg(args);
        let (title, body, footer) = crate::leaderboard::generate_leaderboard(
            entity,
            crate::leaderboard::BoardMetric::Given,
            page,
            author_id,
        );
        CommandEffect::Board { title, body, footer }
    } else if str_eq(cmd.as_str(), "csv") && is_admin {
        match generate_csv(args, entity) {
            Ok(data) => CommandEffect::Csv { data },
            Err(m) => effect_of(Err(m)),
        }
    } else if str_eq(cmd.as_str(), "set_pin_channel") && is_admin {
        effect_of(set_pin_channel(args, &mut entity.config))
    } else if str_eq(cmd.as_str(), "set_threshold") && is_admin {
        effect_of(set_threshold(args, &mut entity.config))
    } else if str_eq(cmd.as_str(), "blacklist") && is_admin {
        effect_of(blacklist(args, &mut entity.config))
    } else if str_eq(cmd.as_str(), "unblacklist") && is_admin {
        effect_of(unblacklist(args, &mut entity.config))
    } else if str_eq(cmd.as_str(), "show_blacklist") && is_admin {
        let text = show_blacklist(&entity.config);
        if text.as_str().unicode_len() == 0 {
            proof {
                assert(text@.len() == 0);
            }
            CommandEffect::Quiet
        } else {
            CommandEffect::Reply { text }
        }
    } else if str_eq(cmd.as_str(), "set_potato") && is_admin {
        effect_of(set_potato(args, &mut entity.config))
    } else if str_eq(cmd.as_str(), "admin") && is_admin {
        effect_of(admin(args, &mut entity.config))
    } else if str_eq(cmd.as_str(), "unadmin") && is_admin {
        effect_of(unadmin(args, &mut entity.config))
    } else if str_eq(cmd.as_str(), "list_admins") && is_admin {
        CommandEffect::Reply { text: list_admins(&entity.config) }
    } else if str_eq(cmd.as_str(), "save") && is_admin {
        CommandEffect::SaveCounters
    } else {
        CommandEffect::Quiet
    }
}

/// Runs one structured (slash) command: only the two leaderboards exist
/// there; anything else is unknown.
pub fn handle_slash_command(
    entity: &LedgerEntity,
    name: &String,
    page: Option<u64>,
    user_id: u64,
) -> (r: Result<(String, String, String), String>)
    ensures
        ({
            let page_num: nat = clamp_page(
                match page {
                    Some(p) => p as nat,
                    None => 1,
                },
            );
            if name@ == "receivers"@ {
                r is Ok && crate::leaderboard::leaderboard_reply_ok(
                    entity@,
                    crate::leaderboard::BoardMetric::Received,
                    page_num,
                    user_id,
                    r->Ok_0.0@,
                    r->Ok_0.1@,
                    r->Ok_0.2@,
                )
            } else if name@ == "givers"@ {
                r is Ok && crate::leaderboard::leaderboard_reply_ok(
                    entity@,
                    crate::leaderboard::BoardMetric::Given,
                    page_num,
                    user_id,
                    r->Ok_0.0@,
                    r->Ok_0.1@,
                    r->Ok_0.2@,
                )
            } else {
                r is Err && r->Err_0@ == "Unknown command"@
            }
        }),
{
    let metric = if str_eq(name.as_str(), "receivers") {
        crate::leaderboard::BoardMetric::Received
    } else if str_eq(name.as_str(), "givers") {
        crate::leaderboard::BoardMetric::Given
    } else {
        return Err(String::from_str("Unknown command"));
    };
    let p: u64 = match page {
        Some(p) => p,
        None => 1,
    };
    let requested: usize = if p > (usize::MAX as u64) {
        usize::MAX
    } else {
        p as usize
    };
    let (title, body, footer) = crate::leaderboard::generate_leaderboard(
        entity,
        metric,
        requested,
        user_id,
    );
    Ok((title, body, footer))
}

} // verus!
