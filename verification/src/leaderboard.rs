//! Ranked, paginated leaderboards over either per-user counter map.

use vstd::prelude::*;

use vstd::seq_lib::{to_multiset_build, to_multiset_insert};

use crate::ledger::LedgerEntity;
use crate::maps::CountMap;
use crate::text::{chars_to_string, dec_digits, push_dec, push_str_chars};

verus! {

/// Which counter a leaderboard ranks.
#[derive(Clone, Copy, Debug, PartialEq, Eq, Structural)]
pub enum BoardMetric {
    /// Votes a user's messages received.
    Received,
    /// Votes a user handed out.
    Given,
}

/// Entries run from the highest count down.
pub open spec fn sorted_desc(s: Seq<(u64, u64)>) -> bool {
    forall|i: int, j: int| 0 <= i < j < s.len() ==> (#[trigger] s[i]).1 >= (#[trigger] s[j]).1
}

/// Entries per leaderboard page.
pub open spec fn spec_page_size() -> nat {
    10
}

/// Number of pages a map of `len` entries fills: at least one, then one
/// per ten entries rounded up.
pub open spec fn spec_total_pages(len: nat) -> nat {
    if len == 0 {
        1
    } else {
        ((len + 9) / 10) as nat
    }
}

/// The page actually shown for a request: clamped into range.
pub open spec fn spec_clamped_page(requested: nat, len: nat) -> nat {
    let total = spec_total_pages(len);
    if requested < 1 {
        1
    } else if requested > total {
        total
    } else {
        requested
    }
}

/// Sorts a counter map's entries by count, highest first.  Ties keep no
/// promised order; the result is a permutation of the map's entries.
pub fn sorted_scores(map: &CountMap) -> (r: Vec<(u64, u64)>)
    ensures
        sorted_desc(r@),
        r@.to_multiset() == map@.to_multiset(),
        r@.len() == map@.len(),
{
    let ghost s = map@;
    let mut out: Vec<(u64, u64)> = Vec::new();
    proof {
        assert(out@ =~= s.subrange(0, 0));
    }
    let mut i: usize = 0;
    while i < map.entries.len()
        invariant
            s == map@,
            i <= s.len(),
            sorted_desc(out@),
            out@.to_multiset() == s.subrange(0, i as int).to_multiset(),
            out@.len() == i,
        decreases s.len() - i,
    {
        let e = map.entries[i];
        let ghost pre = out@;
        // Find the first slot whose count falls below the new entry's.
        let mut j: usize = 0;
        while j < out.len() && out[j].1 >= e.1
            invariant
                j <= out@.len(),
                out@ == pre,
                forall|k: int| 0 <= k < j ==> (#[trigger] out@[k]).1 >= e.1,
            decreases out@.len() - j,
        {
            j = j + 1;
        }
        proof {
            if j < pre.len() {
                assert(pre[j as int].1 < e.1);
            }
        }
        out.insert(j, e);
        proof {
            assert forall|a: int, b: int| 0 <= a < b < out@.len() implies (#[trigger] out@[a]).1
                >= (#[trigger] out@[b]).1 by {
                pre.insert_ensures(j as int, e);
                if a < j && b == j {
                    assert(out@[a] == pre[a]);
                } else if a == j && b > j {
                    assert(out@[b] == pre[b - 1]);
                    assert(sorted_desc(pre));
                    if b - 1 > j {
                        assert(pre[j as int].1 >= pre[b - 1].1);
                    }
                } else if a < j && b > j {
                    assert(out@[a] == pre[a]);
                    assert(out@[b] == pre[b - 1]);
                } else if a > j && b > j {
                    assert(out@[a] == pre[a - 1]);
                    assert(out@[b] == pre[b - 1]);
                } else {
                    assert(out@[a] == pre[a]);
                    assert(out@[b] == pre[b]);
                }
            }
            to_multiset_insert(pre, j as int, e);
            assert(s.subrange(0, i + 1).drop_last() =~= s.subrange(0, i as int));
            assert(s.subrange(0, i + 1).last() == s[i as int]);
            to_multiset_build(s.subrange(0, i as int), s[i as int]);
            assert(s.subrange(0, i + 1) =~= s.subrange(0, i as int).push(s[i as int]));
        }
        i = i + 1;
    }
    proof {
        assert(s.subrange(0, s.len() as int) =~= s);
    }
    out
}

/// Page arithmetic: how many pages there are, which page a request lands
/// on, and the window of sorted entries that page shows.
pub fn page_window(len: usize, requested: usize) -> (r: (usize, usize, usize, usize))
    ensures
        r.0 == spec_clamped_page(requested as nat, len as nat),
        r.1 == spec_total_pages(len as nat),
        r.2 == (r.0 - 1) * spec_page_size(),
        r.3 == if r.2 + spec_page_size() <= len {
            r.2 + spec_page_size()
        } else {
            len as int
        },
        r.2 <= r.3 <= len,
{
    let total: usize = if len == 0 {
        1
    } else {
        (len - 1) / 10 + 1
    };
    let page: usize = if requested < 1 {
        1
    } else if requested > total {
        total
    } else {
        requested
    };
    proof {
        assert(len > 0 ==> (len - 1) / 10 + 1 == (len + 9) / 10);
        assert(page >= 1);
        assert(page <= total);
        assert(len > 0 ==> (total - 1) * 10 <= len - 1) by (nonlinear_arith)
            requires
                len > 0 ==> total == (len + 9) / 10,
        ;
        assert((page - 1) * 10 <= (total - 1) * 10) by (nonlinear_arith)
            requires
                1 <= page <= total,
        ;
    }
    let start: usize = (page - 1) * 10;
    proof {
        assert(start <= len);
    }
    let end: usize = if len - start >= 10 {
        start + 10
    } else {
        len
    };
    (page, total, start, end)
}

/// First position holding the requester, if any, in the sorted scores.
pub fn find_rank(scores: &Vec<(u64, u64)>, user_id: u64) -> (r: Option<(usize, u64)>)
    ensures
        match r {
            Some((i, c)) => i < scores@.len() && scores@[i as int] == (user_id, c) && forall|j: int|
                0 <= j < i ==> (#[trigger] scores@[j]).0 != user_id,
            None => forall|j: int| 0 <= j < scores@.len() ==> (#[trigger] scores@[j]).0 != user_id,
        },
{
    let mut i: usize = 0;
    while i < scores.len()
        invariant
            i <= scores@.len(),
            forall|j: int| 0 <= j < i ==> (#[trigger] scores@[j]).0 != user_id,
        decreases scores@.len() - i,
    {
        if scores[i].0 == user_id {
            return Some((i, scores[i].1));
        }
        i = i + 1;
    }
    None
}

/// The verb a leaderboard speaks of.
pub open spec fn verb_text(metric: BoardMetric) -> Seq<char> {
    match metric {
        BoardMetric::Received => "received"@,
        BoardMetric::Given => "given"@,
    }
}

/// A leaderboard's title line.
pub open spec fn title_text(metric: BoardMetric) -> Seq<char> {
    "Leaderboard - Taters "@ + verb_text(metric)
}

/// A user mention in the chat platform's notation.
pub open spec fn mention_text(user_id: u64) -> Seq<char> {
    "<@"@ + dec_digits(user_id as nat) + ">"@
}

/// The decorative marker a rank carries: the top three each have their
/// own, every later rank shares one.
pub open spec fn rank_marker(rank: nat) -> Seq<char> {
    if rank == 1 {
        "\u{1f947}"@
    } else if rank == 2 {
        "\u{1f948}"@
    } else if rank == 3 {
        "\u{1f949}"@
    } else {
        "\u{25aa}"@
    }
}

/// One leaderboard body line.
pub open spec fn board_line_text(metric: BoardMetric, rank: nat, user_id: u64, count: u64) -> Seq<
    char,
> {
    rank_marker(rank) + " "@ + dec_digits(rank) + ": "@ + mention_text(user_id) + " has "@
        + verb_text(metric) + " "@ + dec_digits(count as nat) + "x taters\n"@
}

/// A leaderboard body: one line per entry, ranks counting up from
/// `first_rank`.
pub open spec fn board_body_text(metric: BoardMetric, entries: Seq<(u64, u64)>, first_rank: nat) -> Seq<
    char,
>
    decreases entries.len(),
{
    if entries.len() == 0 {
        Seq::<char>::empty()
    } else {
        board_body_text(metric, entries.drop_last(), first_rank) + board_line_text(
            metric,
            (first_rank + entries.len() - 1) as nat,
            entries.last().0,
            entries.last().1,
        )
    }
}

/// The footer: the requester's own standing and the page position.
pub open spec fn footer_text(
    place: Option<(nat, u64)>,
    len: nat,
    emoji: Seq<char>,
    page: nat,
    total: nat,
) -> Seq<char> {
    let place_digits = match place {
        Some((rank, _)) => dec_digits(rank),
        None => "?"@,
    };
    let score_digits = match place {
        Some((_, score)) => dec_digits(score as nat),
        None => "?"@,
    };
    "Your place: #"@ + place_digits + "/"@ + dec_digits(len) + " with "@ + score_digits + "x "@
        + emoji + " | Page "@ + dec_digits(page) + "/"@ + dec_digits(total)
}

/// Renders the marker for a rank.
fn push_rank_marker(out: &mut Vec<char>, rank: usize)
    requires
        rank >= 1,
    ensures
        final(out)@ == old(out)@ + rank_marker(rank as nat),
{
    if rank == 1 {
        push_str_chars(out, "\u{1f947}");
    } else if rank == 2 {
        push_str_chars(out, "\u{1f948}");
    } else if rank == 3 {
        push_str_chars(out, "\u{1f949}");
    } else {
        push_str_chars(out, "\u{25aa}");
    }
}

/// Renders one window of sorted scores as leaderboard body lines.
#[verifier::rlimit(100)]
pub fn render_board_body(
    metric: BoardMetric,
    scores: &Vec<(u64, u64)>,
    start: usize,
    end: usize,
) -> (s: String)
    requires
        start <= end <= scores@.len(),
    ensures
        s@ == board_body_text(metric, scores@.subrange(start as int, end as int), start as nat + 1),
{
    let mut out: Vec<char> = Vec::new();
    let mut i: usize = start;
    while i < end
        invariant
            start <= i <= end <= scores@.len(),
            out@ == board_body_text(
                metric,
                scores@.subrange(start as int, i as int),
                start as nat + 1,
            ),
        decreases end - i,
    {
        let rank = i + 1;
        push_rank_marker(&mut out, rank);
        push_str_chars(&mut out, " ");
        push_dec(&mut out, rank as u64);
        push_str_chars(&mut out, ": ");
        push_str_chars(&mut out, "<@");
        push_dec(&mut out, scores[i].0);
        push_str_chars(&mut out, ">");
        push_str_chars(&mut out, " has ");
        match metric {
            BoardMetric::Received => push_str_chars(&mut out, "received"),
            BoardMetric::Given => push_str_chars(&mut out, "given"),
        }
        push_str_chars(&mut out, " ");
        push_dec(&mut out, scores[i].1);
        push_str_chars(&mut out, "x taters\n");
        proof {
            let w = scores@.subrange(start as int, i + 1);
            assert(w.drop_last() =~= scores@.subrange(start as int, i as int));
            assert(w.last() == scores@[i as int]);
            assert(out@ =~= board_body_text(metric, w, start as nat + 1));
        }
        i = i + 1;
    }
    chars_to_string(&out)
}

/// Renders the footer for a leaderboard reply.
pub fn render_board_footer(
    place: Option<(usize, u64)>,
    len: usize,
    emoji: &String,
    page: usize,
    total: usize,
) -> (s: String)
    ensures
        s@ == footer_text(
            match place {
                Some((rank, score)) => Some((rank as nat, score)),
                None => None,
            },
            len as nat,
            emoji@,
            page as nat,
            total as nat,
        ),
{
    let mut out: Vec<char> = Vec::new();
    push_str_chars(&mut out, "Your place: #");
    match place {
        Some((rank, _)) => push_dec(&mut out, rank as u64),
        None => push_str_chars(&mut out, "?"),
    }
    push_str_chars(&mut out, "/");
    push_dec(&mut out, len as u64);
    push_str_chars(&mut out, " with ");
    match place {
        Some((_, score)) => push_dec(&mut out, score),
        None => push_str_chars(&mut out, "?"),
    }
    push_str_chars(&mut out, "x ");
    push_str_chars(&mut out, emoji.as_str());
    push_str_chars(&mut out, " | Page ");
    push_dec(&mut out, page as u64);
    push_str_chars(&mut out, "/");
    push_dec(&mut out, total as u64);
    proof {
        assert(out@ =~= footer_text(
            match place {
                Some((rank, score)) => Some((rank as nat, score)),
                None => None,
            },
            len as nat,
            emoji@,
            page as nat,
            total as nat,
        ));
    }
    chars_to_string(&out)
}

/// What a correct leaderboard reply looks like: some descending
/// reordering of the chosen counter map (ties carry no promised order),
/// windowed to the clamped page, with the requester's standing in that
/// same ordering reported in the footer.
pub open spec fn leaderboard_reply_ok(
    lv: crate::ledger::LedgerView,
    metric: BoardMetric,
    page_num: nat,
    user_id: u64,
    title: Seq<char>,
    body: Seq<char>,
    footer: Seq<char>,
) -> bool {
    let len = (match metric {
        BoardMetric::Received => lv.taters_got,
        BoardMetric::Given => lv.taters_given,
    }).len();
    let page = spec_clamped_page(page_num, len);
    let total = spec_total_pages(len);
    exists|sorted: Seq<(u64, u64)>|
        {
            &&& #[trigger] sorted_desc(sorted)
            &&& sorted.to_multiset() == (match metric {
                BoardMetric::Received => lv.taters_got,
                BoardMetric::Given => lv.taters_given,
            }).to_multiset()
            &&& sorted.len() == len
            &&& ({
                let start = (page - 1) * spec_page_size();
                let end = if start + spec_page_size() <= len {
                    (start + spec_page_size()) as int
                } else {
                    len as int
                };
                let place = if (exists|j: int|
                    0 <= j < sorted.len() && (#[trigger] sorted[j]).0 == user_id) {
                    let j = choose|j: int|
                        0 <= j < sorted.len() && (#[trigger] sorted[j]).0 == user_id && forall|
                            k: int,
                        |
                            0 <= k < j ==> (#[trigger] sorted[k]).0 != user_id;
                    Some(((j + 1) as nat, sorted[j].1))
                } else {
                    None
                };
                &&& title == title_text(metric)
                &&& body == board_body_text(
                    metric,
                    sorted.subrange(start as int, end),
                    (start + 1) as nat,
                )
                &&& footer == footer_text(place, len, lv.config.tater_emoji, page, total)
            })
        }
}

/// Builds a whole leaderboard reply: title, ranked body window, footer.
pub fn generate_leaderboard(
    entity: &LedgerEntity,
    metric: BoardMetric,
    page_num: usize,
    user_id: u64,
) -> (r: (String, String, String))
    ensures
        leaderboard_reply_ok(entity@, metric, page_num as nat, user_id, r.0@, r.1@, r.2@),
{
    let map = match metric {
        BoardMetric::Received => &entity.taters_got,
        BoardMetric::Given => &entity.taters_given,
    };
    let scores = sorted_scores(map);
    let (page, total, start, end) = page_window(scores.len(), page_num);
    let mut title = String::from_str("Leaderboard - Taters ");
    match metric {
        BoardMetric::Received => title.append("received"),
        BoardMetric::Given => title.append("given"),
    }
    let body = render_board_body(metric, &scores, start, end);
    let rank_hit = find_rank(&scores, user_id);
    let place = match rank_hit {
        Some((i, c)) => Some((i + 1, c)),
        None => None,
    };
    let footer = render_board_footer(place, scores.len(), &entity.config.tater_emoji, page, total);
    proof {
        let sorted = scores@;
        let len = sorted.len();
        match rank_hit {
            Some((i, c)) => {
                assert(0 <= i < sorted.len() && sorted[i as int].0 == user_id);
                let j = choose|j: int|
                    0 <= j < sorted.len() && (#[trigger] sorted[j]).0 == user_id && forall|k: int|
                        0 <= k < j ==> (#[trigger] sorted[k]).0 != user_id;
                assert(j == i as int);
            },
            None => {},
        }
    }
    (title, body, footer)
}

} // verus!
