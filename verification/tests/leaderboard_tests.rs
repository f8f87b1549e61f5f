use taterboard::ledger::LedgerEntity;
use taterboard::leaderboard::{
    find_rank, generate_leaderboard, page_window, sorted_scores, BoardMetric,
};
use taterboard::maps::CountMap;

fn map_of(pairs: &[(u64, u64)]) -> CountMap {
    CountMap { entries: pairs.to_vec() }
}

#[test]
fn pagination_of_twenty_five_users() {
    // Twenty-five users with distinct counts 1..=25.
    let mut pairs: Vec<(u64, u64)> = Vec::new();
    for u in 1..=25u64 {
        pairs.push((u, u));
    }
    let map = map_of(&pairs);
    let scores = sorted_scores(&map);

    let (page, total, start, end) = page_window(scores.len(), 1);
    assert_eq!(total, 3);
    assert_eq!(page, 1);
    let first_page: Vec<(u64, u64)> = scores[start..end].to_vec();
    let want: Vec<(u64, u64)> = (16..=25u64).rev().map(|u| (u, u)).collect();
    assert_eq!(first_page, want);

    let (page, _, start, end) = page_window(scores.len(), 3);
    assert_eq!(page, 3);
    let third_page: Vec<(u64, u64)> = scores[start..end].to_vec();
    let want: Vec<(u64, u64)> = (1..=5u64).rev().map(|u| (u, u)).collect();
    assert_eq!(third_page, want);
    assert_eq!(third_page.len(), 5);

    // A page number past the end clamps to the last page.
    let (page, total, start, end) = page_window(scores.len(), 4);
    assert_eq!(page, 3);
    assert_eq!(total, 3);
    assert_eq!(&scores[start..end], &third_page[..]);
}

#[test]
fn sorting_is_descending_by_count() {
    let map = map_of(&[(1, 3), (2, 9), (3, 1), (4, 9)]);
    let scores = sorted_scores(&map);
    let counts: Vec<u64> = scores.iter().map(|p| p.1).collect();
    assert_eq!(counts, vec![9, 9, 3, 1]);
    let mut users: Vec<u64> = scores.iter().map(|p| p.0).collect();
    users.sort();
    assert_eq!(users, vec![1, 2, 3, 4]);
}

#[test]
fn empty_map_has_one_page() {
    let (page, total, start, end) = page_window(0, 1);
    assert_eq!((page, total, start, end), (1, 1, 0, 0));
    let (page, total, _, _) = page_window(0, 9);
    assert_eq!((page, total), (1, 1));
}

#[test]
fn page_zero_clamps_to_one() {
    let (page, total, start, end) = page_window(12, 0);
    assert_eq!((page, total, start, end), (1, 2, 0, 10));
}

#[test]
fn find_rank_reports_first_match_or_nothing() {
    let scores = vec![(5u64, 9u64), (6, 7), (7, 1)];
    assert_eq!(find_rank(&scores, 6), Some((1, 7)));
    assert_eq!(find_rank(&scores, 9), None);
}

#[test]
fn leaderboard_reply_for_a_small_board() {
    let mut entity = LedgerEntity::new();
    entity.taters_got = map_of(&[(11, 5), (12, 9)]);
    let (title, body, footer) = generate_leaderboard(&entity, BoardMetric::Received, 1, 11);
    assert_eq!(title, "Leaderboard - Taters received");
    assert_eq!(
        body,
        "\u{1f947} 1: <@12> has received 9x taters\n\u{1f948} 2: <@11> has received 5x taters\n"
    );
    assert_eq!(
        footer,
        "Your place: #2/2 with 5x <:tinypotato:735938441505931286> | Page 1/1"
    );
}

#[test]
fn leaderboard_footer_shows_question_marks_for_strangers() {
    let entity = LedgerEntity::new();
    let (title, body, footer) = generate_leaderboard(&entity, BoardMetric::Given, 1, 42);
    assert_eq!(title, "Leaderboard - Taters given");
    assert_eq!(body, "");
    assert_eq!(
        footer,
        "Your place: #?/0 with ?x <:tinypotato:735938441505931286> | Page 1/1"
    );
}

#[test]
fn generic_marker_beyond_third_rank() {
    let mut entity = LedgerEntity::new();
    entity.taters_given = map_of(&[(1, 9), (2, 8), (3, 7), (4, 6)]);
    let (_, body, _) = generate_leaderboard(&entity, BoardMetric::Given, 1, 1);
    let lines: Vec<&str> = body.lines().collect();
    assert_eq!(lines.len(), 4);
    assert!(lines[0].starts_with("\u{1f947} 1:"));
    assert!(lines[1].starts_with("\u{1f948} 2:"));
    assert!(lines[2].starts_with("\u{1f949} 3:"));
    assert!(lines[3].starts_with("\u{25aa} 4:"));
    assert!(lines[0].contains("has given"));
}
