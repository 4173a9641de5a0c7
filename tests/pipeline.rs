use ratingupdate::backfill::{backfill, pending_order, BACKFILL_LIMIT};
use ratingupdate::ingest::{ingest, RawMatch};
use ratingupdate::ranks::{decay_all, rebuild_ranks};
use ratingupdate::rating::{Skill, DEFAULT_DEVIATION, DEFAULT_VALUE};
use ratingupdate::store::{
    MatchKey, MatchRatings, MatchRow, NameEntry, Player, PlayerRating, RankRow, Status,
};

/// 2024-03-01 12:00:00 UTC.
const MARCH_FIRST_NOON: i64 = 1_709_294_400;

fn raw(ts: &str, id_a: i64, id_b: i64, winner: i16) -> RawMatch {
    RawMatch {
        timestamp: ts.to_string(),
        id_a,
        name_a: format!("player{}", id_a),
        char_a: 3,
        platform_a: 1,
        id_b,
        name_b: format!("player{}", id_b),
        char_b: 5,
        platform_b: 1,
        winner,
        floor: 99,
    }
}

fn rating(id: i64, char_id: i16, value: i64, deviation: i64) -> PlayerRating {
    PlayerRating { id, char_id, skill: Skill { value, deviation }, wins: 0, losses: 0, last_decay: 0 }
}

fn player(id: i64, status: Status) -> Player {
    Player { id, name: format!("p{}", id), platform: 1, status, api_key: None, rcode_check_code: None }
}

fn pending_row(ts: i64, corrected: Option<i64>, id_a: i64) -> MatchRow {
    MatchRow {
        key: MatchKey { timestamp: ts, id_a, char_a: 0, platform_a: 1, id_b: 99, char_b: 0, platform_b: 1 },
        winner: 1,
        floor: 1,
        corrected,
        ratings: None,
    }
}

#[test]
fn end_to_end_two_new_players() {
    let now = MARCH_FIRST_NOON;
    let mut ms: Vec<MatchRow> = Vec::new();
    let mut ps: Vec<Player> = Vec::new();
    let mut ns: Vec<NameEntry> = Vec::new();
    let mut rs: Vec<PlayerRating> = Vec::new();
    let batch = vec![raw("2024-03-01 11:59:00", 1, 2, 1)];
    let report = ingest(&mut ms, &mut ps, &mut ns, &batch, now);
    assert_eq!(report.inserted, 1);
    assert_eq!(report.latest, Some(now - 60));
    assert_eq!(ps.len(), 2);
    assert!(ps.iter().all(|p| p.status == Status::Public));
    assert_eq!(ns.len(), 2);
    let order = backfill(&mut ms, &mut rs, &ps, BACKFILL_LIMIT);
    assert_eq!(order, vec![0]);
    let a = rs.iter().find(|r| r.id == 1 && r.char_id == 3).unwrap();
    let b = rs.iter().find(|r| r.id == 2 && r.char_id == 5).unwrap();
    assert!(a.skill.value > DEFAULT_VALUE);
    assert!(a.skill.deviation < DEFAULT_DEVIATION);
    assert!(b.skill.value < DEFAULT_VALUE);
    assert!(b.skill.deviation < DEFAULT_DEVIATION);
    assert_eq!(
        ms[0].ratings,
        Some(MatchRatings {
            value_a: DEFAULT_VALUE,
            deviation_a: DEFAULT_DEVIATION,
            value_b: DEFAULT_VALUE,
            deviation_b: DEFAULT_DEVIATION,
            win_chance_ppm: 500_000,
        })
    );
    assert_eq!(a.last_decay, now - 60);
}

#[test]
fn hidden_player_match_gets_zero_fields() {
    let now = MARCH_FIRST_NOON;
    let mut ms: Vec<MatchRow> = Vec::new();
    let mut ps: Vec<Player> = Vec::new();
    let mut ns: Vec<NameEntry> = Vec::new();
    let mut rs: Vec<PlayerRating> = Vec::new();
    ingest(&mut ms, &mut ps, &mut ns, &vec![raw("2024-03-01 11:59:00", 1, 2, 1)], now);
    for p in ps.iter_mut() {
        if p.id == 2 {
            p.status = Status::Private;
        }
    }
    backfill(&mut ms, &mut rs, &ps, BACKFILL_LIMIT);
    assert!(rs.is_empty());
    assert_eq!(
        ms[0].ratings,
        Some(MatchRatings { value_a: 0, deviation_a: 0, value_b: 0, deviation_b: 0, win_chance_ppm: 0 })
    );
    // A second pass finds nothing left to rate.
    assert!(backfill(&mut ms, &mut rs, &ps, BACKFILL_LIMIT).is_empty());
}

#[test]
fn reingesting_a_batch_adds_nothing() {
    let now = MARCH_FIRST_NOON;
    let mut ms: Vec<MatchRow> = Vec::new();
    let mut ps: Vec<Player> = Vec::new();
    let mut ns: Vec<NameEntry> = Vec::new();
    let batch = vec![
        raw("2030-01-01 00:00:00", 7, 8, 2),
        raw("2024-03-01 11:58:00", 1, 2, 1),
        raw("2024-03-01 11:57:00", 3, 4, 2),
    ];
    let first = ingest(&mut ms, &mut ps, &mut ns, &batch, now);
    assert_eq!(first.inserted, 3);
    let before = ms.clone();
    let overlapping = vec![raw("2024-03-01 11:59:30", 5, 6, 1), raw("2030-01-01 00:00:00", 7, 8, 2)];
    let second = ingest(&mut ms, &mut ps, &mut ns, &batch, now + 100);
    assert_eq!(second.inserted, 0);
    assert_eq!(second.latest, None);
    assert_eq!(ms, before);
    let third = ingest(&mut ms, &mut ps, &mut ns, &overlapping, now + 200);
    assert_eq!(third.inserted, 1);
    assert_eq!(&ms[..3], &before[..]);
    assert_eq!(ns.len(), 8);
    assert_eq!(ps.len(), 8);
}

#[test]
fn future_records_get_increasing_corrections() {
    let now = MARCH_FIRST_NOON;
    let mut ms: Vec<MatchRow> = Vec::new();
    let mut ps: Vec<Player> = Vec::new();
    let mut ns: Vec<NameEntry> = Vec::new();
    // Newest first, as the source hands it over.
    let batch = vec![
        raw("2030-01-01 00:00:03", 5, 6, 1),
        raw("2024-03-01 12:00:02", 9, 10, 1),
        raw("2030-01-01 00:00:02", 3, 4, 1),
        raw("2030-01-01 00:00:01", 1, 2, 1),
    ];
    let report = ingest(&mut ms, &mut ps, &mut ns, &batch, now);
    assert_eq!(report.inserted, 4);
    assert_eq!(ms[0].corrected, Some(now));
    assert_eq!(ms[1].corrected, Some(now + 1));
    // Within the two-second tolerance: kept as it is.
    assert_eq!(ms[2].corrected, None);
    assert_eq!(ms[3].corrected, Some(now + 2));
    assert_eq!(report.latest, Some(now + 2));
}

#[test]
fn unparsable_record_is_skipped() {
    let now = MARCH_FIRST_NOON;
    let mut ms: Vec<MatchRow> = Vec::new();
    let mut ps: Vec<Player> = Vec::new();
    let mut ns: Vec<NameEntry> = Vec::new();
    let batch = vec![raw("garbage", 1, 2, 1), raw("2024-03-01 11:00:00", 3, 4, 1)];
    let report = ingest(&mut ms, &mut ps, &mut ns, &batch, now);
    assert_eq!(report.inserted, 1);
    assert_eq!(ms[0].key.id_a, 3);
    assert_eq!(ps.len(), 2);
}

#[test]
fn pending_order_uses_effective_time_and_limit() {
    let mut ms = vec![
        pending_row(500, None, 1),
        pending_row(900, Some(100), 2),
        pending_row(300, None, 3),
        pending_row(300, None, 4),
    ];
    ms[2].ratings = Some(MatchRatings { value_a: 0, deviation_a: 0, value_b: 0, deviation_b: 0, win_chance_ppm: 0 });
    let ps: Vec<Player> = [1, 2, 3, 4, 99].iter().map(|&id| player(id, Status::Public)).collect();
    assert_eq!(pending_order(&ms, &ps, 10), vec![1, 3, 0]);
    assert_eq!(pending_order(&ms, &ps, 2), vec![1, 3]);
    assert_eq!(pending_order(&ms, &ps, 0), Vec::<usize>::new());
}

#[test]
fn matches_of_unknown_players_are_left_alone() {
    let mut ms = vec![pending_row(500, None, 1), pending_row(400, None, 7)];
    let ps: Vec<Player> = [1, 99].iter().map(|&id| player(id, Status::Public)).collect();
    assert_eq!(pending_order(&ms, &ps, 10), vec![0]);
    let mut rs: Vec<PlayerRating> = Vec::new();
    assert_eq!(backfill(&mut ms, &mut rs, &ps, BACKFILL_LIMIT), vec![0]);
    assert!(ms[0].ratings.is_some());
    assert_eq!(ms[1].ratings, None);
}

#[test]
fn upsert_keeps_status_and_credentials() {
    let now = MARCH_FIRST_NOON;
    let mut ms: Vec<MatchRow> = Vec::new();
    let mut ps: Vec<Player> = vec![Player {
        id: 1,
        name: "old".to_string(),
        platform: 2,
        status: Status::Private,
        api_key: Some("key".to_string()),
        rcode_check_code: Some("code".to_string()),
    }];
    let mut ns: Vec<NameEntry> = Vec::new();
    ingest(&mut ms, &mut ps, &mut ns, &vec![raw("2024-03-01 11:59:00", 1, 2, 1)], now);
    assert_eq!(ps.len(), 2);
    assert_eq!(ps[0].name, "player1");
    assert_eq!(ps[0].platform, 1);
    assert_eq!(ps[0].status, Status::Private);
    assert_eq!(ps[0].api_key, Some("key".to_string()));
    assert_eq!(ps[0].rcode_check_code, Some("code".to_string()));
    assert_eq!(ps[1].status, Status::Public);
    assert_eq!(ps[1].api_key, None);
    assert_eq!(ps[1].rcode_check_code, None);
}

#[test]
fn leaderboard_filters_and_orders() {
    let ps = vec![player(1, Status::Public), player(2, Status::Public), player(3, Status::Private), player(4, Status::Public)];
    let rs = vec![
        rating(1, 0, 1_700_000, 20_000),
        rating(2, 0, 1_900_000, 29_999),
        rating(3, 0, 2_500_000, 10_000),
        rating(4, 0, 2_000_000, 30_000),
        rating(1, 1, 1_800_000, 25_000),
        rating(5, 0, 2_100_000, 10_000),
    ];
    let global = rebuild_ranks(&rs, &ps, None);
    assert_eq!(
        global,
        vec![
            RankRow { rank: 1, id: 2, char_id: 0 },
            RankRow { rank: 2, id: 1, char_id: 1 },
            RankRow { rank: 3, id: 1, char_id: 0 },
        ]
    );
    let per_char = rebuild_ranks(&rs, &ps, Some(0));
    assert_eq!(per_char, vec![RankRow { rank: 1, id: 2, char_id: 0 }, RankRow { rank: 2, id: 1, char_id: 0 }]);
}

#[test]
fn leaderboard_is_capped() {
    let ps = vec![player(1, Status::Public)];
    let rs: Vec<PlayerRating> = (0..1200).map(|c| rating(1, c as i16, 1_000_000 + c, 10_000)).collect();
    let board = rebuild_ranks(&rs, &ps, None);
    assert_eq!(board.len(), 1000);
    assert_eq!(board[0], RankRow { rank: 1, id: 1, char_id: 1199 });
    assert_eq!(board[999], RankRow { rank: 1000, id: 1, char_id: 200 });
}

#[test]
fn decay_touches_only_ratings_below_ceiling() {
    let mut rs = vec![rating(1, 0, 1_500_000, 100_000), rating(2, 0, 1_500_000, 250_000)];
    decay_all(&mut rs, 4242);
    assert_eq!(rs[0].skill.deviation, 100_310);
    assert_eq!(rs[0].last_decay, 4242);
    assert_eq!(rs[1].skill.deviation, 250_000);
    assert_eq!(rs[1].last_decay, 0);
}
