use ratingupdate::ingest::RawMatch;
use ratingupdate::jobs::Store;
use ratingupdate::reports::{
    floor_distribution, matchup_table, popularity, rating_distribution, FloorCount, Matchup, Popularity,
    HIGH_LEVEL_VALUE,
};
use ratingupdate::stats::{count_matches_since, count_players_since, game_stats, ONE_DAY, ONE_HOUR};
use ratingupdate::rating::Skill;
use ratingupdate::store::{MatchKey, MatchRatings, MatchRow, PlayerRating, RankRow, Status};

/// 2024-03-01 12:00:00 UTC.
const MARCH_FIRST_NOON: i64 = 1_709_294_400;

fn row(ts: i64, id_a: i64, char_a: i16, id_b: i64, char_b: i16, winner: i16, dev: i64, value: i64) -> MatchRow {
    MatchRow {
        key: MatchKey { timestamp: ts, id_a, char_a, platform_a: 1, id_b, char_b, platform_b: 1 },
        winner,
        floor: 1,
        corrected: None,
        ratings: Some(MatchRatings { value_a: value, deviation_a: dev, value_b: value, deviation_b: dev, win_chance_ppm: 500_000 }),
    }
}

fn rating(value: i64, deviation: i64) -> PlayerRating {
    PlayerRating { id: 1, char_id: 0, skill: Skill { value, deviation }, wins: 0, losses: 0, last_decay: 0 }
}

#[test]
fn stats_count_windows_and_distinct_players() {
    let now = 1_000_000;
    let ms = vec![
        row(now - 10, 1, 0, 2, 0, 1, 10_000, 1_500_000),
        row(now - 2 * ONE_HOUR, 1, 0, 3, 0, 1, 10_000, 1_500_000),
        row(now - 2 * ONE_DAY, 4, 0, 5, 0, 1, 10_000, 1_500_000),
    ];
    assert_eq!(count_matches_since(&ms, now - ONE_HOUR), 1);
    assert_eq!(count_players_since(&ms, now - ONE_DAY), 3);
    let s = game_stats(&ms, 9, now);
    assert_eq!(s.total_games, 3);
    assert_eq!(s.one_hour_games, 1);
    assert_eq!(s.one_day_games, 2);
    assert_eq!(s.one_week_games, 3);
    assert_eq!(s.one_month_games, 3);
    assert_eq!(s.total_players, 9);
    assert_eq!(s.one_hour_players, 2);
    assert_eq!(s.one_day_players, 3);
    assert_eq!(s.one_week_players, 5);
}

#[test]
fn matchup_table_counts_both_sides() {
    let ms = vec![
        row(100, 1, 0, 2, 1, 1, 10_000, 1_800_000),
        row(101, 3, 1, 4, 0, 1, 10_000, 1_600_000),
        row(102, 5, 0, 6, 2, 2, 10_000, 1_800_000),
        row(103, 5, 0, 6, 2, 2, 40_000, 1_800_000),
        row(10, 5, 0, 6, 2, 2, 10_000, 1_800_000),
    ];
    let table = matchup_table(&ms, 0, 3, 50, None);
    assert_eq!(
        table,
        vec![
            Matchup { opponent_char: 1, wins: 1, total_games: 2 },
            Matchup { opponent_char: 2, wins: 0, total_games: 1 },
        ]
    );
    let high = matchup_table(&ms, 0, 3, 50, Some(HIGH_LEVEL_VALUE));
    assert_eq!(
        high,
        vec![
            Matchup { opponent_char: 1, wins: 1, total_games: 1 },
            Matchup { opponent_char: 2, wins: 0, total_games: 1 },
        ]
    );
}

#[test]
fn popularity_counts_players_and_appearances() {
    let ms = vec![
        row(100, 1, 0, 2, 0, 1, 10_000, 1_500_000),
        row(101, 1, 0, 3, 1, 1, 10_000, 1_500_000),
        row(1, 7, 0, 8, 0, 1, 10_000, 1_500_000),
    ];
    assert_eq!(popularity(&ms, 0, 50), Popularity { players: 2, appearances: 3 });
    assert_eq!(popularity(&ms, 1, 50), Popularity { players: 1, appearances: 1 });
    assert_eq!(popularity(&ms, 2, 50), Popularity { players: 0, appearances: 0 });
}

#[test]
fn distribution_buckets_confident_ratings() {
    let rs = vec![
        rating(-500_000, 10_000),
        rating(1_499_999, 10_000),
        rating(1_400_000, 10_000),
        rating(1_450_000, 40_000),
        rating(2_599_999, 10_000),
        rating(2_600_000, 10_000),
    ];
    let d = rating_distribution(&rs);
    assert_eq!(d.len(), 31);
    assert_eq!(d[0], 1);
    assert_eq!(d[19], 2);
    assert_eq!(d[30], 1);
    assert_eq!(d.iter().sum::<usize>(), 4);
}

fn raw(ts: &str, id_a: i64, id_b: i64) -> RawMatch {
    RawMatch {
        timestamp: ts.to_string(),
        id_a,
        name_a: "a".to_string(),
        char_a: 0,
        platform_a: 1,
        id_b,
        name_b: "b".to_string(),
        char_b: 1,
        platform_b: 1,
        winner: 1,
        floor: 1,
    }
}

#[test]
fn store_runs_a_full_cycle() {
    let now = MARCH_FIRST_NOON;
    let mut store = Store::new();
    let report = store.ingest_batch(&vec![raw("2024-03-01 11:00:00", 1, 2), raw("2024-03-01 10:00:00", 1, 3)], now);
    assert_eq!(report.inserted, 2);
    assert_eq!(report.latest, Some(now - 3600));
    assert_eq!(store.rate_pending(5000), vec![0, 1]);
    assert!(store.matches.iter().all(|m| m.ratings.is_some()));
    // Make the ratings confident enough to rank.
    for r in store.ratings.iter_mut() {
        r.skill.deviation = 20_000;
    }
    for p in store.players.iter_mut() {
        if p.id == 2 {
            p.status = Status::Private;
        }
    }
    store.hourly(now, 2);
    assert!(store.ratings.iter().all(|r| r.skill.deviation == 20_000 + 60 + 10 && r.last_decay == now));
    assert_eq!(store.global_ranks.len(), 2);
    assert_eq!(store.global_ranks[0], RankRow { rank: 1, id: 1, char_id: 0 });
    assert_eq!(store.character_ranks.len(), 2);
    assert_eq!(store.character_ranks[0], vec![RankRow { rank: 1, id: 1, char_id: 0 }]);
    assert_eq!(store.character_ranks[1], vec![RankRow { rank: 1, id: 3, char_id: 1 }]);
}

#[test]
fn store_invariant_check_spots_duplicates() {
    let mut store = Store::new();
    assert!(store.is_wf());
    let now = MARCH_FIRST_NOON;
    store.ingest_batch(&vec![raw("2024-03-01 11:00:00", 1, 2)], now);
    assert!(store.is_wf());
    let dup = store.players[0].clone();
    store.players.push(dup);
    assert!(!store.is_wf());
    store.players.pop();
    let m = store.matches[0];
    store.matches.push(m);
    assert!(!store.is_wf());
    store.matches.pop();
    store.ratings.push(rating(1_500_000, 0));
    assert!(!store.is_wf());
}

#[test]
fn floor_distribution_counts_recent_matches_per_floor() {
    let mut ms = vec![
        row(100, 1, 0, 2, 0, 1, 10_000, 1_500_000),
        row(101, 1, 0, 2, 0, 1, 10_000, 1_500_000),
        row(102, 1, 0, 2, 0, 1, 10_000, 1_500_000),
        row(10, 1, 0, 2, 0, 1, 10_000, 1_500_000),
    ];
    ms[1].floor = 7;
    ms[3].floor = 9;
    let mut d = floor_distribution(&ms, 50);
    d.sort_by_key(|c| c.floor);
    assert_eq!(d, vec![FloorCount { floor: 1, games: 2 }, FloorCount { floor: 7, games: 1 }]);
    assert!(floor_distribution(&ms, 1000).is_empty());
}
