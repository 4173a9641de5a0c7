use vstd::prelude::*;

use crate::store::MatchRow;

verus! {

pub const ONE_HOUR: i64 = 3600;

pub const ONE_DAY: i64 = 86400;

pub const ONE_WEEK: i64 = 7 * 86400;

pub const ONE_MONTH: i64 = 30 * 86400;

/// The earliest `now` that the stats windows accept without overflow.
pub const EARLIEST_STATS_NOW: i64 = -9_223_372_036_000_000_000;

/// Match and player counts, in all and over recent windows.
#[derive(Clone, Copy, Debug, PartialEq, Eq, Structural)]
pub struct GameStats {
    pub total_games: usize,
    pub one_month_games: usize,
    pub one_week_games: usize,
    pub one_day_games: usize,
    pub one_hour_games: usize,
    pub total_players: usize,
    pub one_month_players: usize,
    pub one_week_players: usize,
    pub one_day_players: usize,
    pub one_hour_players: usize,
}

pub open spec fn after(since: i64) -> spec_fn(MatchRow) -> bool {
    |m: MatchRow| m.key.timestamp > since
}

/// The matches played after `since`.
pub open spec fn matches_since(ms: Seq<MatchRow>, since: i64) -> Seq<MatchRow> {
    ms.filter(after(since))
}

/// The players of the matches played after `since`.
pub open spec fn players_since(ms: Seq<MatchRow>, since: i64) -> Set<i64> {
    Set::new(
        |id: i64|
            exists|i: int|
                0 <= i < ms.len() && (#[trigger] ms[i]).key.timestamp > since && (ms[i].key.id_a == id
                    || ms[i].key.id_b == id),
    )
}

/// How many matches were played after `since`.
pub fn count_matches_since(ms: &Vec<MatchRow>, since: i64) -> (r: usize)
    ensures
        r == matches_since(ms@, since).len(),
{
    let mut n: usize = 0;
    let mut i: usize = 0;
    while i < ms.len()
        invariant
            i <= ms@.len(),
            n == matches_since(ms@.take(i as int), since).len(),
            n <= i,
        decreases ms@.len() - i,
    {
        proof {
            assert(ms@.take(i as int + 1) =~= ms@.take(i as int).push(ms@[i as int]));
            ms@.take(i as int).lemma_filter_push(ms@[i as int], after(since));
        }
        if ms[i].key.timestamp > since {
            n = n + 1;
        }
        i = i + 1;
    }
    proof {
        assert(ms@.take(ms@.len() as int) =~= ms@);
    }
    n
}

fn contains_id(ids: &Vec<i64>, id: i64) -> (r: bool)
    ensures
        r == ids@.contains(id),
{
    let mut i: usize = 0;
    while i < ids.len()
        invariant
            i <= ids@.len(),
            forall|j: int| 0 <= j < i ==> ids@[j] != id,
        decreases ids@.len() - i,
    {
        if ids[i] == id {
            assert(ids@[i as int] == id);
            return true;
        }
        i = i + 1;
    }
    false
}

pub(crate) fn push_new(ids: &mut Vec<i64>, id: i64)
    requires
        old(ids)@.no_duplicates(),
    ensures
        final(ids)@.no_duplicates(),
        final(ids)@.to_set() == old(ids)@.to_set().insert(id),
        final(ids)@.len() <= old(ids)@.len() + 1,
{
    if !contains_id(ids, id) {
        ids.push(id);
        proof {
            assert(ids@.to_set() =~= old(ids)@.to_set().insert(id)) by {
                assert forall|x: i64| ids@.to_set().contains(x) <==> old(ids)@.to_set().insert(id).contains(x) by {
                    if old(ids)@.contains(x) {
                        let k = choose|k: int| 0 <= k < old(ids)@.len() && old(ids)@[k] == x;
                        assert(ids@[k] == x);
                    }
                    if ids@.contains(x) && x != id {
                        let k = choose|k: int| 0 <= k < ids@.len() && ids@[k] == x;
                        assert(k < old(ids)@.len());
                        assert(old(ids)@[k] == x);
                    }
                    if x == id {
                        assert(ids@[old(ids)@.len() as int] == id);
                    }
                }
            }
        }
    } else {
        proof {
            assert(ids@.to_set() =~= old(ids)@.to_set().insert(id));
        }
    }
}

/// How many distinct players played a match after `since`.
pub fn count_players_since(ms: &Vec<MatchRow>, since: i64) -> (r: usize)
    ensures
        players_since(ms@, since).finite(),
        r == players_since(ms@, since).len(),
{
    let mut ids: Vec<i64> = Vec::new();
    let mut i: usize = 0;
    while i < ms.len()
        invariant
            i <= ms@.len(),
            ids@.no_duplicates(),
            ids@.to_set() == players_since(ms@.take(i as int), since),
            ids@.len() <= 2 * i,
        decreases ms@.len() - i,
    {
        let ghost before = ms@.take(i as int);
        let ghost now_seen = ms@.take(i as int + 1);
        let row = ms[i];
        if row.key.timestamp > since {
            push_new(&mut ids, row.key.id_a);
            push_new(&mut ids, row.key.id_b);
        }
        proof {
            assert forall|id: i64| players_since(now_seen, since).contains(id) <==> ids@.to_set().contains(id) by {
                if players_since(now_seen, since).contains(id) {
                    let k = choose|k: int|
                        0 <= k < now_seen.len() && (#[trigger] now_seen[k]).key.timestamp > since && (
                        now_seen[k].key.id_a == id || now_seen[k].key.id_b == id);
                    if k < i {
                        assert(before[k] == now_seen[k]);
                        assert(players_since(before, since).contains(id));
                    }
                }
                if players_since(before, since).contains(id) {
                    let k = choose|k: int|
                        0 <= k < before.len() && (#[trigger] before[k]).key.timestamp > since && (
                        before[k].key.id_a == id || before[k].key.id_b == id);
                    assert(now_seen[k] == before[k]);
                }
                if row.key.timestamp > since && (row.key.id_a == id || row.key.id_b == id) {
                    assert(now_seen[i as int] == row);
                }
            }
            assert(players_since(now_seen, since) =~= ids@.to_set());
        }
        i = i + 1;
    }
    proof {
        assert(ms@.take(ms@.len() as int) =~= ms@);
        ids@.unique_seq_to_set();
    }
    ids.len()
}

/// The stats published each hour, over the windows ending at `now`.
pub fn game_stats(ms: &Vec<MatchRow>, total_players: usize, now: i64) -> (r: GameStats)
    requires
        EARLIEST_STATS_NOW <= now,
    ensures
        r.total_games == ms@.len(),
        r.one_month_games == matches_since(ms@, (now - ONE_MONTH) as i64).len(),
        r.one_week_games == matches_since(ms@, (now - ONE_WEEK) as i64).len(),
        r.one_day_games == matches_since(ms@, (now - ONE_DAY) as i64).len(),
        r.one_hour_games == matches_since(ms@, (now - ONE_HOUR) as i64).len(),
        r.total_players == total_players,
        r.one_month_players == players_since(ms@, (now - ONE_MONTH) as i64).len(),
        r.one_week_players == players_since(ms@, (now - ONE_WEEK) as i64).len(),
        r.one_day_players == players_since(ms@, (now - ONE_DAY) as i64).len(),
        r.one_hour_players == players_since(ms@, (now - ONE_HOUR) as i64).len(),
{
    GameStats {
        total_games: ms.len(),
        one_month_games: count_matches_since(ms, now - ONE_MONTH),
        one_week_games: count_matches_since(ms, now - ONE_WEEK),
        one_day_games: count_matches_since(ms, now - ONE_DAY),
        one_hour_games: count_matches_since(ms, now - ONE_HOUR),
        total_players,
        one_month_players: count_players_since(ms, now - ONE_MONTH),
        one_week_players: count_players_since(ms, now - ONE_WEEK),
        one_day_players: count_players_since(ms, now - ONE_DAY),
        one_hour_players: count_players_since(ms, now - ONE_HOUR),
    }
}

} // verus!
