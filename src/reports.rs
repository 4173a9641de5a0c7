use vstd::prelude::*;

use crate::stats::push_new;
use crate::store::{MatchRow, PlayerRating};

verus! {

/// Only matches whose both sides had a deviation below this bound count in the
/// matchup tables.
pub const MATCHUP_DEVIATION_LIMIT: i64 = 30_000;

/// The high-level matchup table keeps matches where both means exceed this.
pub const HIGH_LEVEL_VALUE: i64 = 1_700_000;

/// One row of a character's matchup table.
#[derive(Clone, Copy, Debug, PartialEq, Eq, Structural)]
pub struct Matchup {
    pub opponent_char: i16,
    pub wins: usize,
    pub total_games: usize,
}

/// Whether a match counts in the matchup tables: played after `since`, rated,
/// both deviations below the limit, and both means above `min_value` where one is
/// given.
pub open spec fn counts(m: MatchRow, since: i64, min_value: Option<i64>) -> bool {
    &&& m.key.timestamp > since
    &&& m.ratings is Some
    &&& m.ratings.unwrap().deviation_a < MATCHUP_DEVIATION_LIMIT
    &&& m.ratings.unwrap().deviation_b < MATCHUP_DEVIATION_LIMIT
    &&& (min_value matches Some(v) ==> m.ratings.unwrap().value_a > v && m.ratings.unwrap().value_b
        > v)
}

/// `c` played side A against `o`; with `won`, side A also won.
pub open spec fn as_a(c: i16, o: i16, since: i64, min_value: Option<i64>, won: bool) -> spec_fn(MatchRow) -> bool {
    |m: MatchRow|
        counts(m, since, min_value) && m.key.char_a == c && m.key.char_b == o && (won ==> m.winner
            == 1)
}

/// `c` played side B against `o`; with `won`, side B also won.
pub open spec fn as_b(c: i16, o: i16, since: i64, min_value: Option<i64>, won: bool) -> spec_fn(MatchRow) -> bool {
    |m: MatchRow|
        counts(m, since, min_value) && m.key.char_b == c && m.key.char_a == o && (won ==> m.winner
            == 2)
}

/// The record of character `c` against `o`, counting both sides of each match.
pub open spec fn matchup_spec(ms: Seq<MatchRow>, c: i16, o: i16, since: i64, min_value: Option<i64>) -> Matchup {
    Matchup {
        opponent_char: o,
        wins: (ms.filter(as_a(c, o, since, min_value, true)).len() + ms.filter(
            as_b(c, o, since, min_value, true),
        ).len()) as usize,
        total_games: (ms.filter(as_a(c, o, since, min_value, false)).len() + ms.filter(
            as_b(c, o, since, min_value, false),
        ).len()) as usize,
    }
}

pub open spec fn played(m: Matchup) -> bool {
    m.total_games > 0
}

/// The matchup table of `c` against characters `0 .. characters`: one row per
/// opponent met at least once, by opponent.
pub open spec fn matchup_table_spec(
    ms: Seq<MatchRow>,
    c: i16,
    characters: i16,
    since: i64,
    min_value: Option<i64>,
) -> Seq<Matchup> {
    Seq::new(characters as nat, |o: int| matchup_spec(ms, c, o as i16, since, min_value)).filter(
        |m: Matchup| played(m),
    )
}

pub fn counts_exec(m: &MatchRow, since: i64, min_value: Option<i64>) -> (r: bool)
    ensures
        r == counts(*m, since, min_value),
{
    match m.ratings {
        None => false,
        Some(f) => {
            m.key.timestamp > since && f.deviation_a < MATCHUP_DEVIATION_LIMIT && f.deviation_b
                < MATCHUP_DEVIATION_LIMIT && match min_value {
                Some(v) => f.value_a > v && f.value_b > v,
                None => true,
            }
        },
    }
}

/// The record of `c` against `o`.
pub fn matchup(ms: &Vec<MatchRow>, c: i16, o: i16, since: i64, min_value: Option<i64>) -> (r: Matchup)
    requires
        ms@.len() <= usize::MAX / 2,
    ensures
        r == matchup_spec(ms@, c, o, since, min_value),
{
    let mut wa: usize = 0;
    let mut wb: usize = 0;
    let mut ta: usize = 0;
    let mut tb: usize = 0;
    let mut i: usize = 0;
    while i < ms.len()
        invariant
            i <= ms@.len(),
            ms@.len() <= usize::MAX / 2,
            wa == ms@.take(i as int).filter(as_a(c, o, since, min_value, true)).len(),
            wb == ms@.take(i as int).filter(as_b(c, o, since, min_value, true)).len(),
            ta == ms@.take(i as int).filter(as_a(c, o, since, min_value, false)).len(),
            tb == ms@.take(i as int).filter(as_b(c, o, since, min_value, false)).len(),
            wa <= ta <= i,
            wb <= tb <= i,
        decreases ms@.len() - i,
    {
        let m = ms[i];
        proof {
            let t = ms@.take(i as int);
            assert(ms@.take(i as int + 1) =~= t.push(m));
            t.lemma_filter_push(m, as_a(c, o, since, min_value, true));
            t.lemma_filter_push(m, as_b(c, o, since, min_value, true));
            t.lemma_filter_push(m, as_a(c, o, since, min_value, false));
            t.lemma_filter_push(m, as_b(c, o, since, min_value, false));
        }
        if counts_exec(&m, since, min_value) {
            if m.key.char_a == c && m.key.char_b == o {
                ta = ta + 1;
                if m.winner == 1 {
                    wa = wa + 1;
                }
            }
            if m.key.char_b == c && m.key.char_a == o {
                tb = tb + 1;
                if m.winner == 2 {
                    wb = wb + 1;
                }
            }
        }
        i = i + 1;
    }
    proof {
        assert(ms@.take(ms@.len() as int) =~= ms@);
    }
    Matchup { opponent_char: o, wins: wa + wb, total_games: ta + tb }
}

/// The matchup table of character `c`.
pub fn matchup_table(
    ms: &Vec<MatchRow>,
    c: i16,
    characters: i16,
    since: i64,
    min_value: Option<i64>,
) -> (r: Vec<Matchup>)
    requires
        characters >= 0,
        ms@.len() <= usize::MAX / 2,
    ensures
        r@ == matchup_table_spec(ms@, c, characters, since, min_value),
{
    let ghost all = Seq::new(characters as nat, |o: int| matchup_spec(ms@, c, o as i16, since, min_value));
    let mut rows: Vec<Matchup> = Vec::new();
    let mut o: i16 = 0;
    while o < characters
        invariant
            0 <= o <= characters,
            ms@.len() <= usize::MAX / 2,
            all == Seq::new(characters as nat, |o: int| matchup_spec(ms@, c, o as i16, since, min_value)),
            rows@ == all.take(o as int).filter(|m: Matchup| played(m)),
        decreases characters - o,
    {
        let m = matchup(ms, c, o, since, min_value);
        proof {
            assert(all[o as int] == m);
            assert(all.take(o as int + 1) =~= all.take(o as int).push(m));
            all.take(o as int).lemma_filter_push(m, |m: Matchup| played(m));
        }
        if m.total_games > 0 {
            rows.push(m);
        }
        o = o + 1;
    }
    proof {
        assert(all.take(characters as int) =~= all);
    }
    rows
}

/// The first bucket of the rating distribution starts here, in thousandths.
pub const BUCKET_START: i64 = -500_000;

/// Width of each bucket of the rating distribution, in thousandths.
pub const BUCKET_WIDTH: i64 = 100_000;

/// Number of buckets of the rating distribution.
pub const BUCKET_COUNT: usize = 31;

/// Only ratings with a deviation below this bound enter the distribution.
pub const DISTRIBUTION_DEVIATION_LIMIT: i64 = 30_000;

pub open spec fn bucket_low(b: int) -> int {
    BUCKET_START + b * BUCKET_WIDTH
}

/// Whether rating `r` falls into bucket `b`.
pub open spec fn in_bucket(b: int) -> spec_fn(PlayerRating) -> bool {
    |r: PlayerRating|
        r.skill.deviation < DISTRIBUTION_DEVIATION_LIMIT && bucket_low(b) <= r.skill.value
            < bucket_low(b) + BUCKET_WIDTH
}

/// The number of confident ratings in bucket `b`.
pub open spec fn bucket_count(rs: Seq<PlayerRating>, b: int) -> int {
    rs.filter(in_bucket(b)).len() as int
}

/// How many confident ratings fall into each bucket of the distribution.
pub fn rating_distribution(rs: &Vec<PlayerRating>) -> (r: Vec<usize>)
    ensures
        r@.len() == BUCKET_COUNT,
        forall|b: int| 0 <= b < BUCKET_COUNT ==> #[trigger] r@[b] == bucket_count(rs@, b),
{
    let mut out: Vec<usize> = Vec::new();
    let mut b: usize = 0;
    while b < BUCKET_COUNT
        invariant
            b <= BUCKET_COUNT,
            out@.len() == b,
            forall|k: int| 0 <= k < b ==> #[trigger] out@[k] == bucket_count(rs@, k),
        decreases BUCKET_COUNT - b,
    {
        let low: i64 = BUCKET_START + (b as i64) * BUCKET_WIDTH;
        let mut n: usize = 0;
        let mut i: usize = 0;
        while i < rs.len()
            invariant
                b < BUCKET_COUNT,
                low == bucket_low(b as int),
                i <= rs@.len(),
                n == rs@.take(i as int).filter(in_bucket(b as int)).len(),
                n <= i,
            decreases rs@.len() - i,
        {
            let r = rs[i];
            proof {
                assert(rs@.take(i as int + 1) =~= rs@.take(i as int).push(r));
                rs@.take(i as int).lemma_filter_push(r, in_bucket(b as int));
            }
            if r.skill.deviation < DISTRIBUTION_DEVIATION_LIMIT && low <= r.skill.value
                && r.skill.value < low + BUCKET_WIDTH {
                n = n + 1;
            }
            i = i + 1;
        }
        proof {
            assert(rs@.take(rs@.len() as int) =~= rs@);
        }
        out.push(n);
        b = b + 1;
    }
    out
}

/// The players who played character `c` in a match after `since`.
pub open spec fn players_on(ms: Seq<MatchRow>, c: i16, since: i64) -> Set<i64> {
    Set::new(
        |id: i64|
            exists|i: int|
                0 <= i < ms.len() && (#[trigger] ms[i]).key.timestamp > since && ((ms[i].key.char_a
                    == c && ms[i].key.id_a == id) || (ms[i].key.char_b == c && ms[i].key.id_b == id)),
    )
}

pub open spec fn side_a_on(c: i16, since: i64) -> spec_fn(MatchRow) -> bool {
    |m: MatchRow| m.key.timestamp > since && m.key.char_a == c
}

pub open spec fn side_b_on(c: i16, since: i64) -> spec_fn(MatchRow) -> bool {
    |m: MatchRow| m.key.timestamp > since && m.key.char_b == c
}

/// How often character `c` was played after `since`, counting each side.
pub open spec fn appearances_spec(ms: Seq<MatchRow>, c: i16, since: i64) -> int {
    ms.filter(side_a_on(c, since)).len() as int + ms.filter(side_b_on(c, since)).len() as int
}

/// The popularity of one character: distinct players and appearances.
#[derive(Clone, Copy, Debug, PartialEq, Eq, Structural)]
pub struct Popularity {
    pub players: usize,
    pub appearances: usize,
}

/// The popularity of character `c` over the matches played after `since`.
pub fn popularity(ms: &Vec<MatchRow>, c: i16, since: i64) -> (r: Popularity)
    requires
        ms@.len() <= usize::MAX / 2,
    ensures
        players_on(ms@, c, since).finite(),
        r.players == players_on(ms@, c, since).len(),
        r.appearances == appearances_spec(ms@, c, since),
{
    let mut ids: Vec<i64> = Vec::new();
    let mut na: usize = 0;
    let mut nb: usize = 0;
    let mut i: usize = 0;
    while i < ms.len()
        invariant
            i <= ms@.len(),
            ms@.len() <= usize::MAX / 2,
            ids@.no_duplicates(),
            ids@.to_set() == players_on(ms@.take(i as int), c, since),
            na == ms@.take(i as int).filter(side_a_on(c, since)).len(),
            nb == ms@.take(i as int).filter(side_b_on(c, since)).len(),
            na <= i,
            nb <= i,
        decreases ms@.len() - i,
    {
        let ghost before = ms@.take(i as int);
        let ghost seen = ms@.take(i as int + 1);
        let row = ms[i];
        proof {
            assert(seen =~= before.push(row));
            before.lemma_filter_push(row, side_a_on(c, since));
            before.lemma_filter_push(row, side_b_on(c, since));
        }
        if row.key.timestamp > since {
            if row.key.char_a == c {
                push_new(&mut ids, row.key.id_a);
                na = na + 1;
            }
            if row.key.char_b == c {
                push_new(&mut ids, row.key.id_b);
                nb = nb + 1;
            }
        }
        proof {
            assert forall|id: i64| players_on(seen, c, since).contains(id) <==> ids@.to_set().contains(id) by {
                if players_on(seen, c, since).contains(id) {
                    let k = choose|k: int|
                        0 <= k < seen.len() && (#[trigger] seen[k]).key.timestamp > since && ((
                        seen[k].key.char_a == c && seen[k].key.id_a == id) || (seen[k].key.char_b == c
                            && seen[k].key.id_b == id));
                    if k < i {
                        assert(before[k] == seen[k]);
                        assert(players_on(before, c, since).contains(id));
                    }
                }
                if players_on(before, c, since).contains(id) {
                    let k = choose|k: int|
                        0 <= k < before.len() && (#[trigger] before[k]).key.timestamp > since && ((
                        before[k].key.char_a == c && before[k].key.id_a == id) || (before[k].key.char_b
                            == c && before[k].key.id_b == id));
                    assert(seen[k] == before[k]);
                }
                if row.key.timestamp > since && ((row.key.char_a == c && row.key.id_a == id) || (
                row.key.char_b == c && row.key.id_b == id)) {
                    assert(seen[i as int] == row);
                }
            }
            assert(players_on(seen, c, since) =~= ids@.to_set());
        }
        i = i + 1;
    }
    proof {
        assert(ms@.take(ms@.len() as int) =~= ms@);
        ids@.unique_seq_to_set();
    }
    Popularity { players: ids.len(), appearances: na + nb }
}

/// How many matches after a given time were played on one floor.
#[derive(Clone, Copy, Debug, PartialEq, Eq, Structural)]
pub struct FloorCount {
    pub floor: i16,
    pub games: usize,
}

pub open spec fn on_floor(f: i16, since: i64) -> spec_fn(MatchRow) -> bool {
    |m: MatchRow| m.key.timestamp > since && m.floor == f
}

/// `rows` counts, once per floor, the matches played after `since` on each floor
/// that has any.
pub open spec fn floor_counts(ms: Seq<MatchRow>, since: i64, rows: Seq<FloorCount>) -> bool {
    &&& forall|k: int|
        0 <= k < rows.len() ==> (#[trigger] rows[k]).games == ms.filter(on_floor(rows[k].floor, since)).len()
            && rows[k].games > 0
    &&& forall|a: int, b: int|
        0 <= a < rows.len() && 0 <= b < rows.len() && a != b ==> (#[trigger] rows[a]).floor != (
        #[trigger] rows[b]).floor
    &&& forall|j: int|
        0 <= j < ms.len() && (#[trigger] ms[j]).key.timestamp > since ==> exists|k: int|
            0 <= k < rows.len() && rows[k].floor == ms[j].floor
}

fn find_floor(rows: &Vec<FloorCount>, f: i16) -> (r: Option<usize>)
    ensures
        match r {
            Some(k) => k < rows@.len() && rows@[k as int].floor == f,
            None => forall|k: int| 0 <= k < rows@.len() ==> (#[trigger] rows@[k]).floor != f,
        },
{
    let mut k: usize = 0;
    while k < rows.len()
        invariant
            k <= rows@.len(),
            forall|j: int| 0 <= j < k ==> (#[trigger] rows@[j]).floor != f,
        decreases rows@.len() - k,
    {
        if rows[k].floor == f {
            return Some(k);
        }
        k = k + 1;
    }
    None
}

/// The number of matches per floor over the matches played after `since`.
pub fn floor_distribution(ms: &Vec<MatchRow>, since: i64) -> (r: Vec<FloorCount>)
    ensures
        floor_counts(ms@, since, r@),
{
    let mut rows: Vec<FloorCount> = Vec::new();
    let mut i: usize = 0;
    proof {
        assert forall|f: i16| #[trigger] ms@.take(0).filter(on_floor(f, since)).len() == 0 by {
            ms@.take(0).filter_lemma(on_floor(f, since));
        }
    }
    while i < ms.len()
        invariant
            i <= ms@.len(),
            forall|k: int| 0 <= k < rows@.len() ==> (#[trigger] rows@[k]).games <= i,
            floor_counts(ms@.take(i as int), since, rows@),
            forall|f: i16|
                (forall|k: int| 0 <= k < rows@.len() ==> rows@[k].floor != f) ==> #[trigger] ms@.take(
                    i as int,
                ).filter(on_floor(f, since)).len() == 0,
        decreases ms@.len() - i,
    {
        let ghost before = ms@.take(i as int);
        let ghost seen = ms@.take(i as int + 1);
        let ghost old_rows = rows@;
        let m = ms[i];
        let ghost mut at: int = 0;
        proof {
            assert(seen =~= before.push(m));
            assert forall|f: i16| #[trigger] seen.filter(on_floor(f, since)) == (if on_floor(f, since)(m) {
                before.filter(on_floor(f, since)).push(m)
            } else {
                before.filter(on_floor(f, since))
            }) by {
                before.lemma_filter_push(m, on_floor(f, since));
            }
        }
        if m.key.timestamp > since {
            match find_floor(&rows, m.floor) {
                Some(k) => {
                    let g = rows[k].games;
                    rows.set(k, FloorCount { floor: m.floor, games: g + 1 });
                    proof {
                        at = k as int;
                    }
                },
                None => {
                    rows.push(FloorCount { floor: m.floor, games: 1 });
                    proof {
                        at = old_rows.len() as int;
                    }
                },
            }
        }
        proof {
            assert forall|k: int| 0 <= k < rows@.len() implies (#[trigger] rows@[k]).games == seen.filter(
                on_floor(rows@[k].floor, since),
            ).len() && rows@[k].games > 0 by {
                if k < old_rows.len() {
                    assert(old_rows[k].games == before.filter(on_floor(old_rows[k].floor, since)).len());
                    assert(old_rows[k].floor == rows@[k].floor);
                } else {
                    assert(before.filter(on_floor(m.floor, since)).len() == 0);
                }
            }
            assert forall|f: i16|
                (forall|k: int| 0 <= k < rows@.len() ==> rows@[k].floor != f) implies #[trigger] seen.filter(
                on_floor(f, since),
            ).len() == 0 by {
                assert forall|k: int| 0 <= k < old_rows.len() implies old_rows[k].floor != f by {
                    assert(rows@[k].floor == old_rows[k].floor);
                }
                if m.key.timestamp > since {
                    assert(rows@[at].floor == m.floor);
                }
            }
            assert forall|a: int, b: int|
                0 <= a < rows@.len() && 0 <= b < rows@.len() && a != b implies (#[trigger] rows@[a]).floor != (
            #[trigger] rows@[b]).floor by {
                if a < old_rows.len() && b < old_rows.len() {
                    assert(old_rows[a].floor == rows@[a].floor && old_rows[b].floor == rows@[b].floor);
                }
            }
            assert forall|j: int| 0 <= j < seen.len() && (#[trigger] seen[j]).key.timestamp > since implies exists|k: int|
                0 <= k < rows@.len() && rows@[k].floor == seen[j].floor by {
                if j < i {
                    assert(before[j] == seen[j]);
                    let kk = choose|kk: int| 0 <= kk < old_rows.len() && old_rows[kk].floor == before[j].floor;
                    assert(rows@[kk].floor == old_rows[kk].floor);
                } else {
                    assert(seen[j] == m);
                    assert(0 <= at < rows@.len() && rows@[at].floor == m.floor);
                }
            }
        }
        i = i + 1;
    }
    proof {
        assert(ms@.take(ms@.len() as int) =~= ms@);
    }
    rows
}

} // verus!
