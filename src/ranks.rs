use vstd::prelude::*;

use crate::rating::{decay_deviation, decayed, DEVIATION_CEILING};
use crate::select::{first_by, key_before, select_first};
use crate::store::{is_public, player_is_public, players_wf, ratings_wf, Player, PlayerRating, RankRow};

verus! {

/// Each leaderboard holds at most this many rows.
pub const LEADERBOARD_SIZE: usize = 1000;

/// Only ratings with a deviation below this bound are ranked.
pub const RANK_DEVIATION_LIMIT: i64 = 30_000;

/// Ratings rank by mean, highest first: the key is the negated mean.
pub open spec fn rank_keys(rs: Seq<PlayerRating>) -> Seq<i64> {
    Seq::new(rs.len(), |i: int| (-rs[i].skill.value) as i64)
}

/// Whether rating `r` may stand on a leaderboard, restricted to character `ch`
/// where one is given.
pub open spec fn eligible(ps: Seq<Player>, r: PlayerRating, ch: Option<i16>) -> bool {
    &&& is_public(ps, r.id)
    &&& r.skill.deviation < RANK_DEVIATION_LIMIT
    &&& (ch matches Some(c) ==> r.char_id == c)
}

pub open spec fn eligible_flags(rs: Seq<PlayerRating>, ps: Seq<Player>, ch: Option<i16>) -> Seq<bool> {
    Seq::new(rs.len(), |i: int| eligible(ps, rs[i], ch))
}

/// The leaderboard rows for the ratings at the positions of `order`, ranked from 1.
pub open spec fn rank_rows(rs: Seq<PlayerRating>, order: Seq<usize>) -> Seq<RankRow> {
    Seq::new(
        order.len(),
        |k: int| RankRow { rank: (k + 1) as i64, id: rs[order[k] as int].id, char_id: rs[order[k] as int].char_id },
    )
}

/// `rows` is the leaderboard of the ratings `rs`: the eligible ratings, highest
/// mean first, ties in table order, cut at the leaderboard size.
pub open spec fn leaderboard(rs: Seq<PlayerRating>, ps: Seq<Player>, ch: Option<i16>, rows: Seq<RankRow>) -> bool {
    exists|order: Seq<usize>|
        first_by(rank_keys(rs), eligible_flags(rs, ps, ch), LEADERBOARD_SIZE as int, order) && rows
            == rank_rows(rs, order)
}

/// Builds the leaderboard of all ratings, or of the ratings of one character.
pub fn rebuild_ranks(rs: &Vec<PlayerRating>, ps: &Vec<Player>, ch: Option<i16>) -> (rows: Vec<RankRow>)
    requires
        ratings_wf(rs@),
        players_wf(ps@),
    ensures
        leaderboard(rs@, ps@, ch, rows@),
{
    let mut keys: Vec<i64> = Vec::new();
    let mut elig: Vec<bool> = Vec::new();
    let mut i: usize = 0;
    while i < rs.len()
        invariant
            i <= rs@.len(),
            ratings_wf(rs@),
            players_wf(ps@),
            keys@ =~= rank_keys(rs@).take(i as int),
            elig@ =~= eligible_flags(rs@, ps@, ch).take(i as int),
        decreases rs@.len() - i,
    {
        let r = rs[i];
        assert(r.skill.wf());
        keys.push(-r.skill.value);
        let e = player_is_public(ps, r.id) && r.skill.deviation < RANK_DEVIATION_LIMIT && match ch {
            Some(c) => r.char_id == c,
            None => true,
        };
        elig.push(e);
        i = i + 1;
    }
    proof {
        assert(keys@ =~= rank_keys(rs@));
        assert(elig@ =~= eligible_flags(rs@, ps@, ch));
    }
    let order = select_first(&keys, &elig, LEADERBOARD_SIZE);
    let mut rows: Vec<RankRow> = Vec::new();
    let mut k: usize = 0;
    while k < order.len()
        invariant
            k <= order@.len(),
            order@.len() <= LEADERBOARD_SIZE,
            forall|j: int| 0 <= j < order@.len() ==> (#[trigger] order@[j]) < rs@.len(),
            rows@ =~= rank_rows(rs@, order@).take(k as int),
        decreases order@.len() - k,
    {
        let r = rs[order[k]];
        rows.push(RankRow { rank: (k + 1) as i64, id: r.id, char_id: r.char_id });
        k = k + 1;
    }
    proof {
        assert(rows@ =~= rank_rows(rs@, order@));
    }
    rows
}

/// A leaderboard holds at most its size in rows, ranked 1, 2, ... in order, each
/// of a `Public` player with a deviation below the limit (and of the character,
/// where one is given), with means that never increase down the board.
pub proof fn lemma_leaderboard_shape(
    rs: Seq<PlayerRating>,
    ps: Seq<Player>,
    ch: Option<i16>,
    order: Seq<usize>,
)
    requires
        ratings_wf(rs),
        first_by(rank_keys(rs), eligible_flags(rs, ps, ch), LEADERBOARD_SIZE as int, order),
    ensures
        rank_rows(rs, order).len() <= LEADERBOARD_SIZE,
        forall|k: int|
            0 <= k < order.len() ==> {
                &&& (#[trigger] rank_rows(rs, order)[k]).rank == k + 1
                &&& eligible(ps, rs[order[k] as int], ch)
                &&& rank_rows(rs, order)[k].id == rs[order[k] as int].id
            },
        forall|a: int, b: int|
            0 <= a < b < order.len() ==> (#[trigger] rs[order[a] as int]).skill.value >= (
            #[trigger] rs[order[b] as int]).skill.value,
{
    assert forall|k: int| 0 <= k < order.len() implies eligible(ps, rs[order[k] as int], ch) by {
        assert(order[k] < rs.len());
        assert(eligible_flags(rs, ps, ch)[order[k] as int]);
    }
    assert forall|a: int, b: int| 0 <= a < b < order.len() implies (
    #[trigger] rs[order[a] as int]).skill.value >= (#[trigger] rs[order[b] as int]).skill.value by {
        assert(key_before(rank_keys(rs), order[a] as int, order[b] as int));
        assert(order[a] < rs.len() && order[b] < rs.len());
        assert(rs[order[a] as int].skill.wf() && rs[order[b] as int].skill.wf());
    }
}

/// The table after one decay step at `now`.
pub open spec fn decay_spec(rs: Seq<PlayerRating>, now: i64) -> Seq<PlayerRating> {
    Seq::new(
        rs.len(),
        |i: int|
            if rs[i].skill.deviation < DEVIATION_CEILING {
                PlayerRating {
                    skill: crate::rating::Skill {
                        value: rs[i].skill.value,
                        deviation: decayed(rs[i].skill.deviation as int) as i64,
                    },
                    last_decay: now,
                    ..rs[i]
                }
            } else {
                rs[i]
            },
    )
}

/// Widens, and dates `now`, every rating whose deviation is below the ceiling.
pub fn decay_all(rs: &mut Vec<PlayerRating>, now: i64)
    requires
        ratings_wf(old(rs)@),
    ensures
        final(rs)@ == decay_spec(old(rs)@, now),
        ratings_wf(final(rs)@),
{
    let mut i: usize = 0;
    while i < rs.len()
        invariant
            i <= rs@.len(),
            rs@.len() == old(rs)@.len(),
            forall|j: int| 0 <= j < i ==> #[trigger] rs@[j] == decay_spec(old(rs)@, now)[j],
            forall|j: int| i <= j < rs@.len() ==> #[trigger] rs@[j] == old(rs)@[j],
            ratings_wf(old(rs)@),
        decreases rs@.len() - i,
    {
        let r = rs[i];
        assert(r.skill.wf());
        if r.skill.deviation < DEVIATION_CEILING {
            let d = decay_deviation(r.skill.deviation);
            let s = crate::rating::Skill { value: r.skill.value, deviation: d };
            rs.set(i, PlayerRating { skill: s, last_decay: now, ..r });
        }
        i = i + 1;
    }
    proof {
        assert(rs@ =~= decay_spec(old(rs)@, now));
        assert forall|i: int, j: int|
            0 <= i < rs@.len() && 0 <= j < rs@.len() && i != j implies !crate::store::rating_has(
            #[trigger] rs@[i],
            (#[trigger] rs@[j]).id,
            rs@[j].char_id,
        ) by {
            assert(!crate::store::rating_has(old(rs)@[i], old(rs)@[j].id, old(rs)@[j].char_id));
        }
        assert forall|i: int| 0 <= i < rs@.len() implies (#[trigger] rs@[i]).skill.wf() by {
            assert(old(rs)@[i].skill.wf());
        }
    }
}

/// A decay step strictly widens each rating below the ceiling and dates it `now`.
pub proof fn lemma_decay_widens(rs: Seq<PlayerRating>, now: i64, i: int)
    requires
        ratings_wf(rs),
        0 <= i < rs.len(),
        rs[i].skill.deviation < DEVIATION_CEILING,
    ensures
        decay_spec(rs, now)[i].skill.deviation > rs[i].skill.deviation,
        decay_spec(rs, now)[i].last_decay == now,
{
}

} // verus!
