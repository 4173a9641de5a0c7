use vstd::prelude::*;

use crate::rating::{rate, rate_spec};
use crate::select::{first_by, in_order, select_first};
use crate::store::{
    ensure_rating, ensure_rating_exec, find_player, has_player, is_public, lemma_rating_pos_unique, player_is_public,
    players_wf, ratings_wf, set_skill, set_skill_exec, skill_of, MatchRatings,
    MatchRow, Player, PlayerRating,
};

verus! {

/// At most this many matches are rated per cycle.
pub const BACKFILL_LIMIT: usize = 5000;

pub open spec fn pending(ms: Seq<MatchRow>, j: int) -> bool {
    ms[j].ratings is None
}

/// The instants that order matches, position by position.
pub open spec fn times(ms: Seq<MatchRow>) -> Seq<i64> {
    Seq::new(ms.len(), |i: int| ms[i].effective_spec() as i64)
}

/// A match can be rated when it is pending and both its players are known.
pub open spec fn ratable(ms: Seq<MatchRow>, ps: Seq<Player>, j: int) -> bool {
    &&& pending(ms, j)
    &&& has_player(ps, ms[j].key.id_a)
    &&& has_player(ps, ms[j].key.id_b)
}

pub open spec fn ratable_flags(ms: Seq<MatchRow>, ps: Seq<Player>) -> Seq<bool> {
    Seq::new(ms.len(), |i: int| ratable(ms, ps, i))
}

/// `order` lists, by effective time and then position, the first `limit` ratable
/// matches (or all of them, where there are fewer).
pub open spec fn selected(ms: Seq<MatchRow>, ps: Seq<Player>, limit: int, order: Seq<usize>) -> bool {
    first_by(times(ms), ratable_flags(ms, ps), limit, order)
}

fn player_known(ps: &Vec<Player>, id: i64) -> (r: bool)
    ensures
        r == has_player(ps@, id),
{
    match find_player(ps, id) {
        Some(i) => {
            assert(ps@[i as int].id == id);
            true
        },
        None => false,
    }
}

/// The matches to rate in this cycle, in rating order.
pub fn pending_order(ms: &Vec<MatchRow>, ps: &Vec<Player>, limit: usize) -> (r: Vec<usize>)
    ensures
        selected(ms@, ps@, limit as int, r@),
{
    let mut keys: Vec<i64> = Vec::new();
    let mut elig: Vec<bool> = Vec::new();
    let mut i: usize = 0;
    while i < ms.len()
        invariant
            i <= ms@.len(),
            keys@ =~= times(ms@).take(i as int),
            elig@ =~= ratable_flags(ms@, ps@).take(i as int),
        decreases ms@.len() - i,
    {
        keys.push(ms[i].effective_time());
        let known = player_known(ps, ms[i].key.id_a) && player_known(ps, ms[i].key.id_b);
        elig.push(ms[i].ratings.is_none() && known);
        i = i + 1;
    }
    proof {
        assert(keys@ =~= times(ms@));
        assert(elig@ =~= ratable_flags(ms@, ps@));
    }
    select_first(&keys, &elig, limit)
}

/// The rating fields of a match that involves a player who is not `Public`.
pub open spec fn zero_ratings() -> MatchRatings {
    MatchRatings { value_a: 0, deviation_a: 0, value_b: 0, deviation_b: 0, win_chance_ppm: 0 }
}

/// Rating match `i`: both sides `Public` rates it and updates both ratings (created
/// with defaults where missing); otherwise it is marked with zero rating fields
/// and the ratings stay as they are.
pub open spec fn apply_spec(ms: Seq<MatchRow>, rs: Seq<PlayerRating>, ps: Seq<Player>, i: int) -> (
    Seq<MatchRow>,
    Seq<PlayerRating>,
) {
    let row = ms[i];
    let k = row.key;
    if is_public(ps, k.id_a) && is_public(ps, k.id_b) {
        let rs1 = ensure_rating(rs, k.id_a, k.char_a, k.timestamp);
        let rs2 = ensure_rating(rs1, k.id_b, k.char_b, k.timestamp);
        let sa = skill_of(rs2, k.id_a, k.char_a);
        let sb = skill_of(rs2, k.id_b, k.char_b);
        let out = rate_spec(sa, sb, row.winner == 1);
        let rs3 = set_skill(rs2, k.id_a, k.char_a, out.new_a);
        let rs4 = set_skill(rs3, k.id_b, k.char_b, out.new_b);
        let fields = MatchRatings {
            value_a: sa.value,
            deviation_a: sa.deviation,
            value_b: sb.value,
            deviation_b: sb.deviation,
            win_chance_ppm: out.chance_a.ppm_spec() as i64,
        };
        (ms.update(i, MatchRow { ratings: Some(fields), ..row }), rs4)
    } else {
        (ms.update(i, MatchRow { ratings: Some(zero_ratings()), ..row }), rs)
    }
}

/// Rating the matches of `order` one after another.
pub open spec fn backfill_spec(
    ms: Seq<MatchRow>,
    rs: Seq<PlayerRating>,
    ps: Seq<Player>,
    order: Seq<usize>,
) -> (Seq<MatchRow>, Seq<PlayerRating>)
    decreases order.len(),
{
    if order.len() == 0 {
        (ms, rs)
    } else {
        let prev = backfill_spec(ms, rs, ps, order.drop_last());
        apply_spec(prev.0, prev.1, ps, order.last() as int)
    }
}

/// Rates match `i`; see `apply_spec`.
pub fn apply_match(
    ms: &mut Vec<MatchRow>,
    rs: &mut Vec<PlayerRating>,
    ps: &Vec<Player>,
    i: usize,
)
    requires
        i < old(ms)@.len(),
        ratings_wf(old(rs)@),
        players_wf(ps@),
    ensures
        (final(ms)@, final(rs)@) == apply_spec(old(ms)@, old(rs)@, ps@, i as int),
        ratings_wf(final(rs)@),
{
    let row = ms[i];
    let k = row.key;
    let public_a = player_is_public(ps, k.id_a);
    let public_b = player_is_public(ps, k.id_b);
    if public_a && public_b {
        let ia = ensure_rating_exec(rs, k.id_a, k.char_a, k.timestamp);
        let ghost rs1 = rs@;
        let ib = ensure_rating_exec(rs, k.id_b, k.char_b, k.timestamp);
        let ghost rs2 = rs@;
        proof {
            assert(rs2[ia as int] == rs1[ia as int]);
            lemma_rating_pos_unique(rs2, k.id_a, k.char_a, ia as int);
        }
        let sa = rs[ia].skill;
        let sb = rs[ib].skill;
        let out = rate(sa, sb, row.winner == 1);
        set_skill_exec(rs, ia, k.id_a, k.char_a, out.new_a);
        proof {
            lemma_rating_pos_unique(rs@, k.id_b, k.char_b, ib as int);
        }
        set_skill_exec(rs, ib, k.id_b, k.char_b, out.new_b);
        let fields = MatchRatings {
            value_a: sa.value,
            deviation_a: sa.deviation,
            value_b: sb.value,
            deviation_b: sb.deviation,
            win_chance_ppm: out.chance_a.ppm(),
        };
        ms.set(i, MatchRow { ratings: Some(fields), ..row });
    } else {
        let fields = MatchRatings {
            value_a: 0,
            deviation_a: 0,
            value_b: 0,
            deviation_b: 0,
            win_chance_ppm: 0,
        };
        ms.set(i, MatchRow { ratings: Some(fields), ..row });
    }
}

/// Rates, one after another in rating order, the first `limit` ratable matches.
/// Returns their positions.
pub fn backfill(
    ms: &mut Vec<MatchRow>,
    rs: &mut Vec<PlayerRating>,
    ps: &Vec<Player>,
    limit: usize,
) -> (order: Vec<usize>)
    requires
        ratings_wf(old(rs)@),
        players_wf(ps@),
    ensures
        selected(old(ms)@, ps@, limit as int, order@),
        (final(ms)@, final(rs)@) == backfill_spec(old(ms)@, old(rs)@, ps@, order@),
        ratings_wf(final(rs)@),
{
    let order = pending_order(ms, ps, limit);
    let mut k: usize = 0;
    while k < order.len()
        invariant
            k <= order@.len(),
            selected(old(ms)@, ps@, limit as int, order@),
            ms@.len() == old(ms)@.len(),
            players_wf(ps@),
            ratings_wf(rs@),
            (ms@, rs@) == backfill_spec(old(ms)@, old(rs)@, ps@, order@.take(k as int)),
        decreases order@.len() - k,
    {
        let i = order[k];
        assert(i < old(ms)@.len());
        apply_match(ms, rs, ps, i);
        proof {
            let t = order@.take(k as int + 1);
            assert(t.drop_last() =~= order@.take(k as int));
            assert(t.last() == i);
        }
        k = k + 1;
    }
    proof {
        assert(order@.take(order@.len() as int) =~= order@);
    }
    order
}

proof fn lemma_apply_shape(ms: Seq<MatchRow>, rs: Seq<PlayerRating>, ps: Seq<Player>, i: int)
    requires
        0 <= i < ms.len(),
    ensures
        apply_spec(ms, rs, ps, i).0.len() == ms.len(),
        apply_spec(ms, rs, ps, i).0[i].ratings is Some,
        apply_spec(ms, rs, ps, i).0[i].key == ms[i].key,
        forall|j: int| 0 <= j < ms.len() && j != i ==> #[trigger] apply_spec(ms, rs, ps, i).0[j] == ms[j],
{
}

/// Backfill rates every selected match, leaves every other match as it was, and
/// never changes a match key: a match is rated at most once, all fields at once.
pub proof fn lemma_backfill_rates_selected(
    ms: Seq<MatchRow>,
    rs: Seq<PlayerRating>,
    ps: Seq<Player>,
    order: Seq<usize>,
)
    requires
        forall|k: int| 0 <= k < order.len() ==> (#[trigger] order[k]) < ms.len(),
    ensures
        backfill_spec(ms, rs, ps, order).0.len() == ms.len(),
        forall|j: int|
            0 <= j < ms.len() ==> (#[trigger] backfill_spec(ms, rs, ps, order).0[j]).key == ms[j].key,
        forall|j: int|
            0 <= j < ms.len() && !in_order(order, j) ==> #[trigger] backfill_spec(ms, rs, ps, order).0[j]
                == ms[j],
        forall|k: int|
            0 <= k < order.len() ==> (#[trigger] backfill_spec(ms, rs, ps, order).0[order[k] as int]).ratings is Some,
    decreases order.len(),
{
    if order.len() > 0 {
        let init = order.drop_last();
        assert forall|k: int| 0 <= k < init.len() implies (#[trigger] init[k]) < ms.len() by {
            assert(init[k] == order[k]);
        }
        lemma_backfill_rates_selected(ms, rs, ps, init);
        let prev = backfill_spec(ms, rs, ps, init);
        let last = order.last() as int;
        assert(order[order.len() - 1] == order.last());
        lemma_apply_shape(prev.0, prev.1, ps, last);
        let out = backfill_spec(ms, rs, ps, order).0;
        assert forall|j: int| 0 <= j < ms.len() && !in_order(order, j) implies #[trigger] out[j] == ms[j] by {
            if in_order(init, j) {
                let k = choose|k: int| 0 <= k < init.len() && init[k] == j;
                assert(order[k] == j);
            }
            assert(order[order.len() - 1] != j);
        }
        assert forall|k: int| 0 <= k < order.len() implies (#[trigger] out[order[k] as int]).ratings is Some by {
            if k < init.len() {
                assert(init[k] == order[k]);
                if order[k] as int != last {
                    assert(out[order[k] as int] == prev.0[init[k] as int]);
                }
            }
        }
    }
}

/// A match with a player who is not `Public` gets zero rating fields and leaves
/// every rating as it was.
pub proof fn lemma_hidden_match(ms: Seq<MatchRow>, rs: Seq<PlayerRating>, ps: Seq<Player>, i: int)
    requires
        0 <= i < ms.len(),
        !is_public(ps, ms[i].key.id_a) || !is_public(ps, ms[i].key.id_b),
    ensures
        apply_spec(ms, rs, ps, i).1 == rs,
        apply_spec(ms, rs, ps, i).0[i].ratings == Some(zero_ratings()),
{
}

} // verus!
