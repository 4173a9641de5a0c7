use vstd::prelude::*;

use crate::rating::Skill;

verus! {

/// Who may see a player's matches in ratings and leaderboards.
#[derive(Clone, Copy, Debug, PartialEq, Eq, Structural)]
pub enum Status {
    Public,
    Private,
    Unknown,
}

/// A player's identity, upserted on every observed match. The credential fields
/// serve self-service account linking and are set by the owner only.
#[derive(Clone, Debug)]
pub struct Player {
    pub id: i64,
    pub name: String,
    pub platform: i16,
    pub status: Status,
    pub api_key: Option<String>,
    pub rcode_check_code: Option<String>,
}

/// One observed (player, name) pair of the name history.
#[derive(Clone, Debug)]
pub struct NameEntry {
    pub id: i64,
    pub name: String,
}

/// The natural key of a match, also its de-duplication key.
#[derive(Clone, Copy, Debug, PartialEq, Eq, Structural)]
pub struct MatchKey {
    pub timestamp: i64,
    pub id_a: i64,
    pub char_a: i16,
    pub platform_a: i16,
    pub id_b: i64,
    pub char_b: i16,
    pub platform_b: i16,
}

/// The rating fields of a processed match: both sides' estimates before the match
/// and the chance that side A wins, in parts per million.
#[derive(Clone, Copy, Debug, PartialEq, Eq, Structural)]
pub struct MatchRatings {
    pub value_a: i64,
    pub deviation_a: i64,
    pub value_b: i64,
    pub deviation_b: i64,
    pub win_chance_ppm: i64,
}

/// A stored match. `ratings` is `None` until backfill processes the match, and
/// then holds all rating fields at once.
#[derive(Clone, Copy, Debug, PartialEq, Eq, Structural)]
pub struct MatchRow {
    pub key: MatchKey,
    pub winner: i16,
    pub floor: i16,
    pub corrected: Option<i64>,
    pub ratings: Option<MatchRatings>,
}

/// The current rating of one player on one character.
#[derive(Clone, Copy, Debug, PartialEq, Eq, Structural)]
pub struct PlayerRating {
    pub id: i64,
    pub char_id: i16,
    pub skill: Skill,
    pub wins: i64,
    pub losses: i64,
    pub last_decay: i64,
}

/// One leaderboard row: 1-based rank, player and character.
#[derive(Clone, Copy, Debug, PartialEq, Eq, Structural)]
pub struct RankRow {
    pub rank: i64,
    pub id: i64,
    pub char_id: i16,
}

impl MatchRow {
    /// The instant that orders matches: the corrected timestamp if there is one.
    pub open spec fn effective_spec(self) -> int {
        match self.corrected {
            Some(t) => t as int,
            None => self.key.timestamp as int,
        }
    }

    pub fn effective_time(&self) -> (r: i64)
        ensures
            r == self.effective_spec(),
    {
        match self.corrected {
            Some(t) => t,
            None => self.key.timestamp,
        }
    }
}

/// Match keys are unique.
pub open spec fn matches_wf(ms: Seq<MatchRow>) -> bool {
    forall|i: int, j: int|
        0 <= i < ms.len() && 0 <= j < ms.len() && i != j ==> #[trigger] ms[i].key != #[trigger] ms[j].key
}

pub open spec fn has_key(ms: Seq<MatchRow>, k: MatchKey) -> bool {
    exists|i: int| 0 <= i < ms.len() && #[trigger] ms[i].key == k
}

/// Player ids are unique.
pub open spec fn players_wf(ps: Seq<Player>) -> bool {
    forall|i: int, j: int|
        0 <= i < ps.len() && 0 <= j < ps.len() && i != j ==> #[trigger] ps[i].id != #[trigger] ps[j].id
}

pub open spec fn has_player(ps: Seq<Player>, id: i64) -> bool {
    exists|i: int| 0 <= i < ps.len() && (#[trigger] ps[i]).id == id
}

pub open spec fn player_pos(ps: Seq<Player>, id: i64) -> int {
    choose|i: int| 0 <= i < ps.len() && (#[trigger] ps[i]).id == id
}

pub open spec fn is_public(ps: Seq<Player>, id: i64) -> bool {
    exists|i: int| 0 <= i < ps.len() && #[trigger] ps[i].id == id && ps[i].status == Status::Public
}

pub open spec fn rating_has(r: PlayerRating, id: i64, ch: i16) -> bool {
    r.id == id && r.char_id == ch
}

/// One rating per (player, character), each well formed.
pub open spec fn ratings_wf(rs: Seq<PlayerRating>) -> bool {
    &&& forall|i: int| 0 <= i < rs.len() ==> (#[trigger] rs[i]).skill.wf()
    &&& forall|i: int, j: int|
        0 <= i < rs.len() && 0 <= j < rs.len() && i != j ==> !rating_has(
            #[trigger] rs[i],
            (#[trigger] rs[j]).id,
            rs[j].char_id,
        )
}

pub open spec fn has_rating(rs: Seq<PlayerRating>, id: i64, ch: i16) -> bool {
    exists|i: int| 0 <= i < rs.len() && rating_has(#[trigger] rs[i], id, ch)
}

/// The position of the rating of (`id`, `ch`); meaningful where there is one.
pub open spec fn rating_pos(rs: Seq<PlayerRating>, id: i64, ch: i16) -> int {
    choose|i: int| 0 <= i < rs.len() && rating_has(#[trigger] rs[i], id, ch)
}

pub open spec fn new_rating(id: i64, ch: i16, ts: i64) -> PlayerRating {
    PlayerRating {
        id,
        char_id: ch,
        skill: Skill { value: crate::rating::DEFAULT_VALUE, deviation: crate::rating::DEFAULT_DEVIATION },
        wins: 0,
        losses: 0,
        last_decay: ts,
    }
}

/// The table with a default rating of (`id`, `ch`) appended where it has none.
pub open spec fn ensure_rating(rs: Seq<PlayerRating>, id: i64, ch: i16, ts: i64) -> Seq<PlayerRating> {
    if has_rating(rs, id, ch) {
        rs
    } else {
        rs.push(new_rating(id, ch, ts))
    }
}

pub open spec fn skill_of(rs: Seq<PlayerRating>, id: i64, ch: i16) -> Skill {
    rs[rating_pos(rs, id, ch)].skill
}

/// The table with the skill of (`id`, `ch`) replaced.
pub open spec fn set_skill(rs: Seq<PlayerRating>, id: i64, ch: i16, s: Skill) -> Seq<PlayerRating> {
    let p = rating_pos(rs, id, ch);
    rs.update(p, PlayerRating { skill: s, ..rs[p] })
}

pub fn find_player(ps: &Vec<Player>, id: i64) -> (r: Option<usize>)
    ensures
        match r {
            Some(i) => i < ps@.len() && ps@[i as int].id == id,
            None => forall|i: int| 0 <= i < ps@.len() ==> (#[trigger] ps@[i]).id != id,
        },
{
    let mut i: usize = 0;
    while i < ps.len()
        invariant
            i <= ps@.len(),
            forall|j: int| 0 <= j < i ==> (#[trigger] ps@[j]).id != id,
        decreases ps@.len() - i,
    {
        if ps[i].id == id {
            return Some(i);
        }
        i = i + 1;
    }
    None
}

/// Whether the player `id` is known and `Public`.
pub fn player_is_public(ps: &Vec<Player>, id: i64) -> (r: bool)
    requires
        players_wf(ps@),
    ensures
        r == is_public(ps@, id),
{
    match find_player(ps, id) {
        Some(i) => {
            let public = ps[i].status == Status::Public;
            if !public {
                assert forall|j: int| 0 <= j < ps@.len() && #[trigger] ps@[j].id == id implies ps@[j].status
                    != Status::Public by {
                    assert(j == i as int);
                }
            }
            public
        },
        None => false,
    }
}

pub fn find_rating(rs: &Vec<PlayerRating>, id: i64, ch: i16) -> (r: Option<usize>)
    requires
        ratings_wf(rs@),
    ensures
        match r {
            Some(i) => {
                &&& i < rs@.len()
                &&& rating_has(rs@[i as int], id, ch)
                &&& has_rating(rs@, id, ch)
                &&& rating_pos(rs@, id, ch) == i
            },
            None => !has_rating(rs@, id, ch),
        },
{
    let mut i: usize = 0;
    while i < rs.len()
        invariant
            i <= rs@.len(),
            ratings_wf(rs@),
            forall|j: int| 0 <= j < i ==> !rating_has(#[trigger] rs@[j], id, ch),
        decreases rs@.len() - i,
    {
        if rs[i].id == id && rs[i].char_id == ch {
            proof {
                assert(rating_has(rs@[i as int], id, ch));
                assert(has_rating(rs@, id, ch));
                let p = rating_pos(rs@, id, ch);
                assert(0 <= p < rs@.len() && rating_has(rs@[p], id, ch));
                if p != i as int {
                    assert(!rating_has(rs@[p], rs@[i as int].id, rs@[i as int].char_id));
                    assert(false);
                }
            }
            return Some(i);
        }
        i = i + 1;
    }
    None
}

/// A position that holds the rating of (`id`, `ch`) is its only one.
pub proof fn lemma_rating_pos_unique(rs: Seq<PlayerRating>, id: i64, ch: i16, p: int)
    requires
        ratings_wf(rs),
        0 <= p < rs.len(),
        rating_has(rs[p], id, ch),
    ensures
        has_rating(rs, id, ch),
        rating_pos(rs, id, ch) == p,
{
    assert(has_rating(rs, id, ch));
    let q = rating_pos(rs, id, ch);
    assert(0 <= q < rs.len() && rating_has(rs[q], id, ch));
    if q != p {
        assert(!rating_has(rs[q], rs[p].id, rs[p].char_id));
    }
}

/// Finds the rating of (`id`, `ch`), appending a default one dated `ts` where
/// there is none.
pub fn ensure_rating_exec(rs: &mut Vec<PlayerRating>, id: i64, ch: i16, ts: i64) -> (p: usize)
    requires
        ratings_wf(old(rs)@),
    ensures
        final(rs)@ == ensure_rating(old(rs)@, id, ch, ts),
        ratings_wf(final(rs)@),
        p < final(rs)@.len(),
        rating_has(final(rs)@[p as int], id, ch),
        rating_pos(final(rs)@, id, ch) == p,
{
    match find_rating(rs, id, ch) {
        Some(i) => i,
        None => {
            let r = PlayerRating {
                id,
                char_id: ch,
                skill: Skill::default_skill(),
                wins: 0,
                losses: 0,
                last_decay: ts,
            };
            rs.push(r);
            let p = rs.len() - 1;
            proof {
                assert(rs@ == old(rs)@.push(new_rating(id, ch, ts)));
                assert forall|i: int, j: int|
                    0 <= i < rs@.len() && 0 <= j < rs@.len() && i != j implies !rating_has(
                    #[trigger] rs@[i],
                    (#[trigger] rs@[j]).id,
                    rs@[j].char_id,
                ) by {
                    if i == p as int {
                        assert(rating_has(old(rs)@[j], id, ch) ==> has_rating(old(rs)@, id, ch));
                    } else if j == p as int {
                        assert(rating_has(old(rs)@[i], id, ch) ==> has_rating(old(rs)@, id, ch));
                    }
                }
                lemma_rating_pos_unique(rs@, id, ch, p as int);
            }
            p
        },
    }
}

/// Replaces the skill at position `p`, the rating of (`id`, `ch`).
pub fn set_skill_exec(rs: &mut Vec<PlayerRating>, p: usize, id: i64, ch: i16, s: Skill)
    requires
        ratings_wf(old(rs)@),
        s.wf(),
        p < old(rs)@.len(),
        rating_pos(old(rs)@, id, ch) == p,
    ensures
        final(rs)@ == set_skill(old(rs)@, id, ch, s),
        ratings_wf(final(rs)@),
        final(rs)@.len() == old(rs)@.len(),
        forall|i: int|
            0 <= i < final(rs)@.len() ==> (#[trigger] final(rs)@[i]).id == old(rs)@[i].id
                && final(rs)@[i].char_id == old(rs)@[i].char_id,
{
    let old_r = rs[p];
    let r = PlayerRating { skill: s, ..old_r };
    rs.set(p, r);
    proof {
        assert forall|i: int, j: int|
            0 <= i < rs@.len() && 0 <= j < rs@.len() && i != j implies !rating_has(
            #[trigger] rs@[i],
            (#[trigger] rs@[j]).id,
            rs@[j].char_id,
        ) by {
            assert(!rating_has(old(rs)@[i], old(rs)@[j].id, old(rs)@[j].char_id));
        }
    }
}

/// Whether the match keys are unique.
pub fn matches_unique(ms: &Vec<MatchRow>) -> (r: bool)
    ensures
        r == matches_wf(ms@),
{
    let mut i: usize = 0;
    while i < ms.len()
        invariant
            i <= ms@.len(),
            forall|a: int, b: int|
                0 <= a < i && 0 <= b < ms@.len() && a != b ==> #[trigger] ms@[a].key != #[trigger] ms@[b].key,
        decreases ms@.len() - i,
    {
        let mut j: usize = 0;
        while j < ms.len()
            invariant
                i < ms@.len(),
                j <= ms@.len(),
                forall|a: int, b: int|
                    0 <= a < i && 0 <= b < ms@.len() && a != b ==> #[trigger] ms@[a].key != #[trigger] ms@[b].key,
                forall|b: int| 0 <= b < j && b != i ==> ms@[i as int].key != #[trigger] ms@[b].key,
            decreases ms@.len() - j,
        {
            if j != i && ms[i].key == ms[j].key {
                return false;
            }
            j = j + 1;
        }
        i = i + 1;
    }
    true
}

/// Whether the player ids are unique.
pub fn players_unique(ps: &Vec<Player>) -> (r: bool)
    ensures
        r == players_wf(ps@),
{
    let mut i: usize = 0;
    while i < ps.len()
        invariant
            i <= ps@.len(),
            forall|a: int, b: int|
                0 <= a < i && 0 <= b < ps@.len() && a != b ==> #[trigger] ps@[a].id != #[trigger] ps@[b].id,
        decreases ps@.len() - i,
    {
        let mut j: usize = 0;
        while j < ps.len()
            invariant
                i < ps@.len(),
                j <= ps@.len(),
                forall|a: int, b: int|
                    0 <= a < i && 0 <= b < ps@.len() && a != b ==> #[trigger] ps@[a].id != #[trigger] ps@[b].id,
                forall|b: int| 0 <= b < j && b != i ==> ps@[i as int].id != #[trigger] ps@[b].id,
            decreases ps@.len() - j,
        {
            if j != i && ps[i].id == ps[j].id {
                return false;
            }
            j = j + 1;
        }
        i = i + 1;
    }
    true
}

/// Whether every rating is well formed and each (player, character) is rated once.
pub fn ratings_valid(rs: &Vec<PlayerRating>) -> (r: bool)
    ensures
        r == ratings_wf(rs@),
{
    let mut i: usize = 0;
    while i < rs.len()
        invariant
            i <= rs@.len(),
            forall|a: int| 0 <= a < i ==> (#[trigger] rs@[a]).skill.wf(),
            forall|a: int, b: int|
                0 <= a < i && 0 <= b < rs@.len() && a != b ==> !rating_has(
                    #[trigger] rs@[a],
                    (#[trigger] rs@[b]).id,
                    rs@[b].char_id,
                ),
        decreases rs@.len() - i,
    {
        let s = rs[i].skill;
        if !(-crate::rating::VALUE_LIMIT <= s.value && s.value <= crate::rating::VALUE_LIMIT && 0
            < s.deviation && s.deviation <= crate::rating::DEVIATION_MAX) {
            return false;
        }
        let mut j: usize = 0;
        while j < rs.len()
            invariant
                i < rs@.len(),
                j <= rs@.len(),
                forall|a: int| 0 <= a <= i ==> (#[trigger] rs@[a]).skill.wf(),
                forall|a: int, b: int|
                    0 <= a < i && 0 <= b < rs@.len() && a != b ==> !rating_has(
                        #[trigger] rs@[a],
                        (#[trigger] rs@[b]).id,
                        rs@[b].char_id,
                    ),
                forall|b: int|
                    0 <= b < j && b != i ==> !rating_has(rs@[i as int], (#[trigger] rs@[b]).id, rs@[b].char_id),
            decreases rs@.len() - j,
        {
            if j != i && rs[i].id == rs[j].id && rs[i].char_id == rs[j].char_id {
                return false;
            }
            j = j + 1;
        }
        i = i + 1;
    }
    true
}

} // verus!
