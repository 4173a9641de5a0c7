use vstd::prelude::*;

use crate::backfill::{backfill, backfill_spec, selected};
use crate::ingest::{ingest, ingest_spec, IngestReport, RawMatch, FUTURE_TOLERANCE};
use crate::ranks::{decay_all, decay_spec, leaderboard, rebuild_ranks};
use crate::store::{
    matches_unique, matches_wf, players_unique, players_wf, ratings_valid, ratings_wf, MatchRow,
    NameEntry, Player, PlayerRating, RankRow,
};

verus! {

/// All tables of the relational store.
#[derive(Clone, Debug)]
pub struct Store {
    pub players: Vec<Player>,
    pub names: Vec<NameEntry>,
    pub matches: Vec<MatchRow>,
    pub ratings: Vec<PlayerRating>,
    pub global_ranks: Vec<RankRow>,
    /// The leaderboard of each character, indexed by character id.
    pub character_ranks: Vec<Vec<RankRow>>,
}

impl Store {
    pub open spec fn wf(&self) -> bool {
        &&& players_wf(self.players@)
        &&& matches_wf(self.matches@)
        &&& ratings_wf(self.ratings@)
    }

    pub fn new() -> (r: Store)
        ensures
            r.wf(),
            r.players@.len() == 0,
            r.names@.len() == 0,
            r.matches@.len() == 0,
            r.ratings@.len() == 0,
            r.global_ranks@.len() == 0,
            r.character_ranks@.len() == 0,
    {
        Store {
            players: Vec::new(),
            names: Vec::new(),
            matches: Vec::new(),
            ratings: Vec::new(),
            global_ranks: Vec::new(),
            character_ranks: Vec::new(),
        }
    }

    /// Whether the tables satisfy the store's invariant.
    pub fn is_wf(&self) -> (r: bool)
        ensures
            r == self.wf(),
    {
        players_unique(&self.players) && matches_unique(&self.matches) && ratings_valid(&self.ratings)
    }

    /// Ingests a batch of records, newest first, at `now`.
    pub fn ingest_batch(&mut self, batch: &Vec<RawMatch>, now: i64) -> (r: IngestReport)
        requires
            old(self).wf(),
            now + FUTURE_TOLERANCE + batch@.len() <= i64::MAX,
            batch@.len() <= i64::MAX,
        ensures
            final(self).wf(),
            ({
                let v = ingest_spec(
                    old(self).matches@,
                    old(self).players@,
                    old(self).names@,
                    batch@,
                    now,
                );
                &&& final(self).matches@ == v.matches
                &&& final(self).players@ == v.players
                &&& final(self).names@ == v.names
                &&& r.inserted == v.inserted
                &&& r.latest == v.latest
            }),
            final(self).ratings@ == old(self).ratings@,
            final(self).global_ranks@ == old(self).global_ranks@,
            final(self).character_ranks@ == old(self).character_ranks@,
    {
        ingest(&mut self.matches, &mut self.players, &mut self.names, batch, now)
    }

    /// Rates the first `limit` ratable matches in rating order; returns their
    /// positions.
    pub fn rate_pending(&mut self, limit: usize) -> (order: Vec<usize>)
        requires
            old(self).wf(),
        ensures
            final(self).wf(),
            selected(old(self).matches@, old(self).players@, limit as int, order@),
            (final(self).matches@, final(self).ratings@) == backfill_spec(
                old(self).matches@,
                old(self).ratings@,
                old(self).players@,
                order@,
            ),
            final(self).players@ == old(self).players@,
            final(self).names@ == old(self).names@,
            final(self).global_ranks@ == old(self).global_ranks@,
            final(self).character_ranks@ == old(self).character_ranks@,
    {
        let order = backfill(&mut self.matches, &mut self.ratings, &self.players, limit);
        proof {
            assert forall|i: int, j: int|
                0 <= i < self.matches@.len() && 0 <= j < self.matches@.len() && i != j implies
                #[trigger] self.matches@[i].key != #[trigger] self.matches@[j].key by {
                crate::backfill::lemma_backfill_rates_selected(
                    old(self).matches@,
                    old(self).ratings@,
                    old(self).players@,
                    order@,
                );
                assert(old(self).matches@[i].key != old(self).matches@[j].key);
            }
        }
        order
    }

    /// The hourly job: decays the ratings at `now`, then rebuilds the global
    /// leaderboard and the leaderboards of characters `0 .. characters`.
    pub fn hourly(&mut self, now: i64, characters: i16)
        requires
            old(self).wf(),
            characters >= 0,
        ensures
            final(self).wf(),
            final(self).ratings@ == decay_spec(old(self).ratings@, now),
            leaderboard(final(self).ratings@, final(self).players@, None, final(self).global_ranks@),
            final(self).character_ranks@.len() == characters,
            forall|c: int|
                0 <= c < characters ==> leaderboard(
                    final(self).ratings@,
                    final(self).players@,
                    Some(c as i16),
                    (#[trigger] final(self).character_ranks@[c])@,
                ),
            final(self).players@ == old(self).players@,
            final(self).names@ == old(self).names@,
            final(self).matches@ == old(self).matches@,
    {
        decay_all(&mut self.ratings, now);
        self.global_ranks = rebuild_ranks(&self.ratings, &self.players, None);
        let mut boards: Vec<Vec<RankRow>> = Vec::new();
        let mut c: i16 = 0;
        while c < characters
            invariant
                0 <= c <= characters,
                self.wf(),
                boards@.len() == c,
                forall|d: int|
                    0 <= d < c ==> leaderboard(
                        self.ratings@,
                        self.players@,
                        Some(d as i16),
                        (#[trigger] boards@[d])@,
                    ),
            decreases characters - c,
        {
            let board = rebuild_ranks(&self.ratings, &self.players, Some(c));
            boards.push(board);
            c = c + 1;
        }
        self.character_ranks = boards;
    }
}

} // verus!
