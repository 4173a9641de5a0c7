use vstd::prelude::*;

use crate::clock::{parse_timestamp, seconds_of_text};
use crate::store::{
    find_player, has_key, has_player, matches_wf, player_pos, players_wf, MatchKey, MatchRow, NameEntry, Player, Status,
};

verus! {

/// A record that starts more than this many seconds after `now` is future-dated.
pub const FUTURE_TOLERANCE: i64 = 2;

/// One match as the replay source reports it.
#[derive(Clone, Debug)]
pub struct RawMatch {
    pub timestamp: String,
    pub id_a: i64,
    pub name_a: String,
    pub char_a: i16,
    pub platform_a: i16,
    pub id_b: i64,
    pub name_b: String,
    pub char_b: i16,
    pub platform_b: i16,
    pub winner: i16,
    pub floor: i16,
}

/// What one ingested batch changed: how many matches were new, and the effective
/// time of the last new one.
#[derive(Clone, Copy, Debug, PartialEq, Eq, Structural)]
pub struct IngestReport {
    pub inserted: usize,
    pub latest: Option<i64>,
}

/// The tables that ingestion writes, with its running state.
pub struct IngestView {
    pub matches: Seq<MatchRow>,
    pub players: Seq<Player>,
    pub names: Seq<NameEntry>,
    pub offset: int,
    pub inserted: int,
    pub latest: Option<i64>,
}

pub open spec fn key_of(r: RawMatch, ts: i64) -> MatchKey {
    MatchKey {
        timestamp: ts,
        id_a: r.id_a,
        char_a: r.char_a,
        platform_a: r.platform_a,
        id_b: r.id_b,
        char_b: r.char_b,
        platform_b: r.platform_b,
    }
}

/// The player table after seeing `id` with `name` on `platform`: name and platform
/// updated, status and credentials kept; a new player is `Public`, without
/// credentials.
pub open spec fn upsert_spec(ps: Seq<Player>, id: i64, name: String, platform: i16) -> Seq<Player> {
    if has_player(ps, id) {
        let p = player_pos(ps, id);
        ps.update(p, Player { id, name, platform, ..ps[p] })
    } else {
        ps.push(
            Player {
                id,
                name,
                platform,
                status: Status::Public,
                api_key: None,
                rcode_check_code: None,
            },
        )
    }
}

fn copy_text(t: &Option<String>) -> (r: Option<String>)
    ensures
        r == *t,
{
    match t {
        Some(s) => Some(s.clone()),
        None => None,
    }
}

pub open spec fn has_name(ns: Seq<NameEntry>, id: i64, name: Seq<char>) -> bool {
    exists|i: int| 0 <= i < ns.len() && (#[trigger] ns[i]).id == id && ns[i].name@ == name
}

/// The name history after seeing `id` with `name`: the pair is added if absent.
pub open spec fn add_name_spec(ns: Seq<NameEntry>, id: i64, name: String) -> Seq<NameEntry> {
    if has_name(ns, id, name@) {
        ns
    } else {
        ns.push(NameEntry { id, name })
    }
}

/// The corrected timestamp of a record dated `ts`: `now` plus the offset when
/// the record is future-dated, none otherwise.
pub open spec fn correction(ts: int, now: int, offset: int) -> Option<i64> {
    if ts > now + FUTURE_TOLERANCE {
        Some((now + offset) as i64)
    } else {
        None
    }
}

/// Ingesting one record. A record whose timestamp does not parse is skipped.
pub open spec fn ingest_step(v: IngestView, r: RawMatch, now: i64) -> IngestView {
    match seconds_of_text(r.timestamp@) {
        None => v,
        Some(t) => {
            let ts = t as i64;
            let corrected = correction(ts as int, now as int, v.offset);
            let players = upsert_spec(
                upsert_spec(v.players, r.id_a, r.name_a, r.platform_a),
                r.id_b,
                r.name_b,
                r.platform_b,
            );
            let names = add_name_spec(add_name_spec(v.names, r.id_a, r.name_a), r.id_b, r.name_b);
            let key = key_of(r, ts);
            if has_key(v.matches, key) {
                IngestView { players, names, ..v }
            } else {
                let row = MatchRow {
                    key,
                    winner: r.winner,
                    floor: r.floor,
                    corrected,
                    ratings: None,
                };
                IngestView {
                    matches: v.matches.push(row),
                    players,
                    names,
                    offset: if corrected is Some { v.offset + 1 } else { v.offset },
                    inserted: v.inserted + 1,
                    latest: Some(row.effective_spec() as i64),
                }
            }
        },
    }
}

/// Ingesting `records` one after another, in the order given.
pub open spec fn ingest_fold(v: IngestView, records: Seq<RawMatch>, now: i64) -> IngestView
    decreases records.len(),
{
    if records.len() == 0 {
        v
    } else {
        ingest_step(ingest_fold(v, records.drop_last(), now), records.last(), now)
    }
}

/// A batch arrives newest first and is ingested oldest first.
pub open spec fn ingest_spec(
    ms: Seq<MatchRow>,
    ps: Seq<Player>,
    ns: Seq<NameEntry>,
    batch: Seq<RawMatch>,
    now: i64,
) -> IngestView {
    ingest_fold(
        IngestView { matches: ms, players: ps, names: ns, offset: 0, inserted: 0, latest: None },
        batch.reverse(),
        now,
    )
}

proof fn lemma_player_pos_unique(ps: Seq<Player>, id: i64, p: int)
    requires
        players_wf(ps),
        0 <= p < ps.len(),
        ps[p].id == id,
    ensures
        has_player(ps, id),
        player_pos(ps, id) == p,
{
    assert(has_player(ps, id));
    let q = player_pos(ps, id);
    assert(0 <= q < ps.len() && ps[q].id == id);
    if q != p {
        assert(ps[q].id != ps[p].id);
    }
}

fn upsert_player(ps: &mut Vec<Player>, id: i64, name: &String, platform: i16)
    requires
        players_wf(old(ps)@),
    ensures
        final(ps)@ == upsert_spec(old(ps)@, id, *name, platform),
        players_wf(final(ps)@),
{
    match find_player(ps, id) {
        Some(i) => {
            proof {
                lemma_player_pos_unique(ps@, id, i as int);
            }
            let status = ps[i].status;
            let api_key = copy_text(&ps[i].api_key);
            let rcode_check_code = copy_text(&ps[i].rcode_check_code);
            ps.set(i, Player { id, name: name.clone(), platform, status, api_key, rcode_check_code });
            proof {
                assert forall|a: int, b: int|
                    0 <= a < ps@.len() && 0 <= b < ps@.len() && a != b implies #[trigger] ps@[a].id
                    != #[trigger] ps@[b].id by {
                    assert(old(ps)@[a].id != old(ps)@[b].id);
                }
            }
        },
        None => {
            ps.push(
                Player {
                    id,
                    name: name.clone(),
                    platform,
                    status: Status::Public,
                    api_key: None,
                    rcode_check_code: None,
                },
            );
            proof {
                assert(!has_player(old(ps)@, id));
                assert forall|a: int, b: int|
                    0 <= a < ps@.len() && 0 <= b < ps@.len() && a != b implies #[trigger] ps@[a].id
                    != #[trigger] ps@[b].id by {
                    if a < old(ps)@.len() && b < old(ps)@.len() {
                        assert(old(ps)@[a].id != old(ps)@[b].id);
                    }
                }
            }
        },
    }
}

fn add_name(ns: &mut Vec<NameEntry>, id: i64, name: &String)
    ensures
        final(ns)@ == add_name_spec(old(ns)@, id, *name),
{
    let mut i: usize = 0;
    while i < ns.len()
        invariant
            i <= ns@.len(),
            ns@ == old(ns)@,
            forall|j: int| 0 <= j < i ==> !((#[trigger] ns@[j]).id == id && ns@[j].name@ == name@),
        decreases ns@.len() - i,
    {
        if ns[i].id == id && ns[i].name == *name {
            assert(has_name(ns@, id, name@));
            return;
        }
        i = i + 1;
    }
    ns.push(NameEntry { id, name: name.clone() });
}

fn has_match(ms: &Vec<MatchRow>, key: MatchKey) -> (r: bool)
    ensures
        r == has_key(ms@, key),
{
    let mut i: usize = 0;
    while i < ms.len()
        invariant
            i <= ms@.len(),
            forall|j: int| 0 <= j < i ==> (#[trigger] ms@[j]).key != key,
        decreases ms@.len() - i,
    {
        if ms[i].key == key {
            return true;
        }
        i = i + 1;
    }
    false
}

/// Ingests a batch, newest first as the source hands it over, at `now`.
pub fn ingest(
    ms: &mut Vec<MatchRow>,
    ps: &mut Vec<Player>,
    ns: &mut Vec<NameEntry>,
    batch: &Vec<RawMatch>,
    now: i64,
) -> (r: IngestReport)
    requires
        players_wf(old(ps)@),
        matches_wf(old(ms)@),
        now + FUTURE_TOLERANCE + batch@.len() <= i64::MAX,
        batch@.len() <= i64::MAX,
    ensures
        ({
            let v = ingest_spec(old(ms)@, old(ps)@, old(ns)@, batch@, now);
            &&& final(ms)@ == v.matches
            &&& final(ps)@ == v.players
            &&& final(ns)@ == v.names
            &&& r.inserted == v.inserted
            &&& r.latest == v.latest
        }),
        players_wf(final(ps)@),
        matches_wf(final(ms)@),
{
    let ghost records = batch@.reverse();
    let mut offset: i64 = 0;
    let mut inserted: usize = 0;
    let mut latest: Option<i64> = None;
    let mut k: usize = 0;
    let n = batch.len();
    while k < n
        invariant
            n == batch@.len(),
            records == batch@.reverse(),
            k <= n,
            0 <= offset <= k,
            inserted <= k,
            now + FUTURE_TOLERANCE + n <= i64::MAX,
            n <= i64::MAX,
            players_wf(ps@),
            matches_wf(ms@),
            ({
                let v = ingest_fold(
                    IngestView {
                        matches: old(ms)@,
                        players: old(ps)@,
                        names: old(ns)@,
                        offset: 0,
                        inserted: 0,
                        latest: None,
                    },
                    records.take(k as int),
                    now,
                );
                &&& ms@ == v.matches
                &&& ps@ == v.players
                &&& ns@ == v.names
                &&& offset == v.offset
                &&& inserted == v.inserted
                &&& latest == v.latest
            }),
        decreases n - k,
    {
        let r = &batch[n - 1 - k];
        proof {
            assert(records[k as int] == batch@[n - 1 - k]);
            let t = records.take(k as int + 1);
            assert(t.drop_last() =~= records.take(k as int));
            assert(t.last() == *r);
        }
        match parse_timestamp(r.timestamp.as_str()) {
            None => {},
            Some(ts) => {
                let corrected = if ts > now + FUTURE_TOLERANCE {
                    Some(now + offset)
                } else {
                    None
                };
                upsert_player(ps, r.id_a, &r.name_a, r.platform_a);
                upsert_player(ps, r.id_b, &r.name_b, r.platform_b);
                add_name(ns, r.id_a, &r.name_a);
                add_name(ns, r.id_b, &r.name_b);
                let key = MatchKey {
                    timestamp: ts,
                    id_a: r.id_a,
                    char_a: r.char_a,
                    platform_a: r.platform_a,
                    id_b: r.id_b,
                    char_b: r.char_b,
                    platform_b: r.platform_b,
                };
                if !has_match(ms, key) {
                    let row = MatchRow {
                        key,
                        winner: r.winner,
                        floor: r.floor,
                        corrected,
                        ratings: None,
                    };
                    let ghost before = ms@;
                    ms.push(row);
                    proof {
                        assert forall|a: int, b: int|
                            0 <= a < ms@.len() && 0 <= b < ms@.len() && a != b implies #[trigger] ms@[a].key
                            != #[trigger] ms@[b].key by {
                            if a < before.len() && b < before.len() {
                                assert(before[a].key != before[b].key);
                            } else if a < before.len() {
                                assert(before[a].key != key);
                            } else {
                                assert(before[b].key != key);
                            }
                        }
                    }
                    if corrected.is_some() {
                        offset = offset + 1;
                    }
                    inserted = inserted + 1;
                    latest = Some(row.effective_time());
                }
            },
        }
        k = k + 1;
    }
    proof {
        assert(records.take(n as int) =~= records);
    }
    IngestReport { inserted, latest }
}

/// The corrections among the rows from position `base` on are at least `now`,
/// below `now` plus the offset, and strictly increase with position.
pub open spec fn corrections_ordered(v: IngestView, base: int, now: int) -> bool {
    &&& 0 <= base <= v.matches.len()
    &&& 0 <= v.offset
    &&& forall|i: int|
        base <= i < v.matches.len() ==> match (#[trigger] v.matches[i]).corrected {
            Some(c) => now <= c < now + v.offset,
            None => true,
        }
    &&& forall|i: int|
        base <= i < v.matches.len() ==> (#[trigger] v.matches[i]).ratings is None && (
        v.matches[i].corrected is Some <==> v.matches[i].key.timestamp > now + FUTURE_TOLERANCE)
    &&& forall|a: int, b: int|
        base <= a < b < v.matches.len() && (#[trigger] v.matches[a]).corrected is Some && (
        #[trigger] v.matches[b]).corrected is Some ==> v.matches[a].corrected.unwrap()
            < v.matches[b].corrected.unwrap()
}

proof fn lemma_step_keeps_rows(w: IngestView, r: RawMatch, now: i64)
    ensures
        ingest_step(w, r, now).matches.len() == w.matches.len() ==> ingest_step(w, r, now).matches
            == w.matches,
        ingest_step(w, r, now).matches.len() == w.matches.len() || ingest_step(w, r, now).matches
            == w.matches.push(ingest_step(w, r, now).matches.last()),
        ingest_step(w, r, now).matches.len() >= w.matches.len(),
        forall|i: int|
            0 <= i < w.matches.len() ==> #[trigger] ingest_step(w, r, now).matches[i] == w.matches[i],
{
    let w2 = ingest_step(w, r, now);
    match seconds_of_text(r.timestamp@) {
        None => {},
        Some(t) => {
            if !has_key(w.matches, key_of(r, t as i64)) {
                assert(w2.matches == w.matches.push(w2.matches.last()));
            }
        },
    }
}

proof fn lemma_fold_corrections(v: IngestView, records: Seq<RawMatch>, now: i64, base: int)
    requires
        corrections_ordered(v, base, now as int),
        now + FUTURE_TOLERANCE + v.offset + records.len() <= i64::MAX,
    ensures
        corrections_ordered(ingest_fold(v, records, now), base, now as int),
        ingest_fold(v, records, now).offset <= v.offset + records.len(),
    decreases records.len(),
{
    if records.len() > 0 {
        lemma_fold_corrections(v, records.drop_last(), now, base);
        let w = ingest_fold(v, records.drop_last(), now);
        let w2 = ingest_step(w, records.last(), now);
        assert(w2 == ingest_fold(v, records, now));
        lemma_step_keeps_rows(w, records.last(), now);
        if w2.matches.len() > w.matches.len() {
            assert forall|i: int| base <= i < w2.matches.len() implies match (
            #[trigger] w2.matches[i]).corrected {
                Some(c) => now <= c < now + w2.offset,
                None => true,
            } by {
                if i < w.matches.len() {
                    assert(w2.matches[i] == w.matches[i]);
                }
            }
            assert forall|a: int, b: int|
                base <= a < b < w2.matches.len() && (#[trigger] w2.matches[a]).corrected is Some && (
                #[trigger] w2.matches[b]).corrected is Some implies w2.matches[a].corrected.unwrap()
                < w2.matches[b].corrected.unwrap() by {
                assert(w2.matches[a] == w.matches[a]);
                if b < w.matches.len() {
                    assert(w2.matches[b] == w.matches[b]);
                }
            }
        }
    }
}

/// The rows a batch adds are unrated. Exactly those dated more than the
/// tolerance after `now` get a corrected timestamp; corrections are at least
/// `now` and strictly increase in the order in which the rows were added.
pub proof fn lemma_corrections_increase(
    ms: Seq<MatchRow>,
    ps: Seq<Player>,
    ns: Seq<NameEntry>,
    batch: Seq<RawMatch>,
    now: i64,
)
    requires
        now + FUTURE_TOLERANCE + batch.len() <= i64::MAX,
    ensures
        ({
            let out = ingest_spec(ms, ps, ns, batch, now).matches;
            &&& forall|i: int|
                ms.len() <= i < out.len() ==> match (#[trigger] out[i]).corrected {
                    Some(c) => now <= c,
                    None => true,
                }
            &&& forall|a: int, b: int|
                ms.len() <= a < b < out.len() && (#[trigger] out[a]).corrected is Some && (
                #[trigger] out[b]).corrected is Some ==> out[a].corrected.unwrap()
                    < out[b].corrected.unwrap()
            &&& forall|i: int|
                ms.len() <= i < out.len() ==> (#[trigger] out[i]).ratings is None && (
                out[i].corrected is Some <==> out[i].key.timestamp > now + FUTURE_TOLERANCE)
        }),
{
    let v = IngestView { matches: ms, players: ps, names: ns, offset: 0, inserted: 0, latest: None };
    lemma_fold_corrections(v, batch.reverse(), now, ms.len() as int);
}

proof fn lemma_fold_keeps_rows(v: IngestView, records: Seq<RawMatch>, now: i64)
    ensures
        ingest_fold(v, records, now).matches.len() >= v.matches.len(),
        forall|i: int|
            0 <= i < v.matches.len() ==> #[trigger] ingest_fold(v, records, now).matches[i]
                == v.matches[i],
    decreases records.len(),
{
    if records.len() > 0 {
        lemma_fold_keeps_rows(v, records.drop_last(), now);
        lemma_step_keeps_rows(ingest_fold(v, records.drop_last(), now), records.last(), now);
    }
}

proof fn lemma_fold_has_keys(v: IngestView, records: Seq<RawMatch>, now: i64)
    ensures
        forall|k: int|
            0 <= k < records.len() && (#[trigger] seconds_of_text(records[k].timestamp@)) is Some
                ==> has_key(
                ingest_fold(v, records, now).matches,
                key_of(records[k], seconds_of_text(records[k].timestamp@).unwrap() as i64),
            ),
    decreases records.len(),
{
    if records.len() > 0 {
        let init = records.drop_last();
        lemma_fold_has_keys(v, init, now);
        let w = ingest_fold(v, init, now);
        let w2 = ingest_fold(v, records, now);
        assert(w2 == ingest_step(w, records.last(), now));
        lemma_step_keeps_rows(w, records.last(), now);
        assert forall|k: int|
            0 <= k < records.len() && (#[trigger] seconds_of_text(records[k].timestamp@)) is Some
                implies has_key(
            w2.matches,
            key_of(records[k], seconds_of_text(records[k].timestamp@).unwrap() as i64),
        ) by {
            let key = key_of(records[k], seconds_of_text(records[k].timestamp@).unwrap() as i64);
            if k < init.len() {
                assert(init[k] == records[k]);
                assert(seconds_of_text(init[k].timestamp@) is Some);
                assert(has_key(w.matches, key));
                let i = choose|i: int| 0 <= i < w.matches.len() && #[trigger] w.matches[i].key == key;
                assert(w2.matches[i] == w.matches[i]);
            } else {
                assert(records[k] == records.last());
                if !has_key(w.matches, key) {
                    assert(w2.matches[w.matches.len() as int].key == key);
                } else {
                    let i = choose|i: int| 0 <= i < w.matches.len() && #[trigger] w.matches[i].key == key;
                    assert(w2.matches[i] == w.matches[i]);
                }
            }
        }
    }
}

proof fn lemma_fold_adds_nothing(v: IngestView, records: Seq<RawMatch>, now: i64)
    requires
        forall|k: int|
            0 <= k < records.len() && (#[trigger] seconds_of_text(records[k].timestamp@)) is Some
                ==> has_key(
                v.matches,
                key_of(records[k], seconds_of_text(records[k].timestamp@).unwrap() as i64),
            ),
    ensures
        ingest_fold(v, records, now).matches == v.matches,
        ingest_fold(v, records, now).inserted == v.inserted,
    decreases records.len(),
{
    if records.len() > 0 {
        let init = records.drop_last();
        assert forall|k: int|
            0 <= k < init.len() && (#[trigger] seconds_of_text(init[k].timestamp@)) is Some implies has_key(
            v.matches,
            key_of(init[k], seconds_of_text(init[k].timestamp@).unwrap() as i64),
        ) by {
            assert(init[k] == records[k]);
        }
        lemma_fold_adds_nothing(v, init, now);
        let last = records.len() - 1;
        assert(records[last] == records.last());
    }
}

/// Ingestion never changes rows that were already stored; and ingesting the same
/// batch again, at any time, adds no row.
pub proof fn lemma_ingest_idempotent(
    ms: Seq<MatchRow>,
    ps: Seq<Player>,
    ns: Seq<NameEntry>,
    batch: Seq<RawMatch>,
    now: i64,
    later: i64,
)
    ensures
        ({
            let v1 = ingest_spec(ms, ps, ns, batch, now);
            let v2 = ingest_spec(v1.matches, v1.players, v1.names, batch, later);
            &&& v1.matches.len() >= ms.len()
            &&& forall|i: int| 0 <= i < ms.len() ==> #[trigger] v1.matches[i] == ms[i]
            &&& v2.matches == v1.matches
            &&& v2.inserted == 0
            &&& forall|k: int|
                0 <= k < batch.len() && (#[trigger] seconds_of_text(batch[k].timestamp@)) is Some
                    ==> has_key(
                    v1.matches,
                    key_of(batch[k], seconds_of_text(batch[k].timestamp@).unwrap() as i64),
                )
        }),
{
    let v = IngestView { matches: ms, players: ps, names: ns, offset: 0, inserted: 0, latest: None };
    let records = batch.reverse();
    lemma_fold_keeps_rows(v, records, now);
    lemma_fold_has_keys(v, records, now);
    let v1 = ingest_fold(v, records, now);
    let w = IngestView {
        matches: v1.matches,
        players: v1.players,
        names: v1.names,
        offset: 0,
        inserted: 0,
        latest: None,
    };
    lemma_fold_adds_nothing(w, records, later);
    assert forall|k: int|
        0 <= k < batch.len() && (#[trigger] seconds_of_text(batch[k].timestamp@)) is Some implies has_key(
        v1.matches,
        key_of(batch[k], seconds_of_text(batch[k].timestamp@).unwrap() as i64),
    ) by {
        let j = batch.len() - 1 - k;
        assert(records[j] == batch[k]);
        assert(seconds_of_text(records[j].timestamp@) is Some);
    }
}

} // verus!
