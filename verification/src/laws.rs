//! What the merge engine guarantees, stated and proved over the merge fold:
//! one station per identity whose price list unifies the observations' fuel
//! types, unresolved observations dropped, idempotence of a repeated merge,
//! isolation of a failed fetch, and no rollback of previously cached data.

use vstd::prelude::*;

use crate::PetroleumType;
use crate::merge::{
    add_price, add_prices, cache_ok, fresh_station, has_type, merge_lists, merge_one, merge_seq,
    merged_station, obs_district_id, obs_ok, prices_unique, row_find, row_ok, lemma_row_find,
};
use crate::price::PriceModel;
use crate::station::{StationModel, station_key};

verus! {

// ------------------------------------------------------------------
// Fuel types carried by a price list, as a set.
// ------------------------------------------------------------------

/// The set of fuel types that have a reading.
pub open spec fn type_set(ps: Seq<PriceModel>) -> Set<PetroleumType> {
    Set::new(|t: PetroleumType| has_type(ps, t))
}

/// Folding in one reading adds exactly its fuel type.
proof fn lemma_add_price_types(ps: Seq<PriceModel>, p: PriceModel)
    ensures
        type_set(add_price(ps, p)) == type_set(ps).insert(p.p_type),
        add_price(ps, p).len() >= ps.len(),
        prices_unique(ps) ==> prices_unique(add_price(ps, p)),
{
    if has_type(ps, p.p_type) {
        assert(type_set(ps).contains(p.p_type));
        assert(type_set(add_price(ps, p)) =~= type_set(ps).insert(p.p_type));
    } else {
        let q = ps.push(p);
        assert forall|t: PetroleumType| #[trigger]
            type_set(q).contains(t) <==> type_set(ps).insert(p.p_type).contains(t) by {
            if has_type(q, t) {
                let i = choose|i: int| 0 <= i < q.len() && q[i].p_type == t;
                if i < ps.len() {
                    assert(ps[i].p_type == t);
                } else {
                    assert(q[i] == p);
                }
            }
            if has_type(ps, t) {
                let i = choose|i: int| 0 <= i < ps.len() && ps[i].p_type == t;
                assert(q[i].p_type == t);
            }
            if t == p.p_type {
                assert(q[ps.len() as int].p_type == t);
            }
        }
        assert(type_set(add_price(ps, p)) =~= type_set(ps).insert(p.p_type));
        if prices_unique(ps) {
            assert forall|a: int, b: int|
                0 <= a < b < q.len() implies (#[trigger] q[a]).p_type != (
            #[trigger] q[b]).p_type by {
                if b < ps.len() {
                    assert(q[a] == ps[a] && q[b] == ps[b]);
                } else {
                    assert(q[b] == p);
                    assert(q[a] == ps[a]);
                    assert(!has_type(ps, p.p_type));
                }
            }
        }
    }
}

/// Folding in a reading list adds exactly its fuel types; it never shrinks
/// the list and keeps readings unique per fuel type.
proof fn lemma_add_prices_types(ps: Seq<PriceModel>, new: Seq<PriceModel>)
    ensures
        type_set(add_prices(ps, new)) == type_set(ps).union(type_set(new)),
        add_prices(ps, new).len() >= ps.len(),
        ps.len() > 0 || new.len() > 0 ==> add_prices(ps, new).len() > 0,
        prices_unique(ps) ==> prices_unique(add_prices(ps, new)),
    decreases new.len(),
{
    if new.len() == 0 {
        assert(type_set(new) =~= Set::<PetroleumType>::empty());
        assert(type_set(ps).union(type_set(new)) =~= type_set(ps));
    } else {
        lemma_add_price_types(ps, new[0]);
        lemma_add_prices_types(add_price(ps, new[0]), new.drop_first());
        assert forall|t: PetroleumType| #[trigger]
            type_set(new).contains(t) <==> type_set(new.drop_first()).insert(
            new[0].p_type,
        ).contains(t) by {
            if has_type(new, t) {
                let i = choose|i: int| 0 <= i < new.len() && new[i].p_type == t;
                if i > 0 {
                    assert(new.drop_first()[i - 1].p_type == t);
                }
            }
            if has_type(new.drop_first(), t) {
                let i = choose|i: int|
                    0 <= i < new.drop_first().len() && new.drop_first()[i].p_type == t;
                assert(new[i + 1].p_type == t);
            }
        }
        assert(type_set(new) =~= type_set(new.drop_first()).insert(new[0].p_type));
        assert(type_set(add_prices(ps, new)) =~= type_set(ps).union(type_set(new)));
        if add_price(ps, new[0]).len() == 0 {
            assert(ps.len() == 0 && has_type(ps, new[0].p_type));
            assert(false);
        }
    }
}

/// Folding in readings whose fuel types are all present changes nothing.
proof fn lemma_add_prices_absorbed(ps: Seq<PriceModel>, new: Seq<PriceModel>)
    requires
        type_set(new).subset_of(type_set(ps)),
    ensures
        add_prices(ps, new) == ps,
    decreases new.len(),
{
    if new.len() > 0 {
        assert(type_set(new).contains(new[0].p_type));
        assert(has_type(ps, new[0].p_type));
        assert(add_price(ps, new[0]) == ps);
        assert forall|t: PetroleumType| #[trigger]
            type_set(new.drop_first()).contains(t) implies type_set(ps).contains(t) by {
            let i = choose|i: int|
                0 <= i < new.drop_first().len() && new.drop_first()[i].p_type == t;
            assert(new[i + 1].p_type == t);
            assert(type_set(new).contains(t));
        }
        lemma_add_prices_absorbed(ps, new.drop_first());
    }
}

// ------------------------------------------------------------------
// The cache invariants survive a merge.
// ------------------------------------------------------------------

/// One merged observation keeps every row well formed.
proof fn lemma_merge_one_ok(m: Map<Seq<char>, Seq<StationModel>>, s: StationModel)
    requires
        cache_ok(m),
        s.prices.len() > 0,
    ensures
        cache_ok(merge_one(m, s)),
{
    match obs_district_id(s) {
        None => {},
        Some(did) => {
            let row = if m.contains_key(did) {
                m[did]
            } else {
                Seq::<StationModel>::empty()
            };
            assert(row_ok(row));
            let i = row_find(row, station_key(s));
            lemma_row_find(row, station_key(s));
            if i >= 0 {
                let merged = merged_station(row[i], s);
                lemma_add_prices_types(row[i].prices, s.prices);
                assert(station_key(merged) == station_key(row[i]));
                let row2 = row.update(i, merged);
                assert forall|a: int, b: int|
                    0 <= a < b < row2.len() implies station_key(#[trigger] row2[a]) != station_key(
                    #[trigger] row2[b],
                ) by {
                    assert(station_key(row2[a]) == station_key(row[a]));
                    assert(station_key(row2[b]) == station_key(row[b]));
                }
                assert(row_ok(row2));
            } else {
                let fresh = fresh_station(s);
                lemma_add_prices_types(Seq::<PriceModel>::empty(), s.prices);
                assert(type_set(Seq::<PriceModel>::empty()) =~= Set::<PetroleumType>::empty());
                assert(prices_unique(Seq::<PriceModel>::empty()));
                let row2 = row.push(fresh);
                assert(station_key(fresh) == station_key(s));
                assert forall|a: int, b: int|
                    0 <= a < b < row2.len() implies station_key(#[trigger] row2[a]) != station_key(
                    #[trigger] row2[b],
                ) by {
                    if b < row.len() {
                        assert(row2[a] == row[a] && row2[b] == row[b]);
                    } else {
                        assert(row2[b] == fresh);
                        assert(row2[a] == row[a]);
                        assert(station_key(row[a]) != station_key(s));
                    }
                }
                assert(row_ok(row2));
            }
            assert forall|d: Seq<char>| merge_one(m, s).contains_key(d) implies row_ok(
                #[trigger] merge_one(m, s)[d],
            ) by {
                if d != did {
                    assert(merge_one(m, s)[d] == m[d]);
                }
            }
        },
    }
}

/// A merged observation sequence keeps every row well formed.
pub proof fn lemma_merge_seq_ok(m: Map<Seq<char>, Seq<StationModel>>, obs: Seq<StationModel>)
    requires
        cache_ok(m),
        obs_ok(obs),
    ensures
        cache_ok(merge_seq(m, obs)),
    decreases obs.len(),
{
    if obs.len() > 0 {
        lemma_merge_one_ok(m, obs[0]);
        assert(obs_ok(obs.drop_first()));
        lemma_merge_seq_ok(merge_one(m, obs[0]), obs.drop_first());
    }
}

/// Merged observation lists keep every row well formed.
pub proof fn lemma_merge_lists_ok(
    m: Map<Seq<char>, Seq<StationModel>>,
    lists: Seq<Seq<StationModel>>,
)
    requires
        cache_ok(m),
        forall|i: int| 0 <= i < lists.len() ==> obs_ok(#[trigger] lists[i]),
    ensures
        cache_ok(merge_lists(m, lists)),
    decreases lists.len(),
{
    if lists.len() > 0 {
        lemma_merge_seq_ok(m, lists[0]);
        lemma_merge_lists_ok(merge_seq(m, lists[0]), lists.drop_first());
    }
}

// ------------------------------------------------------------------
// Where a station stands after a merge, and with which fuel types.
// ------------------------------------------------------------------

/// Whether some station in the row has identity `k`.
pub open spec fn row_has_key(row: Seq<StationModel>, k: (Seq<char>, Seq<char>)) -> bool {
    exists|i: int| 0 <= i < row.len() && station_key(#[trigger] row[i]) == k
}

/// Whether the cache holds a station with identity `k` under district `did`.
pub open spec fn cache_has_station(
    m: Map<Seq<char>, Seq<StationModel>>,
    did: Seq<char>,
    k: (Seq<char>, Seq<char>),
) -> bool {
    m.contains_key(did) && row_has_key(m[did], k)
}

/// The first station in the row with identity `k`.
pub open spec fn row_station(row: Seq<StationModel>, k: (Seq<char>, Seq<char>)) -> StationModel {
    row[row_find(row, k)]
}

/// The fuel types of the station cached under `did` with identity `k`; empty
/// when there is none.
pub open spec fn station_types_at(
    m: Map<Seq<char>, Seq<StationModel>>,
    did: Seq<char>,
    k: (Seq<char>, Seq<char>),
) -> Set<PetroleumType> {
    if cache_has_station(m, did, k) {
        type_set(row_station(m[did], k).prices)
    } else {
        Set::empty()
    }
}

/// Whether the observation lands under district `did` with identity `k`.
pub open spec fn obs_resolves_to(
    s: StationModel,
    did: Seq<char>,
    k: (Seq<char>, Seq<char>),
) -> bool {
    obs_district_id(s) == Some(did) && station_key(s) == k
}

/// A key is in a row exactly when `row_find` finds it.
proof fn lemma_row_has_key_find(row: Seq<StationModel>, k: (Seq<char>, Seq<char>))
    ensures
        row_has_key(row, k) <==> row_find(row, k) >= 0,
{
    lemma_row_find(row, k);
    if row_find(row, k) >= 0 {
        assert(station_key(row[row_find(row, k)]) == k);
    } else if row_has_key(row, k) {
        let i = choose|i: int| 0 <= i < row.len() && station_key(#[trigger] row[i]) == k;
        assert(station_key(row[i]) != k);
    }
}

/// `row_find` only looks at identities.
proof fn lemma_row_find_same_keys(
    r1: Seq<StationModel>,
    r2: Seq<StationModel>,
    k: (Seq<char>, Seq<char>),
)
    requires
        r1.len() == r2.len(),
        forall|i: int|
            0 <= i < r1.len() ==> station_key(#[trigger] r1[i]) == station_key(#[trigger] r2[i]),
    ensures
        row_find(r1, k) == row_find(r2, k),
    decreases r1.len(),
{
    if r1.len() > 0 {
        assert(station_key(r1[0]) == station_key(r2[0]));
        assert forall|i: int|
            0 <= i < r1.drop_first().len() implies station_key(#[trigger] r1.drop_first()[i])
            == station_key(#[trigger] r2.drop_first()[i]) by {
            assert(r1.drop_first()[i] == r1[i + 1]);
            assert(r2.drop_first()[i] == r2[i + 1]);
        }
        lemma_row_find_same_keys(r1.drop_first(), r2.drop_first(), k);
    }
}

/// Appending a station of another identity leaves `row_find` unchanged.
proof fn lemma_row_find_push_ne(row: Seq<StationModel>, x: StationModel, k: (Seq<char>, Seq<char>))
    requires
        station_key(x) != k,
    ensures
        row_find(row.push(x), k) == row_find(row, k),
    decreases row.len(),
{
    let q = row.push(x);
    if row.len() == 0 {
        assert(q[0] == x);
        assert(q.drop_first() =~= Seq::<StationModel>::empty());
        assert(row_find(q.drop_first(), k) == -1);
        assert(row_find(q, k) == -1);
    } else {
        assert(q[0] == row[0]);
        if station_key(row[0]) == k {
            assert(row_find(q, k) == 0);
        } else {
            assert(q.drop_first() =~= row.drop_first().push(x));
            lemma_row_find_push_ne(row.drop_first(), x, k);
            assert(row_find(q, k) == row_find(row, k));
        }
    }
}

/// One merged observation, seen at a single district and identity: the
/// station appears exactly when it was there or the observation lands there,
/// and its fuel types gain exactly the observation's.
proof fn lemma_merge_one_at(
    m: Map<Seq<char>, Seq<StationModel>>,
    s: StationModel,
    did: Seq<char>,
    k: (Seq<char>, Seq<char>),
)
    ensures
        cache_has_station(merge_one(m, s), did, k) <==> cache_has_station(m, did, k)
            || obs_resolves_to(s, did, k),
        station_types_at(merge_one(m, s), did, k) == station_types_at(m, did, k).union(
            if obs_resolves_to(s, did, k) {
                type_set(s.prices)
            } else {
                Set::<PetroleumType>::empty()
            },
        ),
{
    match obs_district_id(s) {
        None => {
            assert(station_types_at(m, did, k).union(Set::<PetroleumType>::empty())
                =~= station_types_at(m, did, k));
        },
        Some(dids) => {
            let row = if m.contains_key(dids) {
                m[dids]
            } else {
                Seq::<StationModel>::empty()
            };
            let i = row_find(row, station_key(s));
            lemma_row_find(row, station_key(s));
            lemma_row_has_key_find(row, station_key(s));
            let m2 = merge_one(m, s);
            if did != dids {
                assert(m2[did] == m[did] || !m.contains_key(did));
                assert(m2.contains_key(did) == m.contains_key(did));
                if m.contains_key(did) {
                    assert(m2[did] == m[did]);
                }
                assert(!obs_resolves_to(s, did, k));
                assert(station_types_at(m2, did, k) =~= station_types_at(m, did, k).union(
                    Set::<PetroleumType>::empty(),
                ));
            } else {
                let row2 = m2[did];
                assert(m2.contains_key(did));
                if k == station_key(s) {
                    assert(obs_resolves_to(s, did, k));
                    if i >= 0 {
                        // The station existed; its prices gain the observation's.
                        let merged = merged_station(row[i], s);
                        assert(row2 == row.update(i, merged));
                        assert(station_key(row2[i]) == k);
                        assert(row_has_key(row2, k));
                        assert(row_has_key(row, k));
                        assert(cache_has_station(m, did, k) == m.contains_key(did));
                        assert forall|j: int|
                            0 <= j < row.len() implies station_key(#[trigger] row[j])
                            == station_key(#[trigger] row2[j]) by {
                            if j != i {
                                assert(row2[j] == row[j]);
                            }
                        }
                        lemma_row_find_same_keys(row, row2, k);
                        assert(row_find(row2, k) == i);
                        assert(row_station(row2, k) == merged);
                        lemma_add_prices_types(row[i].prices, s.prices);
                        assert(m.contains_key(did));
                        assert(row_station(m[did], k) == row[i]);
                        assert(station_types_at(m2, did, k) == type_set(row[i].prices).union(
                            type_set(s.prices),
                        ));
                    } else {
                        // The station is new in this row.
                        let fresh = fresh_station(s);
                        assert(row2 == row.push(fresh));
                        assert(station_key(row2[row.len() as int]) == k);
                        assert(row_has_key(row2, k));
                        assert(!row_has_key(row, k));
                        assert(!cache_has_station(m, did, k));
                        lemma_row_find(row2, k);
                        lemma_row_has_key_find(row2, k);
                        let f = row_find(row2, k);
                        assert(f >= 0);
                        if f < row.len() {
                            assert(row2[f] == row[f]);
                            assert(station_key(row[f]) != k);
                            assert(false);
                        }
                        assert(f == row.len());
                        assert(row_station(row2, k) == fresh);
                        lemma_add_prices_types(Seq::<PriceModel>::empty(), s.prices);
                        assert(type_set(Seq::<PriceModel>::empty())
                            =~= Set::<PetroleumType>::empty());
                        assert(station_types_at(m2, did, k) == Set::<PetroleumType>::empty().union(
                            type_set(s.prices),
                        ));
                        assert(station_types_at(m2, did, k) =~= station_types_at(
                            m,
                            did,
                            k,
                        ).union(type_set(s.prices)));
                    }
                } else {
                    // Another identity in the same district: untouched.
                    assert(!obs_resolves_to(s, did, k));
                    if i >= 0 {
                        let merged = merged_station(row[i], s);
                        assert(row2 == row.update(i, merged));
                        assert forall|j: int|
                            0 <= j < row.len() implies station_key(#[trigger] row[j])
                            == station_key(#[trigger] row2[j]) by {
                            if j != i {
                                assert(row2[j] == row[j]);
                            }
                        }
                        lemma_row_find_same_keys(row, row2, k);
                        lemma_row_has_key_find(row, k);
                        lemma_row_has_key_find(row2, k);
                        lemma_row_find(row, k);
                        let f = row_find(row, k);
                        if f >= 0 {
                            assert(station_key(row[f]) == k);
                            assert(f != i);
                            assert(row2[f] == row[f]);
                            assert(row_station(row2, k) == row_station(row, k));
                        }
                        if row_has_key(row2, k) {
                            assert(row_has_key(row, k));
                        }
                    } else {
                        let fresh = fresh_station(s);
                        assert(row2 == row.push(fresh));
                        assert(station_key(fresh) == station_key(s));
                        lemma_row_find_push_ne(row, fresh, k);
                        lemma_row_has_key_find(row, k);
                        lemma_row_has_key_find(row2, k);
                        lemma_row_find(row, k);
                        let f = row_find(row, k);
                        if f >= 0 {
                            assert(row2[f] == row[f]);
                            assert(row_station(row2, k) == row_station(row, k));
                        }
                    }
                    // Presence under `did` for the other identity is unchanged;
                    // the cache held the row exactly when it was a real row.
                    if cache_has_station(m2, did, k) {
                        assert(row_has_key(row, k));
                        if !m.contains_key(did) {
                            assert(row =~= Seq::<StationModel>::empty());
                            assert(false);
                        }
                    }
                    assert(station_types_at(m2, did, k) =~= station_types_at(m, did, k).union(
                        Set::<PetroleumType>::empty(),
                    ));
                }
            }
        },
    }
}

/// Whether any observation lands under district `did` with identity `k`.
pub open spec fn obs_contributes(
    obs: Seq<StationModel>,
    did: Seq<char>,
    k: (Seq<char>, Seq<char>),
) -> bool {
    exists|i: int| 0 <= i < obs.len() && obs_resolves_to(#[trigger] obs[i], did, k)
}

/// The fuel types the observations contribute under district `did` and
/// identity `k`.
pub open spec fn obs_type_set(
    obs: Seq<StationModel>,
    did: Seq<char>,
    k: (Seq<char>, Seq<char>),
) -> Set<PetroleumType> {
    Set::new(
        |t: PetroleumType|
            exists|i: int|
                0 <= i < obs.len() && obs_resolves_to(#[trigger] obs[i], did, k) && has_type(
                    obs[i].prices,
                    t,
                ),
    )
}

/// A merged observation sequence, seen at a single district and identity.
proof fn lemma_merge_seq_at(
    m: Map<Seq<char>, Seq<StationModel>>,
    obs: Seq<StationModel>,
    did: Seq<char>,
    k: (Seq<char>, Seq<char>),
)
    ensures
        cache_has_station(merge_seq(m, obs), did, k) <==> cache_has_station(m, did, k)
            || obs_contributes(obs, did, k),
        station_types_at(merge_seq(m, obs), did, k) == station_types_at(m, did, k).union(
            obs_type_set(obs, did, k),
        ),
    decreases obs.len(),
{
    if obs.len() == 0 {
        assert(obs_type_set(obs, did, k) =~= Set::<PetroleumType>::empty());
        assert(station_types_at(m, did, k).union(obs_type_set(obs, did, k)) =~= station_types_at(
            m,
            did,
            k,
        ));
    } else {
        let s0 = obs[0];
        let rest = obs.drop_first();
        lemma_merge_one_at(m, s0, did, k);
        lemma_merge_seq_at(merge_one(m, s0), rest, did, k);
        // The head and the tail together contribute what the whole does.
        assert(obs_contributes(obs, did, k) <==> (obs_resolves_to(s0, did, k) || obs_contributes(
            rest,
            did,
            k,
        ))) by {
            if obs_contributes(obs, did, k) {
                let i = choose|i: int|
                    0 <= i < obs.len() && obs_resolves_to(#[trigger] obs[i], did, k);
                if i > 0 {
                    assert(rest[i - 1] == obs[i]);
                    assert(obs_resolves_to(rest[i - 1], did, k));
                }
            }
            if obs_contributes(rest, did, k) {
                let i = choose|i: int|
                    0 <= i < rest.len() && obs_resolves_to(#[trigger] rest[i], did, k);
                assert(obs[i + 1] == rest[i]);
                assert(obs_resolves_to(obs[i + 1], did, k));
            }
        }
        let head_types = if obs_resolves_to(s0, did, k) {
            type_set(s0.prices)
        } else {
            Set::<PetroleumType>::empty()
        };
        assert forall|t: PetroleumType| #[trigger]
            obs_type_set(obs, did, k).contains(t) <==> head_types.union(
            obs_type_set(rest, did, k),
        ).contains(t) by {
            if obs_type_set(obs, did, k).contains(t) {
                let i = choose|i: int|
                    0 <= i < obs.len() && obs_resolves_to(#[trigger] obs[i], did, k) && has_type(
                        obs[i].prices,
                        t,
                    );
                if i > 0 {
                    assert(rest[i - 1] == obs[i]);
                    assert(obs_resolves_to(rest[i - 1], did, k) && has_type(
                        rest[i - 1].prices,
                        t,
                    ));
                    assert(obs_type_set(rest, did, k).contains(t));
                }
            }
            if head_types.contains(t) {
                assert(obs_resolves_to(obs[0], did, k) && has_type(obs[0].prices, t));
            }
            if obs_type_set(rest, did, k).contains(t) {
                let i = choose|i: int|
                    0 <= i < rest.len() && obs_resolves_to(#[trigger] rest[i], did, k) && has_type(
                        rest[i].prices,
                        t,
                    );
                assert(obs[i + 1] == rest[i]);
                assert(obs_resolves_to(obs[i + 1], did, k) && has_type(obs[i + 1].prices, t));
            }
        }
        assert(obs_type_set(obs, did, k) =~= head_types.union(obs_type_set(rest, did, k)));
        assert(station_types_at(m, did, k).union(head_types).union(obs_type_set(rest, did, k))
            =~= station_types_at(m, did, k).union(obs_type_set(obs, did, k)));
    }
}

// ------------------------------------------------------------------
// Absorption: merging the same observations again changes nothing.
// ------------------------------------------------------------------

/// Whether the cache already carries everything the observation would add.
pub open spec fn absorbed(m: Map<Seq<char>, Seq<StationModel>>, s: StationModel) -> bool {
    match obs_district_id(s) {
        None => true,
        Some(did) => cache_has_station(m, did, station_key(s)) && type_set(s.prices).subset_of(
            station_types_at(m, did, station_key(s)),
        ),
    }
}

/// Merging an absorbed observation changes nothing.
proof fn lemma_absorbed_noop(m: Map<Seq<char>, Seq<StationModel>>, s: StationModel)
    requires
        cache_ok(m),
        absorbed(m, s),
    ensures
        merge_one(m, s) == m,
{
    match obs_district_id(s) {
        None => {},
        Some(did) => {
            let k = station_key(s);
            let row = m[did];
            lemma_row_has_key_find(row, k);
            lemma_row_find(row, k);
            let i = row_find(row, k);
            assert(i >= 0);
            assert(row_station(row, k) == row[i]);
            assert(station_types_at(m, did, k) == type_set(row[i].prices));
            lemma_add_prices_absorbed(row[i].prices, s.prices);
            assert(row_ok(row));
            assert(row[i].district is None);
            let merged = merged_station(row[i], s);
            assert(merged =~= row[i]);
            assert(row.update(i, merged) =~= row);
            assert(m.insert(did, row.update(i, merged)) =~= m);
        },
    }
}

/// Once merged, an observation is absorbed.
proof fn lemma_merge_one_absorbs(m: Map<Seq<char>, Seq<StationModel>>, s: StationModel)
    ensures
        absorbed(merge_one(m, s), s),
{
    match obs_district_id(s) {
        None => {},
        Some(did) => {
            let k = station_key(s);
            lemma_merge_one_at(m, s, did, k);
            assert forall|t: PetroleumType| type_set(s.prices).contains(t) implies station_types_at(
                merge_one(m, s),
                did,
                k,
            ).contains(t) by {
                assert(station_types_at(merge_one(m, s), did, k).contains(t));
            }
        },
    }
}

/// Merging another observation keeps an absorbed one absorbed.
proof fn lemma_absorbed_preserved(
    m: Map<Seq<char>, Seq<StationModel>>,
    s: StationModel,
    t: StationModel,
)
    requires
        absorbed(m, s),
    ensures
        absorbed(merge_one(m, t), s),
{
    match obs_district_id(s) {
        None => {},
        Some(did) => {
            let k = station_key(s);
            lemma_merge_one_at(m, t, did, k);
            assert forall|x: PetroleumType| type_set(s.prices).contains(
                x,
            ) implies station_types_at(merge_one(m, t), did, k).contains(x) by {
                assert(station_types_at(m, did, k).contains(x));
            }
        },
    }
}

/// Merging an observation sequence keeps an absorbed one absorbed.
proof fn lemma_absorbed_preserved_seq(
    m: Map<Seq<char>, Seq<StationModel>>,
    s: StationModel,
    obs: Seq<StationModel>,
)
    requires
        absorbed(m, s),
    ensures
        absorbed(merge_seq(m, obs), s),
    decreases obs.len(),
{
    if obs.len() > 0 {
        lemma_absorbed_preserved(m, s, obs[0]);
        lemma_absorbed_preserved_seq(merge_one(m, obs[0]), s, obs.drop_first());
    }
}

/// Every observation of a merged sequence is absorbed afterwards.
proof fn lemma_merge_seq_absorbs(
    m: Map<Seq<char>, Seq<StationModel>>,
    obs: Seq<StationModel>,
    i: int,
)
    requires
        0 <= i < obs.len(),
    ensures
        absorbed(merge_seq(m, obs), obs[i]),
    decreases obs.len(),
{
    let m1 = merge_one(m, obs[0]);
    if i == 0 {
        lemma_merge_one_absorbs(m, obs[0]);
        lemma_absorbed_preserved_seq(m1, obs[0], obs.drop_first());
    } else {
        lemma_merge_seq_absorbs(m1, obs.drop_first(), i - 1);
        assert(obs.drop_first()[i - 1] == obs[i]);
    }
}

/// Merging only absorbed observations changes nothing.
proof fn lemma_merge_seq_noop(m: Map<Seq<char>, Seq<StationModel>>, obs: Seq<StationModel>)
    requires
        cache_ok(m),
        forall|i: int| 0 <= i < obs.len() ==> absorbed(m, #[trigger] obs[i]),
    ensures
        merge_seq(m, obs) == m,
    decreases obs.len(),
{
    if obs.len() > 0 {
        lemma_absorbed_noop(m, obs[0]);
        assert(merge_one(m, obs[0]) == m);
        assert forall|i: int| 0 <= i < obs.drop_first().len() implies absorbed(
            m,
            #[trigger] obs.drop_first()[i],
        ) by {
            assert(obs.drop_first()[i] == obs[i + 1]);
        }
        lemma_merge_seq_noop(m, obs.drop_first());
    }
}

// ------------------------------------------------------------------
// The laws of the merge engine.
// ------------------------------------------------------------------

/// Observations sharing a coordinate pair land as one station: after a merge
/// every row still holds at most one station per identity (`cache_ok`), a
/// station stands under a district exactly when it was already cached there
/// or some observation resolved there with its identity, and its price list
/// carries exactly the union of the previously cached fuel types and those of
/// the matching observations.
pub proof fn law_station_identity_merge(
    m: Map<Seq<char>, Seq<StationModel>>,
    obs: Seq<StationModel>,
    did: Seq<char>,
    k: (Seq<char>, Seq<char>),
)
    requires
        cache_ok(m),
        obs_ok(obs),
    ensures
        cache_ok(merge_seq(m, obs)),
        cache_has_station(merge_seq(m, obs), did, k) <==> cache_has_station(m, did, k)
            || obs_contributes(obs, did, k),
        station_types_at(merge_seq(m, obs), did, k) == station_types_at(m, did, k).union(
            obs_type_set(obs, did, k),
        ),
{
    lemma_merge_seq_ok(m, obs);
    lemma_merge_seq_at(m, obs, did, k);
}

/// An observation whose area text has no entry in the Area→District mapping
/// resolves to the synthetic district and is dropped: no station with its
/// identity ever enters the cache under any district on its account.
pub proof fn law_unresolved_never_cached(
    m: Map<Seq<char>, Seq<StationModel>>,
    mapping: Map<Seq<char>, crate::district::DistrictModel>,
    obs: Seq<StationModel>,
    did: Seq<char>,
    k: (Seq<char>, Seq<char>),
)
    requires
        !cache_has_station(m, did, k),
        forall|i: int|
            0 <= i < obs.len() && station_key(#[trigger] obs[i]) == k ==> obs[i].district == Some(
                crate::mapping::resolved_district(obs[i].area, mapping),
            ) && !mapping.contains_key(obs[i].area),
    ensures
        !cache_has_station(merge_seq(m, obs), did, k),
{
    lemma_merge_seq_at(m, obs, did, k);
    if obs_contributes(obs, did, k) {
        let i = choose|i: int| 0 <= i < obs.len() && obs_resolves_to(#[trigger] obs[i], did, k);
        assert(obs[i].district == Some(crate::district::unknown_model()));
        assert(obs_district_id(obs[i]) is None);
        assert(false);
    }
}

/// Merging the same observations twice gives the same cache as merging them
/// once: a repeated run duplicates nothing.
pub proof fn law_merge_idempotent(m: Map<Seq<char>, Seq<StationModel>>, obs: Seq<StationModel>)
    requires
        cache_ok(m),
        obs_ok(obs),
    ensures
        merge_seq(merge_seq(m, obs), obs) == merge_seq(m, obs),
{
    let m1 = merge_seq(m, obs);
    lemma_merge_seq_ok(m, obs);
    assert forall|i: int| 0 <= i < obs.len() implies absorbed(m1, #[trigger] obs[i]) by {
        lemma_merge_seq_absorbs(m, obs, i);
    }
    lemma_merge_seq_noop(m1, obs);
}

/// A fuel type whose fetch failed contributes an empty observation list, and
/// an empty list leaves the merge of the remaining lists untouched.
pub proof fn law_failed_fetch_isolated(
    m: Map<Seq<char>, Seq<StationModel>>,
    lists: Seq<Seq<StationModel>>,
    i: int,
)
    requires
        0 <= i < lists.len(),
        lists[i] == Seq::<StationModel>::empty(),
    ensures
        merge_lists(m, lists) == merge_lists(m, lists.remove(i)),
    decreases lists.len(),
{
    if i == 0 {
        assert(merge_seq(m, lists[0]) == m);
        assert(lists.remove(0) =~= lists.drop_first());
    } else {
        law_failed_fetch_isolated(merge_seq(m, lists[0]), lists.drop_first(), i - 1);
        assert(lists.drop_first()[i - 1] == lists[i]);
        assert(lists.remove(i).drop_first() =~= lists.drop_first().remove(i - 1));
        assert(lists.remove(i)[0] == lists[0]);
    }
}

/// A refresh never rolls previously cached data back: every cached station is
/// still cached after more observations are merged, with its fuel types
/// intact.
pub proof fn law_previous_data_kept(
    m: Map<Seq<char>, Seq<StationModel>>,
    obs: Seq<StationModel>,
    did: Seq<char>,
    k: (Seq<char>, Seq<char>),
)
    requires
        cache_has_station(m, did, k),
    ensures
        cache_has_station(merge_seq(m, obs), did, k),
        station_types_at(m, did, k).subset_of(station_types_at(merge_seq(m, obs), did, k)),
{
    lemma_merge_seq_at(m, obs, did, k);
    assert forall|t: PetroleumType| station_types_at(m, did, k).contains(
        t,
    ) implies station_types_at(merge_seq(m, obs), did, k).contains(t) by {
        assert(station_types_at(merge_seq(m, obs), did, k).contains(t));
    }
}

} // verus!
