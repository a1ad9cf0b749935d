//! The station identity & merge engine and the district-partitioned cache:
//! observations are folded into a map from district id to merged stations,
//! keyed inside each row by the raw coordinate strings.

use vstd::prelude::*;

use crate::PetroleumType;
use crate::assoc::{
    assoc_map, keys_unique, lemma_assoc_map_contains, lemma_assoc_map_index,
    lemma_assoc_map_push, lemma_assoc_map_update, lemma_deep_view_push, lemma_deep_view_update,
};
use crate::price::{PetroleumPrice, PriceModel};
use crate::station::{PetroleumStation, StationModel, station_key, duplicate_stations, placeholder_station};
use vstd::pervasive::VecAdditionalExecFns;

verus! {

// ------------------------------------------------------------------
// The merge, as a mathematical fold.
// ------------------------------------------------------------------

/// Whether a reading for fuel type `t` is present.
pub open spec fn has_type(ps: Seq<PriceModel>, t: PetroleumType) -> bool {
    exists|i: int| 0 <= i < ps.len() && ps[i].p_type == t
}

/// `p` appended unless its fuel type already has a reading: the first reading
/// of a fuel type wins.
pub open spec fn add_price(ps: Seq<PriceModel>, p: PriceModel) -> Seq<PriceModel> {
    if has_type(ps, p.p_type) {
        ps
    } else {
        ps.push(p)
    }
}

/// Each reading folded in, oldest first.
pub open spec fn add_prices(ps: Seq<PriceModel>, new: Seq<PriceModel>) -> Seq<PriceModel>
    decreases new.len(),
{
    if new.len() == 0 {
        ps
    } else {
        add_prices(add_price(ps, new[0]), new.drop_first())
    }
}

/// The district id under which an observation is cached, if any: an
/// observation with no resolved district, or resolved to the synthetic
/// `unknown` district, is dropped.
pub open spec fn obs_district_id(s: StationModel) -> Option<Seq<char>> {
    match s.district {
        Some(d) => if d.id == "unknown"@ {
            None
        } else {
            Some(d.id)
        },
        None => None,
    }
}

/// A cached station extended by an observation of the same identity: readings
/// are folded in, the other attributes keep their cached values, and the
/// district stays cleared.
pub open spec fn merged_station(cached: StationModel, obs: StationModel) -> StationModel {
    StationModel { prices: add_prices(cached.prices, obs.prices), district: None, ..cached }
}

/// A first observation of a station, as cached: the resolved district is
/// cleared (the partition key now carries it) and readings fold from empty.
pub open spec fn fresh_station(obs: StationModel) -> StationModel {
    StationModel { prices: add_prices(Seq::empty(), obs.prices), district: None, ..obs }
}

/// First index in `row` of a station with identity `key`, or -1.
pub open spec fn row_find(row: Seq<StationModel>, key: (Seq<char>, Seq<char>)) -> int
    decreases row.len(),
{
    if row.len() == 0 {
        -1
    } else if station_key(row[0]) == key {
        0
    } else {
        let r = row_find(row.drop_first(), key);
        if r < 0 {
            -1
        } else {
            r + 1
        }
    }
}

/// `row_find` finds the first station with the given identity, if any.
pub proof fn lemma_row_find(row: Seq<StationModel>, key: (Seq<char>, Seq<char>))
    ensures
        -1 <= row_find(row, key) < row.len(),
        row_find(row, key) >= 0 ==> station_key(row[row_find(row, key)]) == key,
        forall|j: int|
            0 <= j < row.len() && (j < row_find(row, key) || row_find(row, key) == -1)
                ==> station_key(#[trigger] row[j]) != key,
    decreases row.len(),
{
    if row.len() > 0 && station_key(row[0]) != key {
        lemma_row_find(row.drop_first(), key);
        assert(forall|j: int|
            1 <= j < row.len() ==> #[trigger] row[j] == row.drop_first()[j - 1]);
    }
}

/// The cache map after one observation.
pub open spec fn merge_one(
    m: Map<Seq<char>, Seq<StationModel>>,
    s: StationModel,
) -> Map<Seq<char>, Seq<StationModel>> {
    match obs_district_id(s) {
        None => m,
        Some(did) => {
            let row = if m.contains_key(did) {
                m[did]
            } else {
                Seq::empty()
            };
            let i = row_find(row, station_key(s));
            if i >= 0 {
                m.insert(did, row.update(i, merged_station(row[i], s)))
            } else {
                m.insert(did, row.push(fresh_station(s)))
            }
        },
    }
}

/// The cache map after a sequence of observations, oldest first.
pub open spec fn merge_seq(
    m: Map<Seq<char>, Seq<StationModel>>,
    obs: Seq<StationModel>,
) -> Map<Seq<char>, Seq<StationModel>>
    decreases obs.len(),
{
    if obs.len() == 0 {
        m
    } else {
        merge_seq(merge_one(m, obs[0]), obs.drop_first())
    }
}

/// The cache map after the per-fuel-type observation lists, oldest first.
pub open spec fn merge_lists(
    m: Map<Seq<char>, Seq<StationModel>>,
    lists: Seq<Seq<StationModel>>,
) -> Map<Seq<char>, Seq<StationModel>>
    decreases lists.len(),
{
    if lists.len() == 0 {
        m
    } else {
        merge_lists(merge_seq(m, lists[0]), lists.drop_first())
    }
}

// ------------------------------------------------------------------
// The cache's invariants.
// ------------------------------------------------------------------

/// At most one reading per fuel type.
pub open spec fn prices_unique(ps: Seq<PriceModel>) -> bool {
    forall|a: int, b: int|
        0 <= a < b < ps.len() ==> (#[trigger] ps[a]).p_type != (#[trigger] ps[b]).p_type
}

/// A cached row: station identities are unique, and every station carries no
/// district, a non-empty price list, and at most one reading per fuel type.
pub open spec fn row_ok(row: Seq<StationModel>) -> bool {
    &&& forall|a: int, b: int|
        0 <= a < b < row.len() ==> station_key(#[trigger] row[a]) != station_key(
            #[trigger] row[b],
        )
    &&& forall|a: int| 0 <= a < row.len() ==> (#[trigger] row[a]).district is None
    &&& forall|a: int| 0 <= a < row.len() ==> (#[trigger] row[a]).prices.len() > 0
    &&& forall|a: int| 0 <= a < row.len() ==> prices_unique((#[trigger] row[a]).prices)
}

/// Every row of the cache is a well-formed row.
pub open spec fn cache_ok(m: Map<Seq<char>, Seq<StationModel>>) -> bool {
    forall|did: Seq<char>| m.contains_key(did) ==> row_ok(#[trigger] m[did])
}

/// Observations as the fetcher hands them over: at least one reading each.
pub open spec fn obs_ok(obs: Seq<StationModel>) -> bool {
    forall|i: int| 0 <= i < obs.len() ==> (#[trigger] obs[i]).prices.len() > 0
}

// ------------------------------------------------------------------
// The cache, executable.
// ------------------------------------------------------------------

/// One district's row of merged stations.
#[derive(Clone, Debug)]
pub struct DistrictStations {
    pub district_id: String,
    pub stations: Vec<PetroleumStation>,
}

impl View for DistrictStations {
    type V = (Seq<char>, Seq<StationModel>);

    open spec fn view(&self) -> (Seq<char>, Seq<StationModel>) {
        (self.district_id@, self.stations.deep_view())
    }
}

impl DeepView for DistrictStations {
    type V = (Seq<char>, Seq<StationModel>);

    open spec fn deep_view(&self) -> (Seq<char>, Seq<StationModel>) {
        self@
    }
}

/// District id → merged stations. Abstractly a map; rows never share a
/// district id.
#[derive(Clone, Debug)]
pub struct StationCache {
    entries: Vec<DistrictStations>,
}

impl View for StationCache {
    type V = Map<Seq<char>, Seq<StationModel>>;

    closed spec fn view(&self) -> Map<Seq<char>, Seq<StationModel>> {
        assoc_map(self.entries.deep_view())
    }
}

/// The first row for `district_id`, if any.
fn row_index(entries: &Vec<DistrictStations>, district_id: &String) -> (r: Option<usize>)
    ensures
        match r {
            Some(i) => i < entries@.len() && entries.deep_view()[i as int].0 == district_id@,
            None => forall|j: int|
                0 <= j < entries@.len() ==> (#[trigger] entries.deep_view()[j]).0 != district_id@,
        },
{
    let mut i: usize = 0;
    while i < entries.len()
        invariant
            i <= entries.len(),
            forall|j: int| 0 <= j < i ==> (#[trigger] entries.deep_view()[j]).0 != district_id@,
        decreases entries.len() - i,
    {
        if entries[i].district_id == *district_id {
            return Some(i);
        }
        i = i + 1;
    }
    None
}

/// The first station with the given identity, as `row_find` counts it.
fn station_index(stations: &Vec<PetroleumStation>, latitude: &String, longitude: &String) -> (r:
    Option<usize>)
    ensures
        match r {
            Some(j) => row_find(stations.deep_view(), (latitude@, longitude@)) == j as int,
            None => row_find(stations.deep_view(), (latitude@, longitude@)) == -1,
        },
{
    proof {
        lemma_row_find(stations.deep_view(), (latitude@, longitude@));
    }
    let mut i: usize = 0;
    while i < stations.len()
        invariant
            i <= stations.len(),
            forall|j: int|
                0 <= j < i ==> station_key(#[trigger] stations.deep_view()[j]) != (
                latitude@,
                longitude@,
                ),
        decreases stations.len() - i,
    {
        if stations[i].latitude == *latitude && stations[i].longitude == *longitude {
            proof {
                assert(station_key(stations.deep_view()[i as int]) == (latitude@, longitude@));
                lemma_row_find(stations.deep_view(), (latitude@, longitude@));
            }
            return Some(i);
        }
        i = i + 1;
    }
    None
}

/// Folds `src` into `dst`: a reading whose fuel type is already present is
/// dropped, the rest are appended in order.
fn merge_prices(dst: &mut Vec<PetroleumPrice>, src: &Vec<PetroleumPrice>)
    ensures
        final(dst).deep_view() == add_prices(old(dst).deep_view(), src.deep_view()),
{
    let ghost sdv = src.deep_view();
    let ghost n = sdv.len() as int;
    let ghost total = add_prices(old(dst).deep_view(), sdv);
    proof {
        assert(sdv.subrange(0, n) =~= sdv);
    }
    let mut k: usize = 0;
    while k < src.len()
        invariant
            sdv == src.deep_view(),
            n == sdv.len() as int,
            k <= src.len(),
            add_prices(dst.deep_view(), sdv.subrange(k as int, n)) == total,
        decreases src.len() - k,
    {
        proof {
            assert(sdv.subrange(k as int, n)[0] == sdv[k as int]);
            assert(sdv.subrange(k as int, n).drop_first() =~= sdv.subrange(k + 1, n));
            assert(sdv[k as int] == src@[k as int]@);
        }
        let mut present = false;
        let mut t: usize = 0;
        while t < dst.len()
            invariant
                sdv == src.deep_view(),
                k < src.len(),
                t <= dst.len(),
                present <==> exists|a: int|
                    0 <= a < t && (#[trigger] dst.deep_view()[a]).p_type == sdv[k as int].p_type,
            decreases dst.len() - t,
        {
            if dst[t].p_type == src[k].p_type {
                proof {
                    assert(dst.deep_view()[t as int].p_type == sdv[k as int].p_type);
                }
                present = true;
            }
            t = t + 1;
        }
        proof {
            assert(present == has_type(dst.deep_view(), sdv[k as int].p_type));
        }
        if !present {
            let p = src[k].duplicate();
            let ghost pd = p;
            let ghost pre_vec = *dst;
            dst.push(p);
            proof {
                lemma_deep_view_push(pre_vec, *dst, pd);
            }
        }
        k = k + 1;
    }
    proof {
        assert(sdv.subrange(n, n) =~= Seq::<PriceModel>::empty());
    }
}

/// A placeholder row swapped in while the real one is edited.
fn blank_row() -> (r: DistrictStations)
    ensures
        r@.0 == Seq::<char>::empty(),
        r@.1 == Seq::<StationModel>::empty(),
{
    let r = DistrictStations { district_id: String::new(), stations: Vec::new() };
    proof {
        assert(r@.1 =~= Seq::<StationModel>::empty());
    }
    r
}

impl StationCache {
    /// Rows never share a district id.
    pub closed spec fn wf(&self) -> bool {
        keys_unique(self.entries.deep_view())
    }

    /// An empty cache.
    pub fn new() -> (r: Self)
        ensures
            r.wf(),
            r@ == Map::<Seq<char>, Seq<StationModel>>::empty(),
    {
        StationCache { entries: Vec::new() }
    }

    /// The cache's rows, for readers that walk the whole snapshot.
    pub fn rows(&self) -> (r: &Vec<DistrictStations>)
        requires
            self.wf(),
        ensures
            keys_unique(r.deep_view()),
            self@ == assoc_map(r.deep_view()),
    {
        &self.entries
    }

    /// The stations cached for `district_id`: a copy of the row, or empty when
    /// the district has no row.
    pub fn stations_of(&self, district_id: &String) -> (r: Vec<PetroleumStation>)
        requires
            self.wf(),
        ensures
            r.deep_view() == if self@.contains_key(district_id@) {
                self@[district_id@]
            } else {
                Seq::<StationModel>::empty()
            },
    {
        proof {
            lemma_assoc_map_contains(self.entries.deep_view(), district_id@);
        }
        match row_index(&self.entries, district_id) {
            Some(i) => {
                proof {
                    lemma_assoc_map_index(self.entries.deep_view(), i as int);
                }
                duplicate_stations(&self.entries[i].stations)
            },
            None => Vec::new(),
        }
    }

    /// Folds one observation into the cache.
    pub fn merge_station(&mut self, obs: &PetroleumStation)
        requires
            old(self).wf(),
        ensures
            final(self).wf(),
            final(self)@ == merge_one(old(self)@, obs@),
    {
        let d = match &obs.district {
            Some(d) => d,
            None => {
                return ;
            },
        };
        if d.id == "unknown".to_owned() {
            proof {
                assert(obs_district_id(obs@) is None);
            }
            return ;
        }
        let ghost m0 = self@;
        let ghost pre = self.entries.deep_view();
        let ghost did = d.id@;
        proof {
            assert(obs_district_id(obs@) == Some(did));
            lemma_assoc_map_contains(pre, did);
        }

        // Make sure the district has a row.
        let idx: usize;
        match row_index(&self.entries, &d.id) {
            Some(i) => {
                idx = i;
                proof {
                    assert(m0.contains_key(did));
                }
            },
            None => {
                let e = DistrictStations { district_id: d.id.clone(), stations: Vec::new() };
                let ghost ev = e;
                let ghost pre_vec = self.entries;
                idx = self.entries.len();
                self.entries.push(e);
                proof {
                    assert(!m0.contains_key(did));
                    lemma_deep_view_push(pre_vec, self.entries, ev);
                    assert(ev@.1 =~= Seq::<StationModel>::empty());
                    assert(ev@ == (did, Seq::<StationModel>::empty()));
                    lemma_assoc_map_push(pre, did, Seq::<StationModel>::empty());
                    assert forall|a: int, b: int|
                        0 <= a < b < self.entries.deep_view().len() implies (
                    #[trigger] self.entries.deep_view()[a]).0 != (
                    #[trigger] self.entries.deep_view()[b]).0 by {
                        assert(self.entries.deep_view()[a].0 == pre[a].0);
                        if b < pre.len() {
                            assert(self.entries.deep_view()[b].0 == pre[b].0);
                        }
                    }
                }
            },
        }
        // The cache map and the row as merge_one sees them.
        let ghost entries_vec1 = self.entries;
        let ghost entries1 = self.entries.deep_view();
        let ghost m1 = self@;
        let ghost row0 = entries1[idx as int].1;
        proof {
            assert(self.wf());
            assert(entries1[idx as int].0 == did);
            lemma_assoc_map_index(entries1, idx as int);
            assert(m1.contains_key(did) && m1[did] == row0);
            if m0.contains_key(did) {
                assert(m1 == m0 && row0 == m0[did]);
            } else {
                assert(m1 == m0.insert(did, Seq::<StationModel>::empty()));
                assert(row0 =~= Seq::<StationModel>::empty());
            }
        }

        // Take the row out, edit it, put it back.
        let mut row = blank_row();
        self.entries.set_and_swap(idx, &mut row);
        let ghost row_vec0 = row.stations;
        proof {
            assert(row == entries_vec1@[idx as int]);
            assert(row.stations.deep_view() == row0);
            assert(row.district_id@ == did);
        }

        let ghost key = station_key(obs@);
        match station_index(&row.stations, &obs.latitude, &obs.longitude) {
            Some(j) => {
                let ghost jj = j as int;
                proof {
                    lemma_row_find(row0, key);
                    assert(row_find(row0, key) == jj);
                }
                let mut st = placeholder_station();
                row.stations.set_and_swap(j, &mut st);
                let ghost st0 = st;
                proof {
                    assert(st0 == row_vec0@[jj]);
                    assert(st0@ == row0[jj]);
                }
                merge_prices(&mut st.prices, &obs.prices);
                st.district = None;
                let ghost merged_exec = st;
                proof {
                    assert(merged_exec@ =~= merged_station(row0[jj], obs@));
                }
                let mut back = st;
                row.stations.set_and_swap(j, &mut back);
                proof {
                    assert(row.stations@ =~= row_vec0@.update(jj, merged_exec));
                    lemma_deep_view_update(row_vec0, row.stations, jj, merged_exec);
                    assert(row.stations.deep_view() == row0.update(
                        jj,
                        merged_station(row0[jj], obs@),
                    ));
                }
            },
            None => {
                proof {
                    lemma_row_find(row0, key);
                    assert(row_find(row0, key) == -1);
                }
                let mut ps: Vec<PetroleumPrice> = Vec::new();
                proof {
                    assert(ps.deep_view() =~= Seq::<PriceModel>::empty());
                }
                merge_prices(&mut ps, &obs.prices);
                let st = PetroleumStation {
                    brand: obs.brand.clone(),
                    offline: obs.offline,
                    company: obs.company.clone(),
                    address: obs.address.clone(),
                    latitude: obs.latitude.clone(),
                    longitude: obs.longitude.clone(),
                    area: obs.area.clone(),
                    prices: ps,
                    district: None,
                };
                let ghost stv = st;
                let ghost pre_st = row.stations;
                row.stations.push(st);
                proof {
                    assert(stv@ =~= fresh_station(obs@));
                    lemma_deep_view_push(pre_st, row.stations, stv);
                    assert(row.stations.deep_view() == row0.push(fresh_station(obs@)));
                }
            },
        }
        // Swap the edited row back.
        let ghost new_row_dv = row.stations.deep_view();
        let mut back_row = row;
        let ghost new_row = back_row;
        self.entries.set_and_swap(idx, &mut back_row);
        proof {
            assert(new_row.district_id@ == did);
            assert(new_row@ == (did, new_row_dv));
            assert(self.entries@ =~= entries_vec1@.update(idx as int, new_row));
            lemma_deep_view_update(entries_vec1, self.entries, idx as int, new_row);
            lemma_assoc_map_update(entries1, idx as int, new_row_dv);
            assert(self@ == m1.insert(did, new_row_dv));
            // The edited row is exactly merge_one's row.
            assert(merge_one(m0, obs@) == m0.insert(did, new_row_dv));
            if !m0.contains_key(did) {
                assert(m1.insert(did, new_row_dv) =~= m0.insert(did, new_row_dv));
            }
            // Keys are untouched, so rows still never share a district id.
            assert forall|a: int, b: int|
                0 <= a < b < self.entries.deep_view().len() implies (
            #[trigger] self.entries.deep_view()[a]).0 != (
            #[trigger] self.entries.deep_view()[b]).0 by {
                if a != idx as int {
                    assert(self.entries.deep_view()[a].0 == entries1[a].0);
                }
                if b != idx as int {
                    assert(self.entries.deep_view()[b].0 == entries1[b].0);
                }
            }
        }
    }

    /// Folds a list of observations into the cache, oldest first.
    pub fn merge_stations(&mut self, obs: &Vec<PetroleumStation>)
        requires
            old(self).wf(),
        ensures
            final(self).wf(),
            final(self)@ == merge_seq(old(self)@, obs.deep_view()),
    {
        let ghost odv = obs.deep_view();
        let ghost n = odv.len() as int;
        let ghost total = merge_seq(old(self)@, odv);
        proof {
            assert(odv.subrange(0, n) =~= odv);
        }
        let mut i: usize = 0;
        while i < obs.len()
            invariant
                self.wf(),
                odv == obs.deep_view(),
                n == odv.len() as int,
                i <= obs.len(),
                merge_seq(self@, odv.subrange(i as int, n)) == total,
            decreases obs.len() - i,
        {
            proof {
                assert(odv.subrange(i as int, n)[0] == odv[i as int]);
                assert(odv.subrange(i as int, n).drop_first() =~= odv.subrange(i + 1, n));
                assert(odv[i as int] == obs@[i as int]@);
            }
            self.merge_station(&obs[i]);
            i = i + 1;
        }
        proof {
            assert(odv.subrange(n, n) =~= Seq::<StationModel>::empty());
        }
    }

    /// Folds the per-fuel-type observation lists into the cache, oldest first.
    /// A fuel type whose fetch failed contributes an empty list and changes
    /// nothing.
    pub fn merge_station_lists(&mut self, lists: &Vec<Vec<PetroleumStation>>)
        requires
            old(self).wf(),
        ensures
            final(self).wf(),
            final(self)@ == merge_lists(old(self)@, lists.deep_view()),
    {
        let ghost ldv = lists.deep_view();
        let ghost n = ldv.len() as int;
        let ghost total = merge_lists(old(self)@, ldv);
        proof {
            assert(ldv.subrange(0, n) =~= ldv);
        }
        let mut i: usize = 0;
        while i < lists.len()
            invariant
                self.wf(),
                ldv == lists.deep_view(),
                n == ldv.len() as int,
                i <= lists.len(),
                merge_lists(self@, ldv.subrange(i as int, n)) == total,
            decreases lists.len() - i,
        {
            proof {
                assert(ldv.subrange(i as int, n)[0] == ldv[i as int]);
                assert(ldv.subrange(i as int, n).drop_first() =~= ldv.subrange(i + 1, n));
                assert(ldv[i as int] == lists@[i as int].deep_view());
            }
            self.merge_stations(&lists[i]);
            i = i + 1;
        }
        proof {
            assert(ldv.subrange(n, n) =~= Seq::<Seq<StationModel>>::empty());
        }
    }
}

} // verus!
