//! The Area→District mapping: free-text area names, in either script, mapped
//! to the district the portal associates them with. Rebuilt wholesale on each
//! districts refresh and replaced as one value.

use vstd::prelude::*;

use crate::area::Area;
use crate::assoc::{
    assoc_map, keys_unique, lemma_assoc_map_contains, lemma_assoc_map_index,
    lemma_assoc_map_push, lemma_assoc_map_update, lemma_deep_view_push, lemma_deep_view_update,
};
use crate::district::{District, DistrictModel, catalog_district, district_catalog, districts, unknown_model};
use crate::station::{PetroleumStation, StationModel, placeholder_station};
use vstd::pervasive::VecAdditionalExecFns;

verus! {

/// One mapping entry: an area spelling and its district.
#[derive(Clone, Debug)]
pub struct MapEntry {
    pub area: String,
    pub district: District,
}

impl View for MapEntry {
    type V = (Seq<char>, DistrictModel);

    open spec fn view(&self) -> (Seq<char>, DistrictModel) {
        (self.area@, self.district@)
    }
}

impl DeepView for MapEntry {
    type V = (Seq<char>, DistrictModel);

    open spec fn deep_view(&self) -> (Seq<char>, DistrictModel) {
        self@
    }
}

/// The Area→District lookup table. Abstractly a map from area spelling to
/// district; entries never share a key.
#[derive(Clone, Debug)]
pub struct AreaMap {
    entries: Vec<MapEntry>,
}

impl View for AreaMap {
    type V = Map<Seq<char>, DistrictModel>;

    closed spec fn view(&self) -> Map<Seq<char>, DistrictModel> {
        assoc_map(self.entries.deep_view())
    }
}

/// The first entry whose key is `area`, if any.
fn index_of_key(entries: &Vec<MapEntry>, area: &String) -> (r: Option<usize>)
    ensures
        match r {
            Some(i) => i < entries@.len() && entries.deep_view()[i as int].0 == area@,
            None => forall|j: int|
                0 <= j < entries@.len() ==> (#[trigger] entries.deep_view()[j]).0 != area@,
        },
{
    let mut i: usize = 0;
    while i < entries.len()
        invariant
            i <= entries.len(),
            forall|j: int| 0 <= j < i ==> (#[trigger] entries.deep_view()[j]).0 != area@,
        decreases entries.len() - i,
    {
        if entries[i].area == *area {
            return Some(i);
        }
        i = i + 1;
    }
    None
}

impl AreaMap {
    /// Entries never share a key.
    pub closed spec fn wf(&self) -> bool {
        keys_unique(self.entries.deep_view())
    }

    /// An empty mapping.
    pub fn new() -> (r: Self)
        ensures
            r.wf(),
            r@ == Map::<Seq<char>, DistrictModel>::empty(),
    {
        AreaMap { entries: Vec::new() }
    }

    /// Maps `area` to `district`, replacing any previous district for `area`.
    pub fn insert(&mut self, area: String, district: District)
        requires
            old(self).wf(),
        ensures
            final(self).wf(),
            final(self)@ == old(self)@.insert(area@, district@),
    {
        let ghost pre = self.entries.deep_view();
        match index_of_key(&self.entries, &area) {
            Some(i) => {
                let e = MapEntry { area, district };
                self.entries.set(i, e);
                proof {
                    lemma_deep_view_update(old(self).entries, self.entries, i as int, e);
                    assert(e@ == (pre[i as int].0, e.district@));
                    lemma_assoc_map_update(pre, i as int, e.district@);
                    assert forall|a: int, b: int|
                        0 <= a < b < self.entries.deep_view().len() implies (
                    #[trigger] self.entries.deep_view()[a]).0 != (
                    #[trigger] self.entries.deep_view()[b]).0 by {
                        assert(self.entries.deep_view()[a].0 == pre[a].0);
                        assert(self.entries.deep_view()[b].0 == pre[b].0);
                    }
                }
            },
            None => {
                let e = MapEntry { area, district };
                self.entries.push(e);
                proof {
                    lemma_deep_view_push(old(self).entries, self.entries, e);
                    lemma_assoc_map_push(pre, e.area@, e.district@);
                    assert forall|a: int, b: int|
                        0 <= a < b < self.entries.deep_view().len() implies (
                    #[trigger] self.entries.deep_view()[a]).0 != (
                    #[trigger] self.entries.deep_view()[b]).0 by {
                        assert(self.entries.deep_view()[a].0 == pre[a].0);
                        if b < pre.len() {
                            assert(self.entries.deep_view()[b].0 == pre[b].0);
                        }
                    }
                }
            },
        }
    }

    /// The district mapped to `area`, if any.
    pub fn get(&self, area: &String) -> (r: Option<&District>)
        requires
            self.wf(),
        ensures
            match r {
                Some(d) => self@.contains_key(area@) && d@ == self@[area@],
                None => !self@.contains_key(area@),
            },
    {
        proof {
            lemma_assoc_map_contains(self.entries.deep_view(), area@);
        }
        match index_of_key(&self.entries, area) {
            Some(i) => {
                proof {
                    lemma_assoc_map_index(self.entries.deep_view(), i as int);
                }
                Some(&self.entries[i].district)
            },
            None => None,
        }
    }

    /// How many areas are mapped.
    pub fn len(&self) -> (r: usize)
        requires
            self.wf(),
        ensures
            r == self@.dom().len(),
    {
        proof {
            lemma_assoc_dom_len(self.entries.deep_view());
        }
        self.entries.len()
    }
}

/// With unique keys the map has exactly one key per entry.
proof fn lemma_assoc_dom_len<V>(s: Seq<(Seq<char>, V)>)
    requires
        keys_unique(s),
    ensures
        assoc_map(s).dom().len() == s.len(),
        assoc_map(s).dom().finite(),
    decreases s.len(),
{
    if s.len() > 0 {
        assert(keys_unique(s.drop_last()));
        lemma_assoc_dom_len(s.drop_last());
        lemma_assoc_map_contains(s.drop_last(), s.last().0);
        assert(forall|i: int|
            0 <= i < s.drop_last().len() ==> (#[trigger] s.drop_last()[i]).0 != s.last().0);
        assert(!assoc_map(s.drop_last()).contains_key(s.last().0));
        assert(assoc_map(s).dom() =~= assoc_map(s.drop_last()).dom().insert(s.last().0));
        vstd::set::axiom_set_insert_len(assoc_map(s.drop_last()).dom(), s.last().0);
    }
}

/// The district an area text resolves to: the mapped district on a hit, the
/// synthetic `unknown` district on a miss.
pub open spec fn resolved_district(
    area: Seq<char>,
    m: Map<Seq<char>, DistrictModel>,
) -> DistrictModel {
    if m.contains_key(area) {
        m[area]
    } else {
        unknown_model()
    }
}

/// The district an area text resolves to: the mapped district on a hit, the
/// synthetic `unknown` district on a miss.
pub fn find_district(area: &String, districts: &AreaMap) -> (r: District)
    requires
        districts.wf(),
    ensures
        r@ == resolved_district(area@, districts@),
{
    match districts.get(area) {
        Some(d) => d.duplicate(),
        None => District::unknown(),
    }
}

/// The area spellings currently mapped to `district` (identity by id), in no
/// promised order and without duplicates.
pub fn find_areas_for_district(district: &District, districts: &AreaMap) -> (r: Vec<String>)
    requires
        districts.wf(),
    ensures
        r.deep_view().no_duplicates(),
        forall|k: Seq<char>| #[trigger]
            r.deep_view().contains(k) <==> districts@.contains_key(k) && districts@[k].id
                == district.id@,
{
    let ghost entries = districts.entries.deep_view();
    let mut out: Vec<String> = Vec::new();
    let mut i: usize = 0;
    while i < districts.entries.len()
        invariant
            districts.wf(),
            entries == districts.entries.deep_view(),
            i <= districts.entries.len(),
            out.deep_view().no_duplicates(),
            forall|k: Seq<char>| #[trigger]
                out.deep_view().contains(k) <==> exists|j: int|
                    0 <= j < i && (#[trigger] entries[j]).0 == k && entries[j].1.id
                        == district.id@,
        decreases districts.entries.len() - i,
    {
        let hit = districts.entries[i].district == *district;
        if hit {
            let k = districts.entries[i].area.clone();
            let ghost kk = k;
            let ghost pre_vec = out;
            let ghost pre = out.deep_view();
            out.push(k);
            proof {
                lemma_deep_view_push(pre_vec, out, kk);
                assert(entries[i as int].0 == kk@);
                assert(entries[i as int].1.id == district.id@);
                assert(!pre.contains(kk@));
                assert forall|a: int, b: int|
                    0 <= a < out.deep_view().len() && 0 <= b < out.deep_view().len() && a != b
                        implies out.deep_view()[a] != out.deep_view()[b] by {
                    if a < pre.len() && b < pre.len() {
                    } else if a < pre.len() {
                        assert(pre.contains(pre[a]));
                    } else if b < pre.len() {
                        assert(pre.contains(pre[b]));
                    }
                }
                assert forall|k2: Seq<char>| #[trigger]
                    out.deep_view().contains(k2) <==> exists|j: int|
                        0 <= j < i + 1 && (#[trigger] entries[j]).0 == k2 && entries[j].1.id
                            == district.id@ by {
                    if out.deep_view().contains(k2) {
                        let a = choose|a: int|
                            0 <= a < out.deep_view().len() && out.deep_view()[a] == k2;
                        if a < pre.len() {
                            assert(pre.contains(k2));
                        } else {
                            assert(k2 == kk@);
                            assert((entries[i as int]).0 == k2 && entries[i as int].1.id
                                == district.id@);
                        }
                    }
                    if exists|j: int|
                        0 <= j < i + 1 && (#[trigger] entries[j]).0 == k2 && entries[j].1.id
                            == district.id@ {
                        let j = choose|j: int|
                            0 <= j < i + 1 && (#[trigger] entries[j]).0 == k2 && entries[j].1.id
                                == district.id@;
                        if j < i {
                            assert(pre.contains(k2));
                            let a = choose|a: int| 0 <= a < pre.len() && pre[a] == k2;
                            assert(out.deep_view()[a] == k2);
                        } else {
                            assert(out.deep_view()[pre.len() as int] == k2);
                        }
                        assert(out.deep_view().contains(k2));
                    }
                }
            }
        } else {
            proof {
                assert(entries[i as int].1.id != district.id@);
                assert forall|k2: Seq<char>| #[trigger]
                    out.deep_view().contains(k2) <==> exists|j: int|
                        0 <= j < i + 1 && (#[trigger] entries[j]).0 == k2 && entries[j].1.id
                            == district.id@ by {
                    if exists|j: int|
                        0 <= j < i + 1 && (#[trigger] entries[j]).0 == k2 && entries[j].1.id
                            == district.id@ {
                        let j = choose|j: int|
                            0 <= j < i + 1 && (#[trigger] entries[j]).0 == k2 && entries[j].1.id
                                == district.id@;
                        assert(j < i);
                    }
                }
            }
        }
        i = i + 1;
    }
    proof {
        assert forall|k: Seq<char>| #[trigger]
            out.deep_view().contains(k) <==> districts@.contains_key(k) && districts@[k].id
                == district.id@ by {
            lemma_assoc_map_contains(entries, k);
            if out.deep_view().contains(k) {
                let j = choose|j: int|
                    0 <= j < entries.len() && (#[trigger] entries[j]).0 == k && entries[j].1.id
                        == district.id@;
                lemma_assoc_map_index(entries, j);
            } else if districts@.contains_key(k) && districts@[k].id == district.id@ {
                let j = choose|j: int| 0 <= j < entries.len() && (#[trigger] entries[j]).0 == k;
                lemma_assoc_map_index(entries, j);
                assert(entries[j].1.id == district.id@);
            }
        }
    }
    out
}

/// What one district's area query contributed: the district and the areas the
/// portal lists for it.
pub struct DistrictAreas {
    pub district: District,
    pub areas: Vec<Area>,
}

/// Mathematical image of a [`DistrictAreas`].
#[verifier::ext_equal]
pub struct DistrictAreasModel {
    pub district: DistrictModel,
    pub areas: Seq<crate::area::AreaModel>,
}

impl View for DistrictAreas {
    type V = DistrictAreasModel;

    open spec fn view(&self) -> DistrictAreasModel {
        DistrictAreasModel { district: self.district@, areas: self.areas.deep_view() }
    }
}

impl DeepView for DistrictAreas {
    type V = DistrictAreasModel;

    open spec fn deep_view(&self) -> DistrictAreasModel {
        self@
    }
}

/// Both spellings of each area mapped to `d`, in order.
pub open spec fn insert_areas(
    m: Map<Seq<char>, DistrictModel>,
    d: DistrictModel,
    areas: Seq<crate::area::AreaModel>,
) -> Map<Seq<char>, DistrictModel>
    decreases areas.len(),
{
    if areas.len() == 0 {
        m
    } else {
        insert_areas(
            m.insert(areas[0].name_el, d).insert(areas[0].name_en, d),
            d,
            areas.drop_first(),
        )
    }
}

/// Every fetched district's areas folded into `m`, in order.
pub open spec fn spec_build_mapping(
    m: Map<Seq<char>, DistrictModel>,
    fetched: Seq<DistrictAreasModel>,
) -> Map<Seq<char>, DistrictModel>
    decreases fetched.len(),
{
    if fetched.len() == 0 {
        m
    } else {
        spec_build_mapping(
            insert_areas(m, fetched[0].district, fetched[0].areas),
            fetched.drop_first(),
        )
    }
}

/// The whole Area→District mapping built from the per-district area queries.
/// A district whose query failed simply contributes no element of `fetched`.
pub fn build_area_mapping(fetched: &Vec<DistrictAreas>) -> (r: AreaMap)
    ensures
        r.wf(),
        r@ == spec_build_mapping(Map::empty(), fetched.deep_view()),
{
    let ghost fdv = fetched.deep_view();
    let ghost n = fdv.len() as int;
    let ghost total = spec_build_mapping(Map::empty(), fdv);
    let mut out = AreaMap::new();
    proof {
        assert(fdv.subrange(0, n) =~= fdv);
    }
    let mut i: usize = 0;
    while i < fetched.len()
        invariant
            out.wf(),
            fdv == fetched.deep_view(),
            n == fdv.len() as int,
            i <= fetched.len(),
            spec_build_mapping(out@, fdv.subrange(i as int, n)) == total,
        decreases fetched.len() - i,
    {
        let ghost adv = fdv[i as int].areas;
        let ghost d = fdv[i as int].district;
        let ghost m = adv.len() as int;
        proof {
            assert(fdv[i as int] == fetched@[i as int]@);
            assert(fdv.subrange(i as int, n)[0] == fdv[i as int]);
            assert(fdv.subrange(i as int, n).drop_first() =~= fdv.subrange(i + 1, n));
            assert(adv.subrange(0, m) =~= adv);
        }
        let mut j: usize = 0;
        while j < fetched[i].areas.len()
            invariant
                out.wf(),
                fdv == fetched.deep_view(),
                i < fetched.len(),
                n == fdv.len() as int,
                adv == fdv[i as int].areas,
                d == fdv[i as int].district,
                m == adv.len() as int,
                j <= fetched[i as int].areas.len(),
                m == fetched[i as int].areas@.len() as int,
                spec_build_mapping(insert_areas(out@, d, adv.subrange(j as int, m)), fdv.subrange(i + 1, n)) == total,
            decreases fetched[i as int].areas.len() - j,
        {
            proof {
                assert(adv[j as int] == fetched@[i as int].areas@[j as int]@);
                assert(adv.subrange(j as int, m)[0] == adv[j as int]);
                assert(adv.subrange(j as int, m).drop_first() =~= adv.subrange(j + 1, m));
            }
            let name_el = fetched[i].areas[j].name_el.clone();
            let name_en = fetched[i].areas[j].name_en.clone();
            let d1 = fetched[i].district.duplicate();
            let d2 = fetched[i].district.duplicate();
            out.insert(name_el, d1);
            out.insert(name_en, d2);
            j = j + 1;
        }
        i = i + 1;
    }
    proof {
        assert(fdv.subrange(n, n) =~= Seq::<DistrictAreasModel>::empty());
    }
    out
}

/// Resolves each observation's district from its area text, as one refresh
/// cycle does before the merge: the mapped district on a hit, the synthetic
/// `unknown` district on a miss. Everything else is left untouched.
pub fn resolve_station_districts(stations: &mut Vec<PetroleumStation>, districts: &AreaMap)
    requires
        districts.wf(),
    ensures
        final(stations).deep_view().len() == old(stations).deep_view().len(),
        forall|i: int|
            0 <= i < old(stations).deep_view().len() ==> #[trigger] final(stations).deep_view()[i]
                == (StationModel {
                district: Some(
                    resolved_district(old(stations).deep_view()[i].area, districts@),
                ),
                ..old(stations).deep_view()[i]
            }),
{
    let ghost n = old(stations).deep_view().len() as int;
    let mut i: usize = 0;
    while i < stations.len()
        invariant
            districts.wf(),
            stations@.len() == n,
            i <= stations@.len(),
            forall|j: int|
                i <= j < n ==> #[trigger] stations.deep_view()[j] == old(
                    stations,
                ).deep_view()[j],
            forall|j: int|
                0 <= j < i ==> #[trigger] stations.deep_view()[j] == (StationModel {
                    district: Some(
                        resolved_district(old(stations).deep_view()[j].area, districts@),
                    ),
                    ..old(stations).deep_view()[j]
                }),
        decreases stations@.len() - i,
    {
        let ghost pre_vec = *stations;
        let mut st = placeholder_station();
        stations.set_and_swap(i, &mut st);
        let ghost st0 = st;
        let d = find_district(&st.area, districts);
        st.district = Some(d);
        let ghost resolved = st;
        let mut back = st;
        stations.set_and_swap(i, &mut back);
        proof {
            assert(st0 == pre_vec@[i as int]);
            assert(pre_vec.deep_view()[i as int] == pre_vec@[i as int]@);
            assert(pre_vec.deep_view()[i as int] == old(stations).deep_view()[i as int]);
            assert(st0@ == old(stations).deep_view()[i as int]);
            assert(stations@ =~= pre_vec@.update(i as int, resolved));
            crate::assoc::lemma_deep_view_update(pre_vec, *stations, i as int, resolved);
            assert(resolved@ == (StationModel {
                district: Some(
                    resolved_district(old(stations).deep_view()[i as int].area, districts@),
                ),
                ..old(stations).deep_view()[i as int]
            }));
            assert forall|j: int|
                0 <= j < i as int + 1 implies #[trigger] stations.deep_view()[j] == (StationModel {
                district: Some(
                    resolved_district(old(stations).deep_view()[j].area, districts@),
                ),
                ..old(stations).deep_view()[j]
            }) by {
                if j < i as int {
                    assert(stations.deep_view()[j] == pre_vec.deep_view()[j]);
                }
            }
            assert forall|j: int|
                i as int + 1 <= j < n implies #[trigger] stations.deep_view()[j] == old(
                stations,
            ).deep_view()[j] by {
                assert(stations.deep_view()[j] == pre_vec.deep_view()[j]);
            }
        }
        i = i + 1;
    }
}

/// The fixed catalog, each district annotated with the area spellings
/// currently mapped to it.
pub fn districts_with_areas(districts_map: &AreaMap) -> (r: Vec<District>)
    requires
        districts_map.wf(),
    ensures
        r.deep_view().len() == district_catalog().len(),
        forall|i: int|
            0 <= i < r.deep_view().len() ==> {
                let d = #[trigger] r.deep_view()[i];
                let base = district_catalog()[i];
                &&& d.id == base.id
                &&& d.name_en == base.name_en
                &&& d.name_el == base.name_el
                &&& match d.areas {
                    Some(ks) => ks.no_duplicates() && forall|k: Seq<char>| #[trigger]
                        ks.contains(k) <==> districts_map@.contains_key(k) && districts_map@[k].id
                            == base.id,
                    None => false,
                }
            },
{
    let all = districts();
    let mut out: Vec<District> = Vec::new();
    let mut i: usize = 0;
    while i < all.len()
        invariant
            districts_map.wf(),
            all.deep_view() == district_catalog(),
            all@.len() == district_catalog().len(),
            i <= all@.len(),
            out@.len() == i,
            forall|j: int|
                0 <= j < i ==> {
                    let d = #[trigger] out.deep_view()[j];
                    let base = district_catalog()[j];
                    &&& d.id == base.id
                    &&& d.name_en == base.name_en
                    &&& d.name_el == base.name_el
                    &&& match d.areas {
                        Some(ks) => ks.no_duplicates() && forall|k: Seq<char>| #[trigger]
                            ks.contains(k) <==> districts_map@.contains_key(k)
                                && districts_map@[k].id == base.id,
                        None => false,
                    }
                },
        decreases all@.len() - i,
    {
        let areas = find_areas_for_district(&all[i], districts_map);
        let ghost areas_dv = areas.deep_view();
        let d = District {
            id: all[i].id.clone(),
            name_en: all[i].name_en.clone(),
            name_el: all[i].name_el.clone(),
            areas: Some(areas),
        };
        let ghost dv = d;
        let ghost pre_deep = out.deep_view();
        let ghost pre_vec = out;
        out.push(d);
        proof {
            lemma_deep_view_push(pre_vec, out, dv);
            assert(all.deep_view()[i as int] == all@[i as int]@);
            assert(all@[i as int].id@ == district_catalog()[i as int].id);
            assert(dv@.areas == Some(areas_dv));
            assert forall|j: int|
                0 <= j < i as int + 1 implies {
                let d2 = #[trigger] out.deep_view()[j];
                let base = district_catalog()[j];
                &&& d2.id == base.id
                &&& d2.name_en == base.name_en
                &&& d2.name_el == base.name_el
                &&& match d2.areas {
                    Some(ks) => ks.no_duplicates() && forall|k: Seq<char>| #[trigger]
                        ks.contains(k) <==> districts_map@.contains_key(k) && districts_map@[k].id
                            == base.id,
                    None => false,
                }
            } by {
                if j < i as int {
                    assert(out.deep_view()[j] == pre_deep[j]);
                } else {
                    assert(out.deep_view()[j] == dv@);
                }
            }
        }
        i = i + 1;
    }
    out
}

/// The catalog district with the given id — the synthetic district when the
/// id is outside the catalog — annotated with the area spellings currently
/// mapped to it.
pub fn district_by_id(id: &String, districts_map: &AreaMap) -> (r: District)
    requires
        districts_map.wf(),
    ensures
        ({
            let base = catalog_district(id@);
            &&& r@.id == base.id
            &&& r@.name_en == base.name_en
            &&& r@.name_el == base.name_el
            &&& match r@.areas {
                Some(ks) => ks.no_duplicates() && forall|k: Seq<char>| #[trigger]
                    ks.contains(k) <==> districts_map@.contains_key(k) && districts_map@[k].id
                        == base.id,
                None => false,
            }
        }),
{
    proof {
        reveal_strlit("famagusta");
        reveal_strlit("larnaca");
        reveal_strlit("limassol");
        reveal_strlit("nicosia");
        reveal_strlit("paphos");
        reveal_strlit("unknown");
    }
    let all = districts();
    let mut found: Option<usize> = None;
    let mut i: usize = 0;
    while i < all.len()
        invariant
            all.deep_view() == district_catalog(),
            all@.len() == district_catalog().len(),
            i <= all@.len(),
            match found {
                Some(j) => j < i && district_catalog()[j as int].id == id@,
                None => forall|j: int|
                    0 <= j < i ==> (#[trigger] district_catalog()[j]).id != id@,
            },
        decreases all@.len() - i,
    {
        if found.is_none() && all[i].id == *id {
            proof {
                assert(all.deep_view()[i as int] == all@[i as int]@);
            }
            found = Some(i);
        }
        i = i + 1;
    }
    let base = match found {
        Some(j) => all[j].duplicate(),
        None => District::unknown(),
    };
    proof {
        match found {
            Some(j) => {
                assert(all.deep_view()[j as int] == all@[j as int]@);
                assert(base@ == district_catalog()[j as int]);
                assert(district_catalog()[0].id == "famagusta"@);
                assert(district_catalog()[1].id == "larnaca"@);
                assert(district_catalog()[2].id == "limassol"@);
                assert(district_catalog()[3].id == "nicosia"@);
                assert(district_catalog()[4].id == "paphos"@);
                if j == 0 {
                    assert(id@ == "famagusta"@);
                    assert(catalog_district(id@) == district_catalog()[0]);
                } else if j == 1 {
                    assert(id@ == "larnaca"@);
                    assert(id@ != "famagusta"@);
                    assert(catalog_district(id@) == district_catalog()[1]);
                } else if j == 2 {
                    assert(id@ == "limassol"@);
                    assert(id@ != "famagusta"@ && id@ != "larnaca"@);
                    assert(catalog_district(id@) == district_catalog()[2]);
                } else if j == 3 {
                    assert(id@ == "nicosia"@);
                    assert(("larnaca"@)[0] == 'l' && ("nicosia"@)[0] == 'n');
                    assert(id@ != "famagusta"@ && id@ != "larnaca"@ && id@ != "limassol"@);
                    assert(catalog_district(id@) == district_catalog()[3]);
                } else {
                    assert(j == 4);
                    assert(id@ == "paphos"@);
                    assert(id@ != "famagusta"@ && id@ != "larnaca"@ && id@ != "limassol"@ && id@
                        != "nicosia"@);
                    assert(catalog_district(id@) == district_catalog()[4]);
                }
                assert(base@ == catalog_district(id@));
            },
            None => {
                assert(district_catalog()[0].id == "famagusta"@);
                assert(district_catalog()[1].id == "larnaca"@);
                assert(district_catalog()[2].id == "limassol"@);
                assert(district_catalog()[3].id == "nicosia"@);
                assert(district_catalog()[4].id == "paphos"@);
                assert(id@ != "famagusta"@ && id@ != "larnaca"@ && id@ != "limassol"@ && id@
                    != "nicosia"@ && id@ != "paphos"@);
                assert(base@ == catalog_district(id@));
            },
        }
    }
    let areas = find_areas_for_district(&base, districts_map);
    let r = District {
        id: base.id,
        name_en: base.name_en,
        name_el: base.name_el,
        areas: Some(areas),
    };
    r
}

} // verus!
