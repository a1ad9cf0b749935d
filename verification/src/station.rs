//! A fuel station observation / merged station record. Identity is the pair
//! of raw coordinate strings, compared character for character — never
//! re-parsed as numbers.

use vstd::prelude::*;

use crate::district::{District, DistrictModel};
use crate::price::{PetroleumPrice, PriceModel};

verus! {

/// One station row: transient per scrape, or merged and cached. While cached,
/// `district` is `None` (the district is the partition key) and `prices`
/// holds at most one entry per fuel type.
#[derive(Clone, Debug)]
pub struct PetroleumStation {
    pub brand: String,
    pub offline: bool,
    pub company: String,
    pub address: String,
    pub latitude: String,
    pub longitude: String,
    pub area: String,
    pub prices: Vec<PetroleumPrice>,
    pub district: Option<District>,
}

/// Mathematical image of a [`PetroleumStation`].
#[verifier::ext_equal]
pub struct StationModel {
    pub brand: Seq<char>,
    pub offline: bool,
    pub company: Seq<char>,
    pub address: Seq<char>,
    pub latitude: Seq<char>,
    pub longitude: Seq<char>,
    pub area: Seq<char>,
    pub prices: Seq<PriceModel>,
    pub district: Option<DistrictModel>,
}

impl View for PetroleumStation {
    type V = StationModel;

    open spec fn view(&self) -> StationModel {
        StationModel {
            brand: self.brand@,
            offline: self.offline,
            company: self.company@,
            address: self.address@,
            latitude: self.latitude@,
            longitude: self.longitude@,
            area: self.area@,
            prices: self.prices.deep_view(),
            district: match self.district {
                Some(d) => Some(d@),
                None => None,
            },
        }
    }
}

impl DeepView for PetroleumStation {
    type V = StationModel;

    open spec fn deep_view(&self) -> StationModel {
        self@
    }
}

/// The identity of a station: its raw coordinate strings.
pub open spec fn station_key(s: StationModel) -> (Seq<char>, Seq<char>) {
    (s.latitude, s.longitude)
}

impl PartialEq for PetroleumStation {
    fn eq(&self, other: &Self) -> (r: bool) {
        self.latitude == other.latitude && self.longitude == other.longitude
    }
}

impl Eq for PetroleumStation {

}

impl vstd::std_specs::cmp::PartialEqSpecImpl for PetroleumStation {
    open spec fn obeys_eq_spec() -> bool {
        true
    }

    open spec fn eq_spec(&self, other: &Self) -> bool {
        station_key(self@) == station_key(other@)
    }
}

impl PetroleumStation {
    /// A verified deep copy; `derive(Clone)` is opaque to the verifier.
    pub fn duplicate(&self) -> (r: Self)
        ensures
            r@ == self@,
    {
        let mut prices: Vec<PetroleumPrice> = Vec::new();
        let mut i: usize = 0;
        while i < self.prices.len()
            invariant
                i <= self.prices.len(),
                prices.len() == i,
                forall|j: int| 0 <= j < i ==> prices.deep_view()[j] == self.prices.deep_view()[j],
            decreases self.prices.len() - i,
        {
            let p = self.prices[i].duplicate();
            let ghost pre = prices@;
            let ghost pre_deep = prices.deep_view();
            prices.push(p);
            proof {
                assert(prices@ == pre.push(p));
                assert forall|j: int| 0 <= j < pre.len() implies prices.deep_view()[j]
                    == pre_deep[j] by {
                    assert(prices@[j] == pre[j]);
                    assert(pre_deep[j] == pre[j].deep_view());
                }
                assert(prices.deep_view()[i as int] == p@);
                assert forall|j: int| 0 <= j < i as int + 1 implies prices.deep_view()[j]
                    == self.prices.deep_view()[j] by {
                    if j < i as int {
                        assert(prices.deep_view()[j] == pre_deep[j]);
                        assert(pre_deep[j] == self.prices.deep_view()[j]);
                    } else {
                        assert(prices.deep_view()[j] == p@);
                        assert(self.prices.deep_view()[j] == self.prices@[j]@);
                    }
                }
            }
            i = i + 1;
        }
        proof {
            assert(prices.deep_view() =~= self.prices.deep_view());
        }
        let district = match &self.district {
            Some(d) => Some(d.duplicate()),
            None => None,
        };
        PetroleumStation {
            brand: self.brand.clone(),
            offline: self.offline,
            company: self.company.clone(),
            address: self.address.clone(),
            latitude: self.latitude.clone(),
            longitude: self.longitude.clone(),
            area: self.area.clone(),
            prices,
            district,
        }
    }
}

/// A placeholder value swapped in while a real station is edited in place.
pub(crate) fn placeholder_station() -> PetroleumStation {
    PetroleumStation {
        brand: String::new(),
        offline: false,
        company: String::new(),
        address: String::new(),
        latitude: String::new(),
        longitude: String::new(),
        area: String::new(),
        prices: Vec::new(),
        district: None,
    }
}

/// A verified deep copy of a station list.
pub fn duplicate_stations(v: &Vec<PetroleumStation>) -> (r: Vec<PetroleumStation>)
    ensures
        r.deep_view() == v.deep_view(),
{
    let mut out: Vec<PetroleumStation> = Vec::new();
    let mut i: usize = 0;
    while i < v.len()
        invariant
            i <= v.len(),
            out.len() == i,
            forall|j: int| 0 <= j < i ==> out.deep_view()[j] == v.deep_view()[j],
        decreases v.len() - i,
    {
        let s = v[i].duplicate();
        let ghost pre_deep = out.deep_view();
        out.push(s);
        proof {
            assert(forall|j: int| 0 <= j < pre_deep.len() ==> out.deep_view()[j] == pre_deep[j]);
            assert(out.deep_view()[i as int] == s@);
            assert(v.deep_view()[i as int] == v@[i as int]@);
        }
        i = i + 1;
    }
    proof {
        assert(out.deep_view() =~= v.deep_view());
    }
    out
}

} // verus!
