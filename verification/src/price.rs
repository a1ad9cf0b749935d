//! Price readings and the published price list.

use vstd::prelude::*;

use crate::CyGazError;
use crate::PetroleumType;
use crate::district::{District, spec_is_valid};
use crate::laws::lemma_merge_lists_ok;
use crate::merge::{StationCache, cache_ok, merge_lists, obs_ok};
use crate::station::{PetroleumStation, StationModel};

verus! {

/// One price reading for one fuel type, kept as the original decimal text.
#[derive(Clone, Debug)]
pub struct PetroleumPrice {
    pub p_type: PetroleumType,
    pub value: String,
}

/// Mathematical image of a [`PetroleumPrice`].
#[verifier::ext_equal]
pub struct PriceModel {
    pub p_type: PetroleumType,
    pub value: Seq<char>,
}

impl View for PetroleumPrice {
    type V = PriceModel;

    open spec fn view(&self) -> PriceModel {
        PriceModel { p_type: self.p_type, value: self.value@ }
    }
}

impl DeepView for PetroleumPrice {
    type V = PriceModel;

    open spec fn deep_view(&self) -> PriceModel {
        self@
    }
}

impl PartialEq for PetroleumPrice {
    fn eq(&self, other: &Self) -> (r: bool) {
        self.p_type == other.p_type && self.value == other.value
    }
}

impl Eq for PetroleumPrice {

}

impl vstd::std_specs::cmp::PartialEqSpecImpl for PetroleumPrice {
    open spec fn obeys_eq_spec() -> bool {
        true
    }

    open spec fn eq_spec(&self, other: &Self) -> bool {
        self@ == other@
    }
}

impl PetroleumPrice {
    pub fn new(p_type: PetroleumType, price: String) -> (r: Self)
        ensures
            r@ == (PriceModel { p_type, value: price@ }),
    {
        PetroleumPrice { p_type, value: price }
    }

    /// A verified deep copy; `derive(Clone)` is opaque to the verifier.
    pub fn duplicate(&self) -> (r: Self)
        ensures
            r@ == self@,
    {
        PetroleumPrice { p_type: self.p_type, value: self.value.clone() }
    }
}

/// The text that the library renders for a given epoch second count:
/// `YYYY-MM-DD HH:MM:SS.mmm UTC`. Named, not spelled out: the rendering is
/// delegated to the calendar library.
pub uninterp spec fn datetime_text(secs: i64) -> Seq<char>;

/// Relies on `chrono::DateTime::from_timestamp` (UTC datetime of an epoch
/// second count, the epoch itself when out of range) and `chrono`'s `format`:
/// both are deterministic in `secs` alone.
#[verifier::external_body]
fn render_datetime(secs: i64) -> (r: String)
    ensures
        r@ == datetime_text(secs),
{
    let datetime_utc = chrono::DateTime::from_timestamp(secs, 0).unwrap_or_default();
    datetime_utc.format("%Y-%m-%d %H:%M:%S%.3f UTC").to_string()
}

/// The epoch second count rendered for a given epoch millisecond count:
/// milliseconds are rounded down to whole seconds, and a count whose seconds
/// exceed the rendering range collapses to the epoch.
pub open spec fn spec_millis_to_secs(millis: u128) -> i64 {
    if millis / 1000 <= i64::MAX as u128 {
        (millis / 1000) as i64
    } else {
        0
    }
}

/// Human-readable UTC text for an epoch millisecond count.
pub fn millis_to_datetime(millis: u128) -> (r: String)
    ensures
        r@ == datetime_text(spec_millis_to_secs(millis)),
{
    let q = millis / 1000;
    let secs: i64 = if q <= i64::MAX as u128 {
        q as i64
    } else {
        0
    };
    render_datetime(secs)
}

/// Relies on `std::time::SystemTime::now`: milliseconds since the epoch, or 0
/// when the system clock stands before it. Nothing can be promised of the
/// clock's reading.
#[verifier::external_body]
fn now_millis() -> u128 {
    match std::time::SystemTime::now().duration_since(std::time::UNIX_EPOCH) {
        Ok(d) => d.as_millis(),
        Err(_) => 0,
    }
}

/// The published price list: a timestamp and the district-partitioned cache
/// of merged stations. Replaced as one value on a refresh, so a reader never
/// sees the stations of one pass under the timestamp of another.
#[derive(Clone, Debug)]
pub struct PriceList {
    pub updated_at: u128,
    pub updated_at_str: String,
    pub prices: StationCache,
}

impl PriceList {
    /// The clock reading a refresh stamps the cache with: epoch milliseconds
    /// and their rendered text.
    pub fn now() -> (r: (u128, String))
        ensures
            r.1@ == datetime_text(spec_millis_to_secs(r.0)),
    {
        let epoch_updated_at = now_millis();
        let datetime = millis_to_datetime(epoch_updated_at);
        (epoch_updated_at, datetime)
    }
}

impl Default for PriceList {
    /// An empty price list stamped with the current clock reading.
    fn default() -> (r: Self)
        ensures
            r.prices.wf(),
            r.prices@ == Map::<Seq<char>, Seq<StationModel>>::empty(),
            cache_ok(r.prices@),
            r.updated_at_str@ == datetime_text(spec_millis_to_secs(r.updated_at)),
    {
        let t = PriceList::now();
        PriceList { updated_at: t.0, updated_at_str: t.1, prices: StationCache::new() }
    }
}

/// One refresh cycle's cache write: the per-fuel-type observation lists are
/// folded into the station cache and the timestamp moves to the clock's
/// current reading. A fuel type whose fetch failed contributes an empty list
/// and changes nothing.
pub fn refresh_price_list(price_list: &mut PriceList, lists: &Vec<Vec<PetroleumStation>>)
    requires
        old(price_list).prices.wf(),
    ensures
        final(price_list).prices.wf(),
        final(price_list).prices@ == merge_lists(old(price_list).prices@, lists.deep_view()),
        final(price_list).updated_at_str@ == datetime_text(
            spec_millis_to_secs(final(price_list).updated_at),
        ),
        cache_ok(old(price_list).prices@) && (forall|i: int|
            0 <= i < lists.deep_view().len() ==> obs_ok(#[trigger] lists.deep_view()[i]))
            ==> cache_ok(final(price_list).prices@),
{
    price_list.prices.merge_station_lists(lists);
    proof {
        if cache_ok(old(price_list).prices@) && (forall|i: int|
            0 <= i < lists.deep_view().len() ==> obs_ok(#[trigger] lists.deep_view()[i])) {
            lemma_merge_lists_ok(old(price_list).prices@, lists.deep_view());
        }
    }
    let time = PriceList::now();
    price_list.updated_at = time.0;
    price_list.updated_at_str = time.1;
}

/// The stations cached for a district id: a client error for an id outside
/// the fixed catalog, the district's stations — possibly none — otherwise.
pub fn query_district(price_list: &PriceList, id: &String) -> (r: Result<
    Vec<PetroleumStation>,
    CyGazError,
>)
    requires
        price_list.prices.wf(),
    ensures
        match r {
            Ok(stations) => spec_is_valid(id@) && stations.deep_view() == (
            if price_list.prices@.contains_key(id@) {
                price_list.prices@[id@]
            } else {
                Seq::<StationModel>::empty()
            }),
            Err(e) => !spec_is_valid(id@) && e@ == "invalid district id"@,
        },
{
    if !District::is_valid(id.clone()) {
        return Err(CyGazError::new("invalid district id".to_owned()));
    }
    Ok(price_list.prices.stations_of(id))
}

} // verus!
