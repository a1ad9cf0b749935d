use cygaz::PetroleumType;
use cygaz::district::District;
use cygaz::mapping::{AreaMap, resolve_station_districts};
use cygaz::merge::StationCache;
use cygaz::price::{PetroleumPrice, PriceList, query_district, refresh_price_list};
use cygaz::station::PetroleumStation;

fn observation(
    brand: &str,
    lat: &str,
    lon: &str,
    area: &str,
    fuel: PetroleumType,
    price: &str,
) -> PetroleumStation {
    PetroleumStation {
        brand: brand.to_string(),
        offline: false,
        company: "PetroCo".to_string(),
        address: "1 Seaside Road".to_string(),
        latitude: lat.to_string(),
        longitude: lon.to_string(),
        area: area.to_string(),
        prices: vec![PetroleumPrice::new(fuel, price.to_string())],
        district: None,
    }
}

fn lemesos_mapping() -> AreaMap {
    let mut mapping = AreaMap::new();
    mapping.insert(
        "Lemesos".to_string(),
        District::new("Limassol".to_string(), "Λεμεσός".to_string()),
    );
    mapping
}

#[test]
fn two_observations_one_station_two_prices() {
    // Two readings of the same physical station, one per fuel type, end as one
    // cached station under `limassol` with both prices.
    let mapping = lemesos_mapping();
    let mut obs = vec![
        observation("STATION_A", "34.6", "33.0", "Lemesos", PetroleumType::Unlead95, "1.50"),
        observation("STATION_A", "34.6", "33.0", "Lemesos", PetroleumType::DieselAuto, "1.30"),
    ];
    resolve_station_districts(&mut obs, &mapping);

    let mut cache = StationCache::new();
    cache.merge_stations(&obs);

    let row = cache.stations_of(&"limassol".to_string());
    assert_eq!(row.len(), 1);
    let station = &row[0];
    assert_eq!(station.brand, "STATION_A");
    assert_eq!(station.latitude, "34.6");
    assert_eq!(station.longitude, "33.0");
    assert!(station.district.is_none());
    assert_eq!(station.prices.len(), 2);
    assert_eq!(station.prices[0].p_type, PetroleumType::Unlead95);
    assert_eq!(station.prices[0].value, "1.50");
    assert_eq!(station.prices[1].p_type, PetroleumType::DieselAuto);
    assert_eq!(station.prices[1].value, "1.30");
}

#[test]
fn unresolved_area_never_cached() {
    // An observation whose area text is not in the mapping appears under no
    // district at all.
    let mapping = lemesos_mapping();
    let mut obs = vec![
        observation("GHOST", "35.0", "33.5", "Nonexistent", PetroleumType::Unlead95, "1.99"),
        observation("REAL", "34.6", "33.0", "Lemesos", PetroleumType::Unlead95, "1.50"),
    ];
    resolve_station_districts(&mut obs, &mapping);

    let mut cache = StationCache::new();
    cache.merge_stations(&obs);

    for row in cache.rows() {
        for station in &row.stations {
            assert_ne!(station.brand, "GHOST");
        }
    }
    assert_eq!(cache.stations_of(&"limassol".to_string()).len(), 1);
    assert_eq!(cache.stations_of(&"unknown".to_string()).len(), 0);
}

#[test]
fn merge_is_idempotent() {
    // Running the same merge twice yields a structurally identical cache.
    let mapping = lemesos_mapping();
    let mut obs = vec![
        observation("STATION_A", "34.6", "33.0", "Lemesos", PetroleumType::Unlead95, "1.50"),
        observation("STATION_B", "34.7", "33.1", "Lemesos", PetroleumType::DieselAuto, "1.30"),
    ];
    resolve_station_districts(&mut obs, &mapping);

    let mut once = StationCache::new();
    once.merge_stations(&obs);
    let mut twice = StationCache::new();
    twice.merge_stations(&obs);
    twice.merge_stations(&obs);

    let a = once.rows();
    let b = twice.rows();
    assert_eq!(a.len(), b.len());
    for (ra, rb) in a.iter().zip(b.iter()) {
        assert_eq!(ra.district_id, rb.district_id);
        assert_eq!(ra.stations.len(), rb.stations.len());
        for (sa, sb) in ra.stations.iter().zip(rb.stations.iter()) {
            assert_eq!(sa.brand, sb.brand);
            assert_eq!(sa.latitude, sb.latitude);
            assert_eq!(sa.longitude, sb.longitude);
            assert_eq!(sa.prices.len(), sb.prices.len());
            for (pa, pb) in sa.prices.iter().zip(sb.prices.iter()) {
                assert_eq!(pa.p_type, pb.p_type);
                assert_eq!(pa.value, pb.value);
            }
        }
    }
}

#[test]
fn duplicate_fuel_type_first_reading_wins() {
    // A second reading for a fuel type already present leaves the existing
    // entry untouched.
    let mapping = lemesos_mapping();
    let mut obs = vec![
        observation("STATION_A", "34.6", "33.0", "Lemesos", PetroleumType::Unlead95, "1.50"),
        observation("STATION_A", "34.6", "33.0", "Lemesos", PetroleumType::Unlead95, "1.60"),
    ];
    resolve_station_districts(&mut obs, &mapping);

    let mut cache = StationCache::new();
    cache.merge_stations(&obs);

    let row = cache.stations_of(&"limassol".to_string());
    assert_eq!(row.len(), 1);
    assert_eq!(row[0].prices.len(), 1);
    assert_eq!(row[0].prices[0].value, "1.50");
}

#[test]
fn coordinates_compared_as_strings() {
    // "34.60" and "34.6" are the same number but different identities.
    let mapping = lemesos_mapping();
    let mut obs = vec![
        observation("STATION_A", "34.6", "33.0", "Lemesos", PetroleumType::Unlead95, "1.50"),
        observation("STATION_A", "34.60", "33.0", "Lemesos", PetroleumType::Unlead95, "1.50"),
    ];
    resolve_station_districts(&mut obs, &mapping);

    let mut cache = StationCache::new();
    cache.merge_stations(&obs);

    assert_eq!(cache.stations_of(&"limassol".to_string()).len(), 2);
}

#[test]
fn failed_fetch_leaves_other_fuel_types_and_old_data() {
    // One fuel type's fetch failed (empty list); the others still land, and
    // previously cached data stays.
    let mapping = lemesos_mapping();
    let mut earlier = vec![observation(
        "OLD",
        "34.0",
        "32.9",
        "Lemesos",
        PetroleumType::Kerosene,
        "1.10",
    )];
    resolve_station_districts(&mut earlier, &mapping);

    let mut price_list = PriceList::default();
    refresh_price_list(&mut price_list, &vec![earlier]);

    let mut unlead = vec![observation(
        "NEW",
        "34.6",
        "33.0",
        "Lemesos",
        PetroleumType::Unlead95,
        "1.50",
    )];
    resolve_station_districts(&mut unlead, &mapping);
    let failed_diesel: Vec<PetroleumStation> = vec![];

    refresh_price_list(&mut price_list, &vec![unlead, failed_diesel]);

    let row = price_list.prices.stations_of(&"limassol".to_string());
    assert_eq!(row.len(), 2);
    let brands: Vec<&str> = row.iter().map(|s| s.brand.as_str()).collect();
    assert!(brands.contains(&"OLD"));
    assert!(brands.contains(&"NEW"));
}

#[test]
fn query_district_rejects_invalid_id() {
    let price_list = PriceList::default();
    let result = query_district(&price_list, &"atlantis".to_string());
    assert!(result.is_err());
    assert_eq!(result.unwrap_err().message(), "invalid district id");
}

#[test]
fn query_district_valid_but_empty_is_ok() {
    let price_list = PriceList::default();
    let result = query_district(&price_list, &"nicosia".to_string());
    assert_eq!(result.unwrap().len(), 0);
}

#[test]
fn query_district_returns_cached_stations() {
    let mapping = lemesos_mapping();
    let mut obs = vec![observation(
        "STATION_A",
        "34.6",
        "33.0",
        "Lemesos",
        PetroleumType::Unlead95,
        "1.50",
    )];
    resolve_station_districts(&mut obs, &mapping);

    let mut price_list = PriceList::default();
    refresh_price_list(&mut price_list, &vec![obs]);

    let row = query_district(&price_list, &"limassol".to_string()).unwrap();
    assert_eq!(row.len(), 1);
    assert_eq!(row[0].brand, "STATION_A");
    // The synthetic district id is outside the fixed catalog.
    assert!(query_district(&price_list, &"unknown".to_string()).is_err());
}

#[test]
fn merging_empty_lists_changes_nothing() {
    let mut cache = StationCache::new();
    cache.merge_station_lists(&vec![vec![], vec![]]);
    assert_eq!(cache.rows().len(), 0);
}

#[test]
fn observation_without_district_is_skipped() {
    // An observation that never went through resolution carries no district
    // and is dropped by the merge.
    let obs = vec![observation(
        "STATION_A",
        "34.6",
        "33.0",
        "Lemesos",
        PetroleumType::Unlead95,
        "1.50",
    )];
    let mut cache = StationCache::new();
    cache.merge_stations(&obs);
    assert_eq!(cache.rows().len(), 0);
}
