use cygaz::PetroleumType;
use cygaz::CyGazError;
use cygaz::area::Area;
use cygaz::mapping::resolve_station_districts;
use cygaz::price::{PetroleumPrice, PriceList, millis_to_datetime};
use cygaz::station::PetroleumStation;
use cygaz::{default_host, default_port, transliterate, transliterate_areas};

#[test]
fn price_new_keeps_type_and_text() {
    let p = PetroleumPrice::new(PetroleumType::Unlead95, "1.509".to_string());
    assert_eq!(p.p_type, PetroleumType::Unlead95);
    assert_eq!(p.value, "1.509");
    let c = p.duplicate();
    assert_eq!(c, p);
}

#[test]
fn petroleum_type_codes() {
    assert_eq!(PetroleumType::Unlead95.code(), 1);
    assert_eq!(PetroleumType::Unlead98.code(), 2);
    assert_eq!(PetroleumType::DieselHeat.code(), 3);
    assert_eq!(PetroleumType::DieselAuto.code(), 4);
    assert_eq!(PetroleumType::Kerosene.code(), 5);
}

#[test]
fn petroleum_type_labels() {
    assert_eq!(PetroleumType::Unlead95.label(), "Unlead 95");
    assert_eq!(PetroleumType::Unlead98.label(), "Unlead 98");
    assert_eq!(PetroleumType::DieselHeat.label(), "Diesel Heat");
    assert_eq!(PetroleumType::DieselAuto.label(), "Diesel Auto");
    assert_eq!(PetroleumType::Kerosene.label(), "Unlead Kerosene");
}

#[test]
fn epoch_renders_as_utc_text() {
    assert_eq!(millis_to_datetime(0), "1970-01-01 00:00:00.000 UTC");
    assert_eq!(millis_to_datetime(999), "1970-01-01 00:00:00.000 UTC");
    assert_eq!(millis_to_datetime(1_000), "1970-01-01 00:00:01.000 UTC");
    assert_eq!(millis_to_datetime(86_400_000), "1970-01-02 00:00:00.000 UTC");
}

#[test]
fn now_text_matches_its_millis() {
    let (millis, text) = PriceList::now();
    assert_eq!(text, millis_to_datetime(millis));
}

#[test]
fn default_price_list_is_empty_and_stamped() {
    let pl = PriceList::default();
    assert_eq!(pl.prices.rows().len(), 0);
    assert_eq!(pl.updated_at_str, millis_to_datetime(pl.updated_at));
}

#[test]
fn transliterate_keeps_original_and_romanizes() {
    let (el, en) = transliterate("άνθρωποι");
    assert_eq!(el, "άνθρωποι");
    assert_eq!(en, "anthropoi");
    let (plain_el, plain_en) = transliterate("sample");
    assert_eq!(plain_el, "sample");
    assert_eq!(plain_en, "sample");
}

#[test]
fn transliterate_areas_fills_the_ascii_spelling() {
    let areas = vec![
        Area { name_en: String::new(), name_el: "Λεμεσός".to_string() },
        Area { name_en: "ignored".to_string(), name_el: "Πάφος".to_string() },
    ];
    let out = transliterate_areas(areas);
    assert_eq!(out.len(), 2);
    assert_eq!(out[0].name_el, "Λεμεσός");
    assert_eq!(out[0].name_en, "Lemesos");
    assert_eq!(out[1].name_el, "Πάφος");
    assert_eq!(out[1].name_en, "Pafos");
}

#[test]
fn error_carries_its_message() {
    let e = CyGazError::new("boom".to_string());
    assert_eq!(e.message(), "boom");
}

#[test]
fn config_defaults() {
    assert_eq!(default_port(), 8080);
    assert_eq!(default_host(), "0.0.0.0");
}

#[test]
fn station_identity_ignores_other_fields() {
    let a = PetroleumStation {
        brand: "A".to_string(),
        offline: false,
        company: "CO".to_string(),
        address: "addr".to_string(),
        latitude: "34.6".to_string(),
        longitude: "33.0".to_string(),
        area: "Lemesos".to_string(),
        prices: vec![],
        district: None,
    };
    let mut b = a.clone();
    b.brand = "B".to_string();
    assert_eq!(a, b);
    b.latitude = "34.7".to_string();
    assert_ne!(a, b);
}

#[test]
fn resolution_is_ticket_text_exact() {
    let mapping = cygaz::mapping::AreaMap::new();
    let mut obs = vec![PetroleumStation {
        brand: "A".to_string(),
        offline: true,
        company: "CO".to_string(),
        address: "addr".to_string(),
        latitude: "34.6".to_string(),
        longitude: "33.0".to_string(),
        area: "Anywhere".to_string(),
        prices: vec![PetroleumPrice::new(PetroleumType::Kerosene, "1.2".to_string())],
        district: None,
    }];
    resolve_station_districts(&mut obs, &mapping);
    assert_eq!(obs[0].district.as_ref().unwrap().id, "unknown");
    assert!(obs[0].offline);
    assert_eq!(obs[0].prices.len(), 1);
}
