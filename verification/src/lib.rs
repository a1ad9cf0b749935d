//! Core of a fuel-price aggregation service: station observations scraped per
//! fuel type are merged into a district-partitioned, station-deduplicated
//! price cache that can be queried while it is refreshed in the background.

pub mod area;
pub mod assoc;
pub mod district;
pub mod laws;
pub mod mapping;
pub mod merge;
pub mod price;
pub mod station;

use vstd::prelude::*;

verus! {

/// The fixed set of petroleum products tracked by the upstream portal.
#[derive(Clone, Copy, Debug, PartialEq, Eq, Structural)]
pub enum PetroleumType {
    Unlead95,
    Unlead98,
    DieselHeat,
    DieselAuto,
    Kerosene,
}

impl PetroleumType {
    /// Numeric code of this product in the portal's price form.
    pub open spec fn spec_code(self) -> u8 {
        match self {
            PetroleumType::Unlead95 => 1,
            PetroleumType::Unlead98 => 2,
            PetroleumType::DieselHeat => 3,
            PetroleumType::DieselAuto => 4,
            PetroleumType::Kerosene => 5,
        }
    }

    pub fn code(&self) -> (r: u8)
        ensures
            r == self.spec_code(),
    {
        match self {
            PetroleumType::Unlead95 => 1,
            PetroleumType::Unlead98 => 2,
            PetroleumType::DieselHeat => 3,
            PetroleumType::DieselAuto => 4,
            PetroleumType::Kerosene => 5,
        }
    }

    /// Human-readable label of this product.
    pub open spec fn spec_label(self) -> Seq<char> {
        match self {
            PetroleumType::Unlead95 => "Unlead 95"@,
            PetroleumType::Unlead98 => "Unlead 98"@,
            PetroleumType::DieselHeat => "Diesel Heat"@,
            PetroleumType::DieselAuto => "Diesel Auto"@,
            PetroleumType::Kerosene => "Unlead Kerosene"@,
        }
    }

    pub fn label(&self) -> (r: String)
        ensures
            r@ == self.spec_label(),
    {
        match self {
            PetroleumType::Unlead95 => "Unlead 95".to_owned(),
            PetroleumType::Unlead98 => "Unlead 98".to_owned(),
            PetroleumType::DieselHeat => "Diesel Heat".to_owned(),
            PetroleumType::DieselAuto => "Diesel Auto".to_owned(),
            PetroleumType::Kerosene => "Unlead Kerosene".to_owned(),
        }
    }
}

/// Error carried out of the library: a human-readable message.
#[derive(Clone, Debug)]
pub struct CyGazError(String);

impl View for CyGazError {
    type V = Seq<char>;

    closed spec fn view(&self) -> Seq<char> {
        self.0@
    }
}

impl CyGazError {
    pub fn new(message: String) -> (r: Self)
        ensures
            r@ == message@,
    {
        CyGazError(message)
    }

    pub fn message(&self) -> (r: &String)
        ensures
            r@ == self@,
    {
        &self.0
    }
}

/// The ASCII transliteration of a character sequence. Named, not spelled out:
/// the character tables live in the transliteration library.
pub uninterp spec fn ascii_of(s: Seq<char>) -> Seq<char>;

/// Relies on `any_ascii::any_ascii`: the transliteration is character by
/// character, depends on the input characters alone, and of an empty input is
/// empty.
#[verifier::external_body]
fn to_any_ascii(s: &str) -> (r: String)
    ensures
        r@ == ascii_of(s@),
        s@.len() == 0 ==> r@.len() == 0,
{
    any_ascii::any_ascii(s)
}

/// A spelling in its original script, paired with its ASCII transliteration.
pub fn transliterate(original: &str) -> (r: (String, String))
    ensures
        r.0@ == original@,
        r.1@ == ascii_of(original@),
{
    let english = to_any_ascii(original);
    (original.to_owned(), english)
}

/// Rewrites each fetched area so that `name_el` keeps the portal's spelling
/// and `name_en` carries its ASCII transliteration.
pub fn transliterate_areas(areas: Vec<crate::area::Area>) -> (r: Vec<crate::area::Area>)
    ensures
        r.deep_view().len() == areas.deep_view().len(),
        forall|i: int|
            0 <= i < areas.deep_view().len() ==> #[trigger] r.deep_view()[i]
                == (crate::area::AreaModel {
                name_el: areas.deep_view()[i].name_el,
                name_en: ascii_of(areas.deep_view()[i].name_el),
            }),
{
    let mut out: Vec<crate::area::Area> = Vec::new();
    let mut i: usize = 0;
    while i < areas.len()
        invariant
            i <= areas.len(),
            out.len() == i,
            forall|j: int|
                0 <= j < i ==> #[trigger] out.deep_view()[j] == (crate::area::AreaModel {
                    name_el: areas.deep_view()[j].name_el,
                    name_en: ascii_of(areas.deep_view()[j].name_el),
                }),
        decreases areas.len() - i,
    {
        let (name_el, name_en) = transliterate(areas[i].name_el.as_str());
        let ghost pre_deep = out.deep_view();
        let a = crate::area::Area { name_en, name_el };
        out.push(a);
        proof {
            assert(forall|j: int| 0 <= j < pre_deep.len() ==> out.deep_view()[j] == pre_deep[j]);
            assert(out.deep_view()[i as int] == a@);
            assert(areas.deep_view()[i as int] == areas@[i as int]@);
            assert(out.deep_view()[i as int] == (crate::area::AreaModel {
                name_el: areas.deep_view()[i as int].name_el,
                name_en: ascii_of(areas.deep_view()[i as int].name_el),
            }));
            assert forall|j: int| 0 <= j < i as int + 1 implies #[trigger] out.deep_view()[j]
                == (crate::area::AreaModel {
                name_el: areas.deep_view()[j].name_el,
                name_en: ascii_of(areas.deep_view()[j].name_el),
            }) by {
                if j < i as int {
                    assert(out.deep_view()[j] == pre_deep[j]);
                }
            }
        }
        i = i + 1;
    }
    out
}

/// Default TCP port of the HTTP front end.
pub fn default_port() -> (r: u16)
    ensures
        r == 8080,
{
    8080
}

/// Default bind address of the HTTP front end.
pub fn default_host() -> (r: String)
    ensures
        r@ == "0.0.0.0"@,
{
    "0.0.0.0".to_owned()
}

} // verus!
