//! Administrative districts: a fixed enumerated catalog plus a synthetic
//! `unknown` district for unresolved areas. Identity is by `id` alone.

use vstd::prelude::*;

verus! {

/// One administrative district. `id` is a lowercase ASCII slug and is the
/// sole identity; `areas` optionally carries the area names currently mapped
/// to the district when the catalog is served.
#[derive(Clone, Debug)]
pub struct District {
    pub id: String,
    pub name_en: String,
    pub name_el: String,
    pub areas: Option<Vec<String>>,
}

/// Mathematical image of a [`District`].
#[verifier::ext_equal]
pub struct DistrictModel {
    pub id: Seq<char>,
    pub name_en: Seq<char>,
    pub name_el: Seq<char>,
    pub areas: Option<Seq<Seq<char>>>,
}

impl View for District {
    type V = DistrictModel;

    open spec fn view(&self) -> DistrictModel {
        DistrictModel {
            id: self.id@,
            name_en: self.name_en@,
            name_el: self.name_el@,
            areas: match self.areas {
                Some(v) => Some(v.deep_view()),
                None => None,
            },
        }
    }
}

impl DeepView for District {
    type V = DistrictModel;

    open spec fn deep_view(&self) -> DistrictModel {
        self@
    }
}

impl PartialEq for District {
    fn eq(&self, other: &Self) -> (r: bool) {
        self.id == other.id
    }
}

impl Eq for District {

}

impl vstd::std_specs::cmp::PartialEqSpecImpl for District {
    open spec fn obeys_eq_spec() -> bool {
        true
    }

    open spec fn eq_spec(&self, other: &Self) -> bool {
        self.id@ == other.id@
    }
}

/// ASCII lowercasing of a single character, as `str::to_ascii_lowercase`
/// performs it: `'A'..='Z'` move to lowercase, everything else is unchanged.
pub open spec fn lower_char(c: char) -> char {
    if 'A' <= c && c <= 'Z' {
        ((c as u8) + 32) as char
    } else {
        c
    }
}

/// ASCII lowercasing of a whole character sequence.
pub open spec fn lower_seq(s: Seq<char>) -> Seq<char> {
    s.map_values(|c: char| lower_char(c))
}

/// Relies on `str::to_ascii_lowercase`: ASCII uppercase letters are mapped to
/// their lowercase counterparts, all other characters are left unchanged.
#[verifier::external_body]
fn ascii_lowercase(s: &str) -> (r: String)
    ensures
        r@ == lower_seq(s@),
{
    s.to_ascii_lowercase()
}

/// Model of the synthetic district used for unresolved areas.
pub open spec fn unknown_model() -> DistrictModel {
    DistrictModel {
        id: "unknown"@,
        name_en: "Unknown"@,
        name_el: "Αγνωστο"@,
        areas: None,
    }
}

/// The ids of the fixed enumerated districts.
pub open spec fn spec_is_valid(id: Seq<char>) -> bool {
    ||| id == "famagusta"@
    ||| id == "larnaca"@
    ||| id == "limassol"@
    ||| id == "nicosia"@
    ||| id == "paphos"@
}

/// Models of the fixed enumerated districts, in catalog order.
pub open spec fn district_catalog() -> Seq<DistrictModel> {
    seq![
        DistrictModel { id: "famagusta"@, name_en: "Famagusta"@, name_el: "Αμμόχωστος"@, areas: None },
        DistrictModel { id: "larnaca"@, name_en: "Larnaca"@, name_el: "Λάρνακα"@, areas: None },
        DistrictModel { id: "limassol"@, name_en: "Limassol"@, name_el: "Λεμεσός"@, areas: None },
        DistrictModel { id: "nicosia"@, name_en: "Nicosia"@, name_el: "Λευκωσία"@, areas: None },
        DistrictModel { id: "paphos"@, name_en: "Paphos"@, name_el: "Πάφος"@, areas: None },
    ]
}

/// The catalog district carrying the given id, or the synthetic district when
/// the id is outside the catalog.
pub open spec fn catalog_district(id: Seq<char>) -> DistrictModel {
    if id == "famagusta"@ {
        district_catalog()[0]
    } else if id == "larnaca"@ {
        district_catalog()[1]
    } else if id == "limassol"@ {
        district_catalog()[2]
    } else if id == "nicosia"@ {
        district_catalog()[3]
    } else if id == "paphos"@ {
        district_catalog()[4]
    } else {
        unknown_model()
    }
}

impl District {
    /// Builds a district from its two spellings; the id is the ASCII-lowercased
    /// primary spelling.
    pub fn new(name_en: String, name_el: String) -> (r: Self)
        ensures
            r@ == (DistrictModel {
                id: lower_seq(name_en@),
                name_en: name_en@,
                name_el: name_el@,
                areas: None,
            }),
    {
        let id = ascii_lowercase(name_en.as_str());
        District { id, name_en, name_el, areas: None }
    }

    /// Whether `district_id` is the id of one of the fixed enumerated districts.
    pub fn is_valid(district_id: String) -> (r: bool)
        ensures
            r == spec_is_valid(district_id@),
    {
        district_id == "famagusta".to_owned() || district_id == "larnaca".to_owned()
            || district_id == "limassol".to_owned() || district_id == "nicosia".to_owned()
            || district_id == "paphos".to_owned()
    }

    /// The synthetic district under which no station is ever cached.
    pub fn unknown() -> (r: Self)
        ensures
            r@ == unknown_model(),
    {
        District {
            id: "unknown".to_owned(),
            name_en: "Unknown".to_owned(),
            name_el: "Αγνωστο".to_owned(),
            areas: None,
        }
    }

    /// A verified deep copy; `derive(Clone)` is opaque to the verifier.
    pub fn duplicate(&self) -> (r: Self)
        ensures
            r@ == self@,
    {
        let areas = match &self.areas {
            Some(v) => {
                let c = v.clone();
                proof {
                    assert(c.deep_view() =~= v.deep_view());
                }
                Some(c)
            },
            None => None,
        };
        District {
            id: self.id.clone(),
            name_en: self.name_en.clone(),
            name_el: self.name_el.clone(),
            areas,
        }
    }
}

/// The fixed district catalog, in a stable order.
pub fn districts() -> (r: Vec<District>)
    ensures
        r.deep_view() == district_catalog(),
{
    let mut all: Vec<District> = Vec::new();
    all.push(District {
        id: "famagusta".to_owned(),
        name_en: "Famagusta".to_owned(),
        name_el: "Αμμόχωστος".to_owned(),
        areas: None,
    });
    all.push(District {
        id: "larnaca".to_owned(),
        name_en: "Larnaca".to_owned(),
        name_el: "Λάρνακα".to_owned(),
        areas: None,
    });
    all.push(District {
        id: "limassol".to_owned(),
        name_en: "Limassol".to_owned(),
        name_el: "Λεμεσός".to_owned(),
        areas: None,
    });
    all.push(District {
        id: "nicosia".to_owned(),
        name_en: "Nicosia".to_owned(),
        name_el: "Λευκωσία".to_owned(),
        areas: None,
    });
    all.push(District {
        id: "paphos".to_owned(),
        name_en: "Paphos".to_owned(),
        name_el: "Πάφος".to_owned(),
        areas: None,
    });
    proof {
        assert(all.deep_view() =~= district_catalog());
    }
    all
}

} // verus!
