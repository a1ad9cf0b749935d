//! A locality name as printed on a price ticket, in its two scripts.

use vstd::prelude::*;

verus! {

/// A free-text area name: primary-script spelling and its transliteration.
#[derive(Clone, Debug)]
pub struct Area {
    pub name_en: String,
    pub name_el: String,
}

/// Mathematical image of an [`Area`]: the two spellings as character sequences.
#[verifier::ext_equal]
pub struct AreaModel {
    pub name_en: Seq<char>,
    pub name_el: Seq<char>,
}

impl View for Area {
    type V = AreaModel;

    open spec fn view(&self) -> AreaModel {
        AreaModel { name_en: self.name_en@, name_el: self.name_el@ }
    }
}

impl DeepView for Area {
    type V = AreaModel;

    open spec fn deep_view(&self) -> AreaModel {
        self@
    }
}

impl PartialEq for Area {
    fn eq(&self, other: &Self) -> (r: bool) {
        self.name_en == other.name_en && self.name_el == other.name_el
    }
}

impl Eq for Area {

}

impl vstd::std_specs::cmp::PartialEqSpecImpl for Area {
    open spec fn obeys_eq_spec() -> bool {
        true
    }

    open spec fn eq_spec(&self, other: &Self) -> bool {
        self@ == other@
    }
}

} // verus!
