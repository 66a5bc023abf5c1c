//! The listing record: one structured real-estate result extracted from a
//! search page, with its mathematical view.

use vstd::prelude::*;
use crate::decimal::Dec;

verus! {

/// One extracted listing.
#[derive(Clone, Debug)]
pub struct Housing {
    /// Stable identifier assigned by the source site; the dedup key.
    pub id: String,
    /// Canonical detail-page link.
    pub url: String,
    /// Title text with marketing noise removed and whitespace trimmed.
    pub title: String,
    pub price: Dec,
    pub size: Dec,
    pub rooms: Dec,
    /// Free-text address block.
    pub address: String,
}

/// The mathematical view of a listing.
pub ghost struct HousingView {
    pub id: Seq<char>,
    pub url: Seq<char>,
    pub title: Seq<char>,
    pub price: Dec,
    pub size: Dec,
    pub rooms: Dec,
    pub address: Seq<char>,
}

impl View for Housing {
    type V = HousingView;

    open spec fn view(&self) -> HousingView {
        HousingView {
            id: self.id@,
            url: self.url@,
            title: self.title@,
            price: self.price,
            size: self.size,
            rooms: self.rooms,
            address: self.address@,
        }
    }
}

impl DeepView for Housing {
    type V = HousingView;

    open spec fn deep_view(&self) -> HousingView {
        self.view()
    }
}

impl PartialEq for Housing {
    fn eq(&self, other: &Housing) -> (r: bool) {
        self.id == other.id && self.url == other.url && self.title == other.title && self.price
            == other.price && self.size == other.size && self.rooms == other.rooms
            && self.address == other.address
    }
}

impl vstd::std_specs::cmp::PartialEqSpecImpl for Housing {
    open spec fn obeys_eq_spec() -> bool {
        true
    }

    open spec fn eq_spec(&self, other: &Housing) -> bool {
        self@ == other@
    }
}

impl Housing {
    /// An exact copy whose view is stated to equal the source's, which a
    /// derived clone would not give.
    pub fn duplicate(&self) -> (r: Housing)
        ensures
            r@ == self@,
    {
        Housing {
            id: self.id.clone(),
            url: self.url.clone(),
            title: self.title.clone(),
            price: self.price,
            size: self.size,
            rooms: self.rooms,
            address: self.address.clone(),
        }
    }
}

} // verus!
