//! When two values count as the same: folders by name, and matches by the
//! name of the matched model. Folders are also ordered by name.

use vstd::prelude::*;
use std::cmp::Ordering;
use vstd::std_specs::cmp::{PartialEqSpecImpl, PartialOrdSpecImpl};
use crate::model::{Folder, GeoMatch, ImageMatch, ModelMatch};
use crate::text::{
    chars_lt, lemma_chars_lt_asymmetric, lemma_chars_lt_irreflexive, lemma_chars_lt_total, str_eq,
    str_less,
};

verus! {

impl PartialEq for Folder {
    fn eq(&self, other: &Self) -> (r: bool) {
        str_eq(self.name.as_str(), other.name.as_str())
    }
}

impl PartialEqSpecImpl for Folder {
    open spec fn obeys_eq_spec() -> bool {
        true
    }

    open spec fn eq_spec(&self, other: &Self) -> bool {
        self.name@ == other.name@
    }
}

impl Eq for Folder {
}

/// The order of folders: that of their names.
pub open spec fn folder_order(a: Folder, b: Folder) -> Ordering {
    if a.name@ == b.name@ {
        Ordering::Equal
    } else if chars_lt(a.name@, b.name@) {
        Ordering::Less
    } else {
        Ordering::Greater
    }
}

/// Folders are ordered by name: equal exactly when their names are, one
/// before the other exactly when its name comes first, the order being the
/// reverse when the folders are swapped.
pub proof fn lemma_folder_order_by_name(a: Folder, b: Folder)
    ensures
        (folder_order(a, b) == Ordering::Equal) <==> a.name@ == b.name@,
        (folder_order(a, b) == Ordering::Less) <==> chars_lt(a.name@, b.name@),
        (folder_order(a, b) == Ordering::Less) <==> (folder_order(b, a) == Ordering::Greater),
{
    lemma_chars_lt_irreflexive(a.name@);
    if a.name@ != b.name@ {
        lemma_chars_lt_total(a.name@, b.name@);
        if chars_lt(a.name@, b.name@) {
            lemma_chars_lt_asymmetric(a.name@, b.name@);
        }
    }
}

impl PartialOrd for Folder {
    fn partial_cmp(&self, other: &Self) -> (r: Option<Ordering>) {
        if str_eq(self.name.as_str(), other.name.as_str()) {
            Some(Ordering::Equal)
        } else if str_less(self.name.as_str(), other.name.as_str()) {
            Some(Ordering::Less)
        } else {
            Some(Ordering::Greater)
        }
    }
}

impl PartialOrdSpecImpl for Folder {
    open spec fn obeys_partial_cmp_spec() -> bool {
        true
    }

    open spec fn partial_cmp_spec(&self, other: &Self) -> Option<Ordering> {
        Some(folder_order(*self, *other))
    }
}

impl PartialEq for ModelMatch {
    fn eq(&self, other: &Self) -> (r: bool) {
        str_eq(self.model.name.as_str(), other.model.name.as_str())
    }
}

impl PartialEqSpecImpl for ModelMatch {
    open spec fn obeys_eq_spec() -> bool {
        true
    }

    open spec fn eq_spec(&self, other: &Self) -> bool {
        self.model.name@ == other.model.name@
    }
}

impl Eq for ModelMatch {
}

impl PartialEq for GeoMatch {
    fn eq(&self, other: &Self) -> (r: bool) {
        str_eq(self.model.name.as_str(), other.model.name.as_str())
    }
}

impl PartialEqSpecImpl for GeoMatch {
    open spec fn obeys_eq_spec() -> bool {
        true
    }

    open spec fn eq_spec(&self, other: &Self) -> bool {
        self.model.name@ == other.model.name@
    }
}

impl Eq for GeoMatch {
}

impl PartialEq for ImageMatch {
    fn eq(&self, other: &Self) -> (r: bool) {
        str_eq(self.model.name.as_str(), other.model.name.as_str())
    }
}

impl PartialEqSpecImpl for ImageMatch {
    open spec fn obeys_eq_spec() -> bool {
        true
    }

    open spec fn eq_spec(&self, other: &Self) -> bool {
        self.model.name@ == other.model.name@
    }
}

impl Eq for ImageMatch {
}

} // verus!
