//! Data model: the master salt, feature entries, and the feature catalog.

use vstd::prelude::*;

use crate::crypto::Algorithm;
use crate::time::Timestamp;
use crate::time::TimestampView;

verus! {

/// The master salt, held only in memory for the session.
#[derive(Clone)]
pub struct Salt {
    salt_value: String,
}

impl View for Salt {
    type V = Seq<char>;

    closed spec fn view(&self) -> Seq<char> {
        self.salt_value@
    }
}

impl Salt {
    pub fn new(value: String) -> (r: Salt)
        ensures
            r@ == value@,
    {
        Salt { salt_value: value }
    }

    pub fn value(&self) -> (r: &str)
        ensures
            r@ == self@,
    {
        self.salt_value.as_str()
    }
}

/// The ghost image of one catalog entry.
pub ghost struct FeatureView {
    pub name: Seq<char>,
    pub feature: Seq<char>,
    pub algorithm: Algorithm,
    pub created: TimestampView,
    pub hint: Option<Seq<char>>,
}

/// One catalog entry: a display name, the feature identifier used for
/// derivation, the algorithm fixed at creation time, an optional hint, and
/// the creation timestamp.
#[derive(Debug)]
pub struct Feature {
    pub name: String,
    pub feature: String,
    pub algorithm: Algorithm,
    pub created: Timestamp,
    pub hint: Option<String>,
}

impl View for Feature {
    type V = FeatureView;

    open spec fn view(&self) -> FeatureView {
        FeatureView {
            name: self.name@,
            feature: self.feature@,
            algorithm: self.algorithm,
            created: self.created@,
            hint: match self.hint {
                Some(h) => Some(h@),
                None => None,
            },
        }
    }
}

impl Feature {
    /// Create an entry stamped with the current time.
    pub fn new(name: String, feature: String, algorithm: Algorithm, hint: Option<String>) -> (r:
        Feature)
        ensures
            r@.name == name@,
            r@.feature == feature@,
            r@.algorithm == algorithm,
            r@.hint == match hint {
                Some(h) => Some::<Seq<char>>(h@),
                None => None::<Seq<char>>,
            },
            crate::time::view_well_formed(r@.created),
    {
        Feature { name, feature, algorithm, created: Timestamp::now(), hint }
    }

    /// Create an entry with an explicit creation timestamp.
    pub fn with_created(
        name: String,
        feature: String,
        algorithm: Algorithm,
        hint: Option<String>,
        created: Timestamp,
    ) -> (r: Feature)
        ensures
            r@ == (FeatureView {
                name: name@,
                feature: feature@,
                algorithm,
                created: created@,
                hint: match hint {
                    Some(h) => Some::<Seq<char>>(h@),
                    None => None::<Seq<char>>,
                },
            }),
            crate::time::view_well_formed(created@),
    {
        proof {
            use_type_invariant(&created);
            created.lemma_well_formed();
        }
        Feature { name, feature, algorithm, created, hint }
    }
}

/// The catalog: an ordered sequence of entries; order is display and
/// deletion-index order.
#[derive(Debug)]
pub struct FeatureStore {
    pub features: Vec<Feature>,
}

impl View for FeatureStore {
    type V = Seq<FeatureView>;

    open spec fn view(&self) -> Seq<FeatureView> {
        self.features@.map_values(|f: Feature| f@)
    }
}

impl FeatureStore {
    pub fn new() -> (r: FeatureStore)
        ensures
            r@ == Seq::<FeatureView>::empty(),
    {
        let store = FeatureStore { features: Vec::new() };
        proof {
            assert(store@ =~= Seq::<FeatureView>::empty());
        }
        store
    }

    /// Append an entry at the end of the catalog.
    pub fn add_feature(&mut self, feature: Feature)
        ensures
            final(self)@ == old(self)@.push(feature@),
    {
        let ghost before = self@;
        self.features.push(feature);
        proof {
            assert(self@ =~= before.push(feature@));
        }
    }

    /// Remove the entry at `index`, shifting later entries down; out-of-range
    /// indices leave the catalog unchanged.
    pub fn remove_feature(&mut self, index: usize) -> (r: Option<Feature>)
        ensures
            index < old(self)@.len() ==> {
                &&& r is Some
                &&& r->0@ == old(self)@[index as int]
                &&& final(self)@ == old(self)@.remove(index as int)
            },
            index >= old(self)@.len() ==> r is None && final(self)@ == old(self)@,
    {
        if index < self.features.len() {
            let ghost before = self@;
            let removed = self.features.remove(index);
            proof {
                assert(self@ =~= before.remove(index as int));
            }
            Some(removed)
        } else {
            None
        }
    }

    /// The entries, in catalog order.
    pub fn list_features(&self) -> (r: &Vec<Feature>)
        ensures
            r@.map_values(|f: Feature| f@) == self@,
    {
        &self.features
    }
}

impl Default for FeatureStore {
    fn default() -> (r: FeatureStore)
        ensures
            r@ == Seq::<FeatureView>::empty(),
    {
        FeatureStore::new()
    }
}

} // verus!
