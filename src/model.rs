use vstd::prelude::*;

verus! {

/// One entry of an enumeration page.
pub struct Summary {
    /// Numeric id; pages list these in strictly increasing order.
    pub id: u64,
    /// Opaque id, the key used for hydration and for stored results.
    pub opaque_id: String,
    pub fork: bool,
}

/// One entry of a hydrated repository's language list.
pub struct Language {
    pub name: String,
}

/// Full metadata of one repository, as hydration hands it back.
pub struct HydratedRecord {
    pub opaque_id: String,
    pub display_name: String,
    pub fork: bool,
    /// Languages in the order given; an entry may be absent.
    pub languages: Vec<Option<Language>>,
}

/// What is persisted for a repository written in the target language.
pub struct StoredResult {
    pub opaque_id: String,
    pub display_name: String,
    pub manifest_present: bool,
    pub lock_present: bool,
}

} // verus!
