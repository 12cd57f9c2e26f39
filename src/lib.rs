use vstd::prelude::*;

pub mod filter;
pub mod materialize;
pub mod naming;
pub mod recipe;

pub use filter::{ExcludeError, ExcludeFilter, ExcludeSetting};
pub use materialize::{
    lemma_directories_before_contents, plan_entry, relative_target, Step, WalkEvent,
};
pub use naming::{
    generate_project_name, lemma_distinct_suffixes_give_distinct_names, project_name, Timestamp,
};
pub use recipe::{
    is_top_matches, jaro_winkler_bits, lemma_no_similar_name_no_suggestion,
    lemma_suggestions_bounded, ListedEntry, Recipe, RecipeList, SIMILARITY_THRESHOLD_BITS,
};

verus! {

/// A request to create a new playground from the named recipe.
pub struct New {
    pub recipe: String,
}

/// Lets owned filesystem paths stand in signatures and fields; their contents stay opaque.
#[verifier::external_type_specification]
#[verifier::external_body]
pub struct ExPathBuf(std::path::PathBuf);

/// Relies on PathBuf's Clone impl: the copy holds the same path.
pub assume_specification[ <std::path::PathBuf as Clone>::clone ](p: &std::path::PathBuf) -> (r: std::path::PathBuf)
    ensures
        r == *p,
;

} // verus!
