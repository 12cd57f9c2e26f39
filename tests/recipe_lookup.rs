use padbox::{ListedEntry, Recipe, RecipeList};
use std::path::PathBuf;

fn catalog(names: &[&str]) -> RecipeList {
    RecipeList::new(
        names
            .iter()
            .map(|n| Recipe::new(n.to_string(), PathBuf::from(format!("/recipes/{n}"))))
            .collect(),
    )
}

#[test]
fn recipe_accessors_return_fields() {
    let r = Recipe::new("rust".to_string(), PathBuf::from("/recipes/rust"));
    assert_eq!(r.name(), "rust");
    assert_eq!(r.path(), &PathBuf::from("/recipes/rust"));
}

#[test]
fn exact_match_wins_over_closer_entries() {
    let list = catalog(&["rusty", "rust", "rust2"]);
    let found = list.get("rust").expect("exact match");
    assert_eq!(found.name(), "rust");
    assert_eq!(found.path(), &PathBuf::from("/recipes/rust"));
}

#[test]
fn miss_suggests_similar_names_best_first() {
    let list = catalog(&["rust", "rusty", "go"]);
    let similar = list.get("rus").unwrap_err();
    assert_eq!(similar, vec!["rust", "rusty"]);
}

#[test]
fn miss_returns_at_most_three_suggestions() {
    let list = catalog(&["abcd1", "abcd2", "abcd3", "abcd4", "abcd5"]);
    let similar = list.get("abcd").unwrap_err();
    assert_eq!(similar.len(), 3);
    for s in similar {
        assert!(strsim::jaro_winkler(s, "abcd") > 0.7);
        assert!(s.starts_with("abcd"));
    }
}

#[test]
fn total_mismatch_gives_empty_suggestions() {
    let list = catalog(&["python", "haskell"]);
    let similar = list.get("zz").unwrap_err();
    assert!(similar.is_empty());
}

#[test]
fn empty_catalog_gives_empty_suggestions() {
    let list = catalog(&[]);
    assert!(list.get("rust").unwrap_err().is_empty());
}

#[test]
fn suggestions_exclude_scores_at_or_below_threshold() {
    let list = catalog(&["rust", "ruby", "zig"]);
    let similar = list.get("rusk").unwrap_err();
    for s in &similar {
        assert!(strsim::jaro_winkler(s, "rusk") > 0.7);
    }
    assert!(!similar.contains(&"zig"));
    assert_eq!(similar[0], "rust");
}

#[test]
fn listing_keeps_directories_only() {
    let entry = |name: &str, is_dir: bool| ListedEntry {
        name: name.to_string(),
        path: PathBuf::from(format!("/recipes/{name}")),
        is_dir,
    };
    let list = RecipeList::from_listing(&vec![entry("rust", true), entry("notes.txt", false), entry("go", true)]);
    assert_eq!(list.get("rust").unwrap().path(), &PathBuf::from("/recipes/rust"));
    assert_eq!(list.get("go").unwrap().name(), "go");
    assert!(list.get("notes.txt").is_err());
}
