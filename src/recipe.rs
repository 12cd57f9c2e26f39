use std::path::PathBuf;
use vstd::prelude::*;

verus! {

/// Bit pattern of the IEEE-754 double nearest to seven tenths: a similarity
/// must lie strictly above it for a name to be suggested.
pub const SIMILARITY_THRESHOLD_BITS: u64 = 0x3FE6666666666666;

/// The most suggestions a failed lookup hands back.
pub const MAX_SUGGESTIONS: usize = 3;

/// Bit pattern of the Jaro-Winkler similarity of two strings.
pub uninterp spec fn jaro_winkler_bits(a: Seq<char>, b: Seq<char>) -> u64;

/// Relies on strsim::jaro_winkler: a similarity that depends on the two strings
/// alone. It is never negative nor NaN, so the bit patterns of two results
/// order as the results do.
#[verifier::external_body]
fn similarity_bits(a: &str, b: &str) -> (r: u64)
    ensures
        r == jaro_winkler_bits(a@, b@),
{
    strsim::jaro_winkler(a, b).to_bits()
}

/// A named template directory.
#[derive(Debug, Clone)]
pub struct Recipe {
    name: String,
    path: PathBuf,
}

impl Recipe {
    pub closed spec fn spec_name(&self) -> Seq<char> {
        self.name@
    }

    pub closed spec fn spec_path(&self) -> PathBuf {
        self.path
    }

    pub fn new(name: String, path: PathBuf) -> (r: Self)
        ensures
            r.spec_name() == name@,
            r.spec_path() == path,
    {
        Self { name, path }
    }

    pub fn name(&self) -> (r: &str)
        ensures
            r@ == self.spec_name(),
    {
        self.name.as_str()
    }

    pub fn path(&self) -> (r: &PathBuf)
        ensures
            *r == self.spec_path(),
    {
        &self.path
    }
}

/// Similarity score of a catalog name against a query.
pub open spec fn score(entry: Seq<char>, query: Seq<char>) -> u64 {
    jaro_winkler_bits(entry, query)
}

/// Whether catalog entry `i` is similar enough to `query` to be suggested.
pub open spec fn is_candidate(names: Seq<Seq<char>>, query: Seq<char>, i: int) -> bool {
    0 <= i < names.len() && score(names[i], query) > SIMILARITY_THRESHOLD_BITS
}

/// `idx` lists the best-scoring candidates for `query`, best first: at most
/// three distinct entries, each above the threshold, and no candidate left out
/// unless three were taken that score at least as high.
pub open spec fn is_top_matches(names: Seq<Seq<char>>, query: Seq<char>, idx: Seq<usize>) -> bool {
    &&& idx.len() <= MAX_SUGGESTIONS
    &&& idx.no_duplicates()
    &&& forall|k: int| 0 <= k < idx.len() ==> is_candidate(names, query, idx[k] as int)
    &&& forall|k: int, l: int|
        0 <= k < l < idx.len() ==> score(names[idx[k] as int], query) >= score(
            names[idx[l] as int],
            query,
        )
    &&& forall|j: int|
        is_candidate(names, query, j) && !idx.contains(j as usize) ==> {
            &&& idx.len() == MAX_SUGGESTIONS
            &&& forall|k: int|
                0 <= k < idx.len() ==> score(names[idx[k] as int], query) >= score(names[j], query)
        }
}

/// A failed lookup suggests at most three names, each scoring strictly above
/// the threshold against the query.
pub proof fn lemma_suggestions_bounded(names: Seq<Seq<char>>, query: Seq<char>, idx: Seq<usize>)
    requires
        is_top_matches(names, query, idx),
    ensures
        idx.len() <= 3,
        forall|k: int|
            0 <= k < idx.len() ==> #[trigger] score(names[idx[k] as int], query) > SIMILARITY_THRESHOLD_BITS,
{
    assert forall|k: int| 0 <= k < idx.len() implies #[trigger] score(names[idx[k] as int], query)
        > SIMILARITY_THRESHOLD_BITS by {
        assert(is_candidate(names, query, idx[k] as int));
    }
}

/// When no catalog name scores above the threshold, a failed lookup suggests
/// nothing.
pub proof fn lemma_no_similar_name_no_suggestion(names: Seq<Seq<char>>, query: Seq<char>, idx: Seq<usize>)
    requires
        is_top_matches(names, query, idx),
        forall|i: int| 0 <= i < names.len() ==> score(names[i], query) <= SIMILARITY_THRESHOLD_BITS,
    ensures
        idx.len() == 0,
{
    if idx.len() > 0 {
        assert(is_candidate(names, query, idx[0] as int));
    }
}

/// One entry of the listing of a recipe root.
pub struct ListedEntry {
    pub name: String,
    pub path: PathBuf,
    pub is_dir: bool,
}

/// The directories among `entries`, in order.
pub open spec fn directory_entries(entries: Seq<ListedEntry>) -> Seq<ListedEntry>
    decreases entries.len(),
{
    if entries.len() == 0 {
        Seq::empty()
    } else {
        let rest = directory_entries(entries.drop_last());
        if entries.last().is_dir {
            rest.push(entries.last())
        } else {
            rest
        }
    }
}

/// `recipes` are the entries `dirs`, one for one: same name, same path.
pub open spec fn recipes_of(recipes: Seq<Recipe>, dirs: Seq<ListedEntry>) -> bool {
    &&& recipes.len() == dirs.len()
    &&& forall|k: int|
        0 <= k < dirs.len() ==> recipes[k].spec_name() == dirs[k].name@ && recipes[k].spec_path()
            == dirs[k].path
}

/// The catalog of recipes found under a recipe root.
pub struct RecipeList {
    recipes: Vec<Recipe>,
}

fn contains_index(v: &Vec<usize>, x: usize) -> (r: bool)
    ensures
        r == v@.contains(x),
{
    let mut i: usize = 0;
    while i < v.len()
        invariant
            i <= v.len(),
            forall|j: int| 0 <= j < i ==> v@[j] != x,
        decreases v.len() - i,
    {
        if v[i] == x {
            return true;
        }
        i = i + 1;
    }
    false
}

impl RecipeList {
    pub closed spec fn spec_recipes(&self) -> Seq<Recipe> {
        self.recipes@
    }

    /// The recipes' names, in catalog order.
    pub open spec fn names(&self) -> Seq<Seq<char>> {
        self.spec_recipes().map_values(|r: Recipe| r.spec_name())
    }

    pub fn new(sources: Vec<Recipe>) -> (r: Self)
        ensures
            r.spec_recipes() == sources@,
    {
        Self { recipes: sources }
    }

    /// The catalog of a recipe root's listing: each directory is a recipe,
    /// named as the entry; other entries are left out.
    pub fn from_listing(entries: &Vec<ListedEntry>) -> (r: Self)
        ensures
            recipes_of(r.spec_recipes(), directory_entries(entries@)),
    {
        let mut recipes: Vec<Recipe> = Vec::new();
        let mut i: usize = 0;
        while i < entries.len()
            invariant
                i <= entries@.len(),
                recipes_of(recipes@, directory_entries(entries@.take(i as int))),
            decreases entries@.len() - i,
        {
            assert(entries@.take(i + 1).drop_last() =~= entries@.take(i as int));
            assert(entries@.take(i + 1).last() == entries@[i as int]);
            if entries[i].is_dir {
                let name = entries[i].name.clone();
                let path = entries[i].path.clone();
                recipes.push(Recipe::new(name, path));
            }
            i = i + 1;
        }
        assert(entries@.take(entries@.len() as int) =~= entries@);
        Self { recipes }
    }

    /// The recipe named exactly `name` (the first such one); otherwise the
    /// names of the closest recipes, best first, possibly none.
    pub fn get(&self, name: &str) -> (r: Result<&Recipe, Vec<&str>>)
        ensures
            r.is_ok() <==> exists|i: int| 0 <= i < self.names().len() && self.names()[i] == name@,
            r matches Ok(rec) ==> exists|i: int|
                0 <= i < self.names().len() && *rec == self.spec_recipes()[i] && self.names()[i]
                    == name@ && forall|j: int| 0 <= j < i ==> self.names()[j] != name@,
            r matches Err(v) ==> exists|idx: Seq<usize>|
                is_top_matches(self.names(), name@, idx) && v@.len() == idx.len() && forall|k: int|
                    0 <= k < idx.len() ==> v@[k]@ == self.names()[idx[k] as int],
    {
        let query: String = name.to_owned();
        let mut i: usize = 0;
        while i < self.recipes.len()
            invariant
                i <= self.recipes@.len(),
                query@ == name@,
                forall|j: int| 0 <= j < i ==> self.names()[j] != name@,
            decreases self.recipes@.len() - i,
        {
            if self.recipes[i].name == query {
                assert(self.names()[i as int] == name@);
                return Ok(&self.recipes[i]);
            }
            i = i + 1;
        }
        assert forall|j: int| 0 <= j < self.names().len() implies self.names()[j] != name@ by {}
        Err(self.find_similar(name))
    }

    fn find_similar(&self, name: &str) -> (r: Vec<&str>)
        ensures
            exists|idx: Seq<usize>|
                is_top_matches(self.names(), name@, idx) && r@.len() == idx.len() && forall|k: int|
                    0 <= k < idx.len() ==> r@[k]@ == self.names()[idx[k] as int],
    {
        let ghost names = self.names();
        let n = self.recipes.len();
        let mut scores: Vec<u64> = Vec::new();
        let mut i: usize = 0;
        while i < n
            invariant
                n == self.recipes@.len(),
                names == self.names(),
                i <= n,
                scores@.len() == i,
                forall|j: int| 0 <= j < i ==> scores@[j] == score(names[j], name@),
            decreases n - i,
        {
            scores.push(similarity_bits(self.recipes[i].name.as_str(), name));
            i = i + 1;
        }
        let mut chosen: Vec<usize> = Vec::new();
        let mut done = false;
        while !done && chosen.len() < MAX_SUGGESTIONS
            invariant
                n == self.recipes@.len(),
                names == self.names(),
                scores@.len() == n,
                forall|j: int| 0 <= j < n ==> scores@[j] == score(names[j], name@),
                chosen@.len() <= MAX_SUGGESTIONS,
                chosen@.no_duplicates(),
                forall|k: int| 0 <= k < chosen@.len() ==> is_candidate(names, name@, chosen@[k] as int),
                forall|k: int, l: int|
                    0 <= k < l < chosen@.len() ==> score(names[chosen@[k] as int], name@) >= score(
                        names[chosen@[l] as int],
                        name@,
                    ),
                forall|j: int|
                    is_candidate(names, name@, j) && !chosen@.contains(j as usize) ==> forall|k: int|
                        0 <= k < chosen@.len() ==> score(names[chosen@[k] as int], name@) >= score(
                            names[j],
                            name@,
                        ),
                done ==> forall|j: int|
                    is_candidate(names, name@, j) ==> chosen@.contains(j as usize),
            decreases MAX_SUGGESTIONS - chosen@.len(), if done { 0int } else { 1int },
        {
            let mut best: Option<usize> = None;
            let mut i: usize = 0;
            while i < n
                invariant
                    n == self.recipes@.len(),
                    names == self.names(),
                    scores@.len() == n,
                    forall|j: int| 0 <= j < n ==> scores@[j] == score(names[j], name@),
                    i <= n,
                    best matches Some(b) ==> b < i && is_candidate(names, name@, b as int)
                        && !chosen@.contains(b) && forall|j: int|
                        0 <= j < i && is_candidate(names, name@, j) && !chosen@.contains(j as usize)
                            ==> score(names[j], name@) <= score(names[b as int], name@),
                    best is None ==> forall|j: int|
                        0 <= j < i && is_candidate(names, name@, j) ==> chosen@.contains(j as usize),
                decreases n - i,
            {
                if scores[i] > SIMILARITY_THRESHOLD_BITS && !contains_index(&chosen, i) {
                    match best {
                        None => {
                            best = Some(i);
                        },
                        Some(b) => {
                            if scores[i] > scores[b] {
                                best = Some(i);
                            }
                        },
                    }
                }
                i = i + 1;
            }
            match best {
                None => {
                    done = true;
                },
                Some(b) => {
                    let ghost old_chosen = chosen@;
                    chosen.push(b);
                    assert forall|j: int|
                        is_candidate(names, name@, j) && !chosen@.contains(j as usize) implies
                        !old_chosen.contains(j as usize) by {
                        if old_chosen.contains(j as usize) {
                            let k = choose|k: int| 0 <= k < old_chosen.len() && old_chosen[k] == j as usize;
                            assert(chosen@[k] == j as usize);
                        }
                    }
                    assert(chosen@.no_duplicates()) by {
                        assert forall|k: int, l: int|
                            0 <= k < l < chosen@.len() implies chosen@[k] != chosen@[l] by {
                            if l == chosen@.len() - 1 {
                                assert(old_chosen.contains(chosen@[k]));
                            }
                        }
                    }
                },
            }
        }
        let mut out: Vec<&str> = Vec::new();
        let mut k: usize = 0;
        while k < chosen.len()
            invariant
                names == self.names(),
                n == self.recipes@.len(),
                forall|m: int| 0 <= m < chosen@.len() ==> chosen@[m] < n,
                k <= chosen@.len(),
                out@.len() == k,
                forall|m: int| 0 <= m < k ==> out@[m]@ == names[chosen@[m] as int],
            decreases chosen@.len() - k,
        {
            out.push(self.recipes[chosen[k]].name.as_str());
            k = k + 1;
        }
        assert(is_top_matches(names, name@, chosen@));
        out
    }
}

} // verus!
