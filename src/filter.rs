use vstd::prelude::*;
use vstd::string::StrSliceExecFns;

verus! {

/// The longest pattern, in characters, handed to globset: at most four bytes
/// each in UTF-8, far below the two gibibytes past which its literal matchers
/// can no longer be built. A regex past its size limit comes back as an error.
pub const MAX_PATTERN_CHARS: usize = 0x1000000;

/// The path that `Path::join` gives for `base` and `p`.
pub uninterp spec fn path_join(base: Seq<char>, p: Seq<char>) -> Seq<char>;

/// Whether globset builds a one-pattern set from the glob pattern `p`.
pub uninterp spec fn glob_is_valid(p: Seq<char>) -> bool;

/// Whether the one-pattern set that globset builds from `p` matches `path`.
pub uninterp spec fn glob_matches(p: Seq<char>, path: Seq<char>) -> bool;

/// Whether `p` is short enough to be handed to globset.
pub open spec fn pattern_fits(p: Seq<char>) -> bool {
    p.len() <= MAX_PATTERN_CHARS
}

/// Whether `p` is an absolute path on Unix: it starts at the root.
pub open spec fn is_absolute(p: Seq<char>) -> bool {
    p.len() > 0 && p[0] == '/'
}

/// Relies on std::path::Path::join, read back as text (lossless on text that
/// came from a `str`): an absolute `p` replaces `base`; a relative one is
/// added to a `base` that does not end in a separator after one.
#[verifier::external_body]
fn join_path(base: &str, p: &str) -> (r: String)
    ensures
        r@ == path_join(base@, p@),
        is_absolute(p@) ==> r@ == p@,
        base@.len() > 0 && base@.last() != '/' && p@.len() > 0 && !is_absolute(p@) ==> r@
            == base@ + seq!['/'] + p@,
{
    std::path::Path::new(base).join(p).to_string_lossy().to_string()
}

/// Relies on globset::Glob::new and GlobSetBuilder::build, which return a
/// pattern or regex they cannot take as an error; the outcome depends on the
/// pattern alone. Short patterns keep the literal matchers' `unwrap` from
/// failing.
#[verifier::external_body]
fn check_glob(p: &str) -> (r: bool)
    requires
        pattern_fits(p@),
    ensures
        r == glob_is_valid(p@),
{
    match globset::Glob::new(p) {
        Ok(glob) => globset::GlobSetBuilder::new().add(glob).build().is_ok(),
        Err(_) => false,
    }
}

/// Relies on globset::GlobSet::is_match, on the set that GlobSetBuilder::build
/// makes of the one pattern.
#[verifier::external_body]
fn glob_match(p: &str, path: &str) -> (r: bool)
    requires
        pattern_fits(p@),
        glob_is_valid(p@),
    ensures
        r == glob_matches(p@, path@),
{
    match globset::Glob::new(p) {
        Ok(glob) => match globset::GlobSetBuilder::new().add(glob).build() {
            Ok(set) => set.is_match(path),
            Err(_) => false,
        },
        Err(_) => false,
    }
}

/// The `exclude` setting of a recipe's configuration, as the table holds it.
pub enum ExcludeSetting {
    /// No `exclude` key.
    Absent,
    /// An `exclude` key whose value is not an array.
    NotArray,
    /// An array; each item is its text, or `None` where it is not a string.
    Items(Vec<Option<String>>),
}

/// Why an `exclude` setting could not be compiled.
#[derive(Debug)]
pub enum ExcludeError {
    NotArray,
    NotString,
    PatternCompile { pattern: String },
}

/// Whether item `k` of an `exclude` array is a string that, rooted at `root`,
/// fits and compiles.
pub open spec fn item_ok(root: Seq<char>, items: Seq<Option<String>>, k: int) -> bool {
    match items[k] {
        Some(s) => pattern_fits(path_join(root, s@)) && glob_is_valid(path_join(root, s@)),
        None => false,
    }
}

/// Whether item `k` of an `exclude` array is a string that, rooted at `root`,
/// reads `p`.
pub open spec fn item_rooted_is(root: Seq<char>, items: Seq<Option<String>>, k: int, p: Seq<char>) -> bool {
    match items[k] {
        Some(s) => p == path_join(root, s@),
        None => false,
    }
}

/// What compiling an `exclude` array rooted at `root` yields: the rooted
/// patterns when every item is a string that compiles, else the error of the
/// first item that is not.
pub open spec fn compiled_from(
    root: Seq<char>,
    items: Seq<Option<String>>,
    r: Result<ExcludeFilter, ExcludeError>,
) -> bool {
    &&& r.is_ok() <==> forall|k: int| 0 <= k < items.len() ==> item_ok(root, items, k)
    &&& r matches Ok(f) ==> (f.wf() && f.spec_patterns().len() == items.len() && forall|k: int|
        0 <= k < items.len() ==> item_rooted_is(root, items, k, f.spec_patterns()[k]))
    &&& r matches Err(e) ==> exists|k: int|
        0 <= k < items.len() && !item_ok(root, items, k) && (forall|j: int|
            0 <= j < k ==> item_ok(root, items, j)) && item_error_is(root, items, k, e)
}

/// The error that item `k` of an `exclude` array gives.
pub open spec fn item_error_is(root: Seq<char>, items: Seq<Option<String>>, k: int, e: ExcludeError) -> bool {
    match items[k] {
        None => e is NotString,
        Some(s) => match e {
            ExcludeError::PatternCompile { pattern } => pattern@ == path_join(root, s@),
            _ => false,
        },
    }
}

/// The compiled exclusion rules: a path is skipped when any pattern matches it.
pub struct ExcludeFilter {
    patterns: Vec<String>,
}

impl ExcludeFilter {
    pub closed spec fn spec_patterns(&self) -> Seq<Seq<char>> {
        self.patterns@.map_values(|p: String| p@)
    }

    pub open spec fn wf(&self) -> bool {
        forall|k: int|
            0 <= k < self.spec_patterns().len() ==> pattern_fits(self.spec_patterns()[k])
                && glob_is_valid(self.spec_patterns()[k])
    }

    /// A filter that excludes nothing.
    pub fn accept_all() -> (r: Self)
        ensures
            r.wf(),
            r.spec_patterns().len() == 0,
    {
        let r = ExcludeFilter { patterns: Vec::new() };
        assert(r.spec_patterns() =~= Seq::empty());
        r
    }

    /// Compiles the `exclude` setting of the recipe whose source tree is `root`;
    /// each pattern is rooted at `root`.
    pub fn compile(root: &str, setting: &ExcludeSetting) -> (r: Result<Self, ExcludeError>)
        ensures
            setting is Absent ==> (r matches Ok(f) && f.wf() && f.spec_patterns().len() == 0),
            setting is NotArray ==> (r matches Err(ExcludeError::NotArray)),
            setting matches ExcludeSetting::Items(items) ==> compiled_from(root@, items@, r),
    {
        match setting {
            ExcludeSetting::Absent => Ok(Self::accept_all()),
            ExcludeSetting::NotArray => Err(ExcludeError::NotArray),
            ExcludeSetting::Items(items) => Self::compile_items(root, items),
        }
    }

    fn compile_items(root: &str, items: &Vec<Option<String>>) -> (r: Result<Self, ExcludeError>)
        ensures
            compiled_from(root@, items@, r),
    {
        let mut patterns: Vec<String> = Vec::new();
        let mut k: usize = 0;
        while k < items.len()
            invariant
                k <= items@.len(),
                patterns@.len() == k,
                forall|j: int| 0 <= j < k ==> item_ok(root@, items@, j),
                forall|j: int| 0 <= j < k ==> item_rooted_is(root@, items@, j, patterns@[j]@),
            decreases items@.len() - k,
        {
            match &items[k] {
                None => {
                    assert(!item_ok(root@, items@, k as int));
                    assert(item_error_is(root@, items@, k as int, ExcludeError::NotString));
                    return Err(ExcludeError::NotString);
                },
                Some(s) => {
                    let pattern = join_path(root, s.as_str());
                    let text: &str = pattern.as_str();
                    if text.unicode_len() > MAX_PATTERN_CHARS || !check_glob(text) {
                        let ghost e = ExcludeError::PatternCompile { pattern };
                        assert(!item_ok(root@, items@, k as int));
                        assert(item_error_is(root@, items@, k as int, e));
                        return Err(ExcludeError::PatternCompile { pattern });
                    }
                    patterns.push(pattern);
                },
            }
            k = k + 1;
        }
        let f = ExcludeFilter { patterns };
        assert forall|j: int| 0 <= j < items@.len() implies f.spec_patterns()[j] == patterns@[j]@
            && item_rooted_is(root@, items@, j, f.spec_patterns()[j]) && pattern_fits(
            f.spec_patterns()[j],
        ) && glob_is_valid(f.spec_patterns()[j]) by {
            assert(item_ok(root@, items@, j));
            assert(item_rooted_is(root@, items@, j, patterns@[j]@));
        }
        Ok(f)
    }

    /// Whether the walk visits `path`: no pattern matches it.
    pub fn accepts(&self, path: &str) -> (r: bool)
        requires
            self.wf(),
        ensures
            r == forall|k: int|
                0 <= k < self.spec_patterns().len() ==> !glob_matches(self.spec_patterns()[k], path@),
    {
        let mut k: usize = 0;
        while k < self.patterns.len()
            invariant
                self.wf(),
                k <= self.patterns@.len(),
                forall|j: int| 0 <= j < k ==> !glob_matches(self.spec_patterns()[j], path@),
            decreases self.patterns@.len() - k,
        {
            assert(self.spec_patterns()[k as int] == self.patterns@[k as int]@);
            if glob_match(self.patterns[k].as_str(), path) {
                return false;
            }
            k = k + 1;
        }
        true
    }
}

} // verus!
