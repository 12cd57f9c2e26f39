use vstd::prelude::*;

verus! {

/// A path as its components, in order.
pub open spec fn components(p: Seq<String>) -> Seq<Seq<char>> {
    p.map_values(|c: String| c@)
}

pub open spec fn is_prefix(pre: Seq<Seq<char>>, p: Seq<Seq<char>>) -> bool {
    pre.len() <= p.len() && p.subrange(0, pre.len() as int) == pre
}

/// Where the entry at `path`, found under `source`, is materialized under `dest`.
pub open spec fn target_of(source: Seq<Seq<char>>, dest: Seq<Seq<char>>, path: Seq<Seq<char>>) -> Seq<
    Seq<char>,
> {
    dest + path.subrange(source.len() as int, path.len() as int)
}

/// What the walk of a recipe's source tree hands over, one entry at a time.
pub enum WalkEvent {
    /// An entry, as the components of its path, and whether it is a directory.
    Entry { path: Vec<String>, is_dir: bool },
    /// The walk could not read an entry.
    Failed,
}

/// What the materializer does with one event of the walk.
#[derive(Debug)]
pub enum Step {
    /// Create the directory `to`, whose parent exists.
    CreateDir { to: Vec<String> },
    /// Copy the bytes of the file `from` to `to`.
    CopyFile { from: Vec<String>, to: Vec<String> },
    /// Delete the destination tree and fail.
    Rollback,
    /// The walk handed over a path outside the source tree: a broken invariant
    /// of the walker, not a user error.
    OutsideSource,
}

fn copy_components(p: &Vec<String>) -> (r: Vec<String>)
    ensures
        components(r@) == components(p@),
{
    let mut r: Vec<String> = Vec::new();
    let mut i: usize = 0;
    while i < p.len()
        invariant
            i <= p@.len(),
            r@.len() == i,
            forall|j: int| 0 <= j < i ==> r@[j]@ == p@[j]@,
        decreases p@.len() - i,
    {
        r.push(p[i].clone());
        i = i + 1;
    }
    assert(components(r@) =~= components(p@));
    r
}

/// The path under `dest` for the entry `path` of the tree rooted at `source`,
/// or `None` where `path` does not lie under `source`.
pub fn relative_target(source: &Vec<String>, dest: &Vec<String>, path: &Vec<String>) -> (r: Option<
    Vec<String>,
>)
    ensures
        r is Some <==> is_prefix(components(source@), components(path@)),
        r matches Some(t) ==> components(t@) == target_of(
            components(source@),
            components(dest@),
            components(path@),
        ),
{
    if source.len() > path.len() {
        return None;
    }
    let mut i: usize = 0;
    while i < source.len()
        invariant
            source@.len() <= path@.len(),
            i <= source@.len(),
            forall|j: int| 0 <= j < i ==> source@[j]@ == path@[j]@,
        decreases source@.len() - i,
    {
        if source[i] != path[i] {
            assert(components(path@).subrange(0, source@.len() as int)[i as int] != components(
                source@,
            )[i as int]);
            return None;
        }
        i = i + 1;
    }
    assert(components(path@).subrange(0, source@.len() as int) =~= components(source@));
    let mut t = copy_components(dest);
    let mut k: usize = source.len();
    while k < path.len()
        invariant
            source@.len() <= k <= path@.len(),
            components(t@) == components(dest@) + components(path@).subrange(
                source@.len() as int,
                k as int,
            ),
        decreases path@.len() - k,
    {
        let ghost old_t = t@;
        t.push(path[k].clone());
        assert(components(t@) =~= components(old_t).push(path@[k as int]@));
        assert(components(path@).subrange(source@.len() as int, k + 1) =~= components(
            path@,
        ).subrange(source@.len() as int, k as int).push(path@[k as int]@));
        assert(components(t@) =~= components(dest@) + components(path@).subrange(
            source@.len() as int,
            k + 1,
        ));
        k = k + 1;
    }
    Some(t)
}

/// Decides what to do with one event of the walk of the tree at `source`,
/// materialized under `dest`.
pub fn plan_entry(source: &Vec<String>, dest: &Vec<String>, event: &WalkEvent) -> (r: Step)
    ensures
        event is Failed ==> r is Rollback,
        event matches WalkEvent::Entry { path, is_dir } ==> {
            let target = target_of(components(source@), components(dest@), components(path@));
            if !is_prefix(components(source@), components(path@)) {
                r is OutsideSource
            } else if *is_dir {
                r matches Step::CreateDir { to } && components(to@) == target
            } else {
                r matches Step::CopyFile { from, to } && components(from@) == components(path@)
                    && components(to@) == target
            }
        },
{
    match event {
        WalkEvent::Failed => Step::Rollback,
        WalkEvent::Entry { path, is_dir } => match relative_target(source, dest, path) {
            None => Step::OutsideSource,
            Some(to) => {
                if *is_dir {
                    Step::CreateDir { to }
                } else {
                    Step::CopyFile { from: copy_components(path), to }
                }
            },
        },
    }
}

/// A walk of the tree at `source` in which every entry lies strictly below
/// `source`, and every entry deeper than one level comes after the entry of
/// its parent directory.
pub open spec fn parents_first(source: Seq<Seq<char>>, entries: Seq<(Seq<Seq<char>>, bool)>) -> bool {
    forall|j: int|
        0 <= j < entries.len() ==> {
            &&& is_prefix(source, entries[j].0)
            &&& entries[j].0.len() > source.len()
            &&& entries[j].0.len() > source.len() + 1 ==> exists|i: int|
                0 <= i < j && entries[i].1 && entries[i].0 == entries[j].0.drop_last()
        }
}

/// In a walk that yields each directory before its contents, the target of
/// every entry lies directly in the destination or in the target of a
/// directory entry met earlier: each directory is created before anything
/// is materialized inside it.
pub proof fn lemma_directories_before_contents(
    source: Seq<Seq<char>>,
    dest: Seq<Seq<char>>,
    entries: Seq<(Seq<Seq<char>>, bool)>,
)
    requires
        parents_first(source, entries),
    ensures
        forall|j: int|
            0 <= j < entries.len() ==> {
                let t = target_of(source, dest, #[trigger] entries[j].0);
                t.drop_last() == dest || exists|i: int|
                    0 <= i < j && entries[i].1 && target_of(source, dest, entries[i].0) == t.drop_last()
            },
{
    assert forall|j: int| 0 <= j < entries.len() implies {
        let t = target_of(source, dest, #[trigger] entries[j].0);
        t.drop_last() == dest || exists|i: int|
            0 <= i < j && entries[i].1 && target_of(source, dest, entries[i].0) == t.drop_last()
    } by {
        let p = entries[j].0;
        let t = target_of(source, dest, p);
        if p.len() == source.len() + 1 {
            assert(t.drop_last() =~= dest);
        } else {
            let i = choose|i: int| 0 <= i < j && entries[i].1 && entries[i].0 == p.drop_last();
            assert(target_of(source, dest, entries[i].0) =~= t.drop_last());
        }
    }
}

} // verus!
