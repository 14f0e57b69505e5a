//! Skill discovery: which folders of a walked tree are skills.
//!
//! The tree walk itself belongs to the caller, which hands over one entry
//! for each `SKILL.md` it met, following symbolic links.
use vstd::prelude::*;
use crate::errors::{LayoutProblem, SkillpackError};
use crate::sort::{Keyed, distinct_keys, sort_by_key, sorted_by_key};
use crate::text::string_views;
use crate::util::{join_path, join_slash, join_spec, lemma_join_injective, path_to_id, plain_parts};

verus! {

/// A skill: its identifier and its folder.
#[derive(Clone, Debug)]
pub struct Skill {
    pub id: String,
    pub dir: String,
}

impl Keyed for Skill {
    open spec fn key(&self) -> Seq<char> {
        self.id@
    }

    fn key_text(&self) -> (r: &str) {
        self.id.as_str()
    }

    fn duplicate(&self) -> (r: Self) {
        Skill { id: self.id.clone(), dir: self.dir.clone() }
    }
}

/// A file named `SKILL.md` met while walking a tree.
#[derive(Clone, Debug)]
pub struct SkillFileEntry {
    /// The components of its folder, relative to the root of the walk;
    /// empty when the file lies at the root itself.
    pub parent: Vec<String>,
    /// It is a regular file, once links are followed.
    pub is_file: bool,
    /// The file itself is a symbolic link.
    pub file_is_link: bool,
    /// Its folder is a symbolic link.
    pub parent_is_link: bool,
    /// Its folder is a directory, once links are followed.
    pub parent_is_dir: bool,
}

pub open spec fn parent_of(e: SkillFileEntry) -> Seq<Seq<char>> {
    string_views(e.parent@)
}

/// The entry names a skill folder below the root.
pub open spec fn is_candidate(e: SkillFileEntry) -> bool {
    e.is_file && e.parent@.len() > 0
}

/// What is wrong with a single entry, if anything.
pub open spec fn entry_problem(e: SkillFileEntry, is_local: bool) -> Option<LayoutProblem> {
    if e.is_file && e.parent@.len() == 0 && is_local {
        Some(LayoutProblem::SkillFileAtRoot)
    } else if is_candidate(e) && e.file_is_link && !e.parent_is_link {
        Some(LayoutProblem::LinkedSkillFile)
    } else {
        None
    }
}

/// `a` names a folder strictly above `b`.
pub open spec fn is_proper_prefix(a: Seq<Seq<char>>, b: Seq<Seq<char>>) -> bool {
    a.len() < b.len() && b.subrange(0, a.len() as int) == a
}

/// Candidate `i` has no other candidate below it.
pub open spec fn is_leaf(entries: Seq<SkillFileEntry>, i: int) -> bool {
    forall|j: int|
        0 <= j < entries.len() && is_candidate(#[trigger] entries[j]) ==> !is_proper_prefix(
            parent_of(entries[i]),
            parent_of(entries[j]),
        )
}

/// Candidate `i` is a skill: a leaf among the candidates.
pub open spec fn is_skill_entry(entries: Seq<SkillFileEntry>, i: int) -> bool {
    0 <= i < entries.len() && is_candidate(entries[i]) && is_leaf(entries, i)
}

/// The layout is sound: no entry has a problem and every skill folder is a
/// directory.
pub open spec fn layout_ok(entries: Seq<SkillFileEntry>, is_local: bool) -> bool {
    &&& forall|i: int| 0 <= i < entries.len() ==> entry_problem(#[trigger] entries[i], is_local) is None
    &&& forall|i: int| #[trigger] is_skill_entry(entries, i) ==> entries[i].parent_is_dir
}

/// `s` is the skill that entry `e` names under `root`.
pub open spec fn skill_of(root: Seq<char>, e: SkillFileEntry, s: Skill) -> bool {
    s.id@ == join_slash(parent_of(e)) && s.dir@ == join_spec(root, join_slash(parent_of(e)))
}

/// `s` is the skill of some skill entry.
pub open spec fn from_some_entry(root: Seq<char>, entries: Seq<SkillFileEntry>, s: Skill) -> bool {
    exists|i: int| #[trigger] is_skill_entry(entries, i) && skill_of(root, entries[i], s)
}

/// The skill of entry `e` is among `skills`.
pub open spec fn listed(root: Seq<char>, e: SkillFileEntry, skills: Seq<Skill>) -> bool {
    exists|k: int| 0 <= k < skills.len() && skill_of(root, e, #[trigger] skills[k])
}

/// The folder that entry `e` names under `root`.
pub open spec fn folder_of(root: Seq<char>, e: SkillFileEntry) -> Seq<char> {
    join_spec(root, join_slash(parent_of(e)))
}

/// A skill as identifier and folder.
pub open spec fn skill_view(s: Skill) -> (Seq<char>, Seq<char>) {
    (s.id@, s.dir@)
}

/// The skills of the skill entries among the first `n` entries, in order.
pub open spec fn entry_skills(root: Seq<char>, entries: Seq<SkillFileEntry>, n: int) -> Seq<(Seq<char>, Seq<char>)>
    decreases n,
{
    if n <= 0 {
        Seq::empty()
    } else if is_skill_entry(entries, n - 1) {
        entry_skills(root, entries, n - 1).push(
            (join_slash(parent_of(entries[n - 1])), folder_of(root, entries[n - 1])),
        )
    } else {
        entry_skills(root, entries, n - 1)
    }
}

/// Entry `i` is the first with a problem.
pub open spec fn first_problem(entries: Seq<SkillFileEntry>, is_local: bool, i: int) -> bool {
    &&& 0 <= i < entries.len()
    &&& entry_problem(entries[i], is_local) is Some
    &&& forall|m: int| 0 <= m < i ==> entry_problem(#[trigger] entries[m], is_local) is None
}

/// Skill entry `i` is the first whose folder is not a directory.
pub open spec fn first_not_dir(entries: Seq<SkillFileEntry>, i: int) -> bool {
    &&& is_skill_entry(entries, i)
    &&& !entries[i].parent_is_dir
    &&& forall|m: int| 0 <= m < i && #[trigger] is_skill_entry(entries, m) ==> entries[m].parent_is_dir
}

/// The skill folders are different folders, each named by path components
/// (non-empty, without `/`), as a tree walk finds them.
pub open spec fn distinct_folders(entries: Seq<SkillFileEntry>) -> bool {
    &&& forall|i: int| #[trigger] is_skill_entry(entries, i) ==> plain_parts(parent_of(entries[i]))
    &&& forall|i: int, j: int|
        #[trigger] is_skill_entry(entries, i) && #[trigger] is_skill_entry(entries, j) && i != j ==> parent_of(entries[i])
            != parent_of(entries[j])
}

/// `s` is the skill of a skill entry before position `n`.
pub open spec fn from_entry_before(root: Seq<char>, entries: Seq<SkillFileEntry>, n: int, s: Skill) -> bool {
    exists|m: int| 0 <= m < n && #[trigger] is_skill_entry(entries, m) && skill_of(root, entries[m], s)
}

/// What discovery returns on a walked tree: one skill for each skill entry,
/// sorted, when the layout is sound; else the layout error of the first
/// entry with a problem, or, when no entry has one, of the first skill
/// folder that is not a directory.
pub open spec fn discovery_result(
    root: Seq<char>,
    entries: Seq<SkillFileEntry>,
    is_local: bool,
    r: Result<Vec<Skill>, SkillpackError>,
) -> bool {
    &&& r is Ok <==> layout_ok(entries, is_local)
    &&& r matches Err(e) ==> e matches SkillpackError::InvalidSkillLayout { layout, path } && ((exists|i: int|
        #[trigger] first_problem(entries, is_local, i) && entry_problem(entries[i], is_local) == Some(layout) && path@
            == folder_of(root, entries[i])) || (layout == LayoutProblem::NotADirectory && (forall|i: int|
        0 <= i < entries.len() ==> entry_problem(#[trigger] entries[i], is_local) is None) && exists|i: int|
        #[trigger] first_not_dir(entries, i) && path@ == folder_of(root, entries[i])))
    &&& r matches Ok(skills) ==> {
        &&& sorted_by_key(skills@)
        &&& forall|k: int| 0 <= k < skills@.len() ==> from_some_entry(root, entries, #[trigger] skills@[k])
        &&& forall|i: int| #[trigger] is_skill_entry(entries, i) ==> listed(root, entries[i], skills@)
        &&& distinct_folders(entries) ==> distinct_keys(skills@)
        &&& skills@.map_values(|s: Skill| skill_view(s)).to_multiset() == entry_skills(
            root,
            entries,
            entries.len() as int,
        ).to_multiset()
    }
}

fn same_strings(a: &Vec<String>, b: &Vec<String>, n: usize) -> (r: bool)
    requires
        n <= a@.len(),
        n <= b@.len(),
    ensures
        r == (string_views(a@).subrange(0, n as int) == string_views(b@).subrange(0, n as int)),
{
    let ghost av = string_views(a@).subrange(0, n as int);
    let ghost bv = string_views(b@).subrange(0, n as int);
    let mut i: usize = 0;
    while i < n
        invariant
            n <= a@.len(),
            n <= b@.len(),
            av == string_views(a@).subrange(0, n as int),
            bv == string_views(b@).subrange(0, n as int),
            i <= n,
            forall|k: int| 0 <= k < i ==> av[k] == bv[k],
        decreases n - i,
    {
        if a[i] != b[i] {
            assert(av[i as int] != bv[i as int]);
            return false;
        }
        i += 1;
    }
    assert(av =~= bv);
    true
}

/// Whether the folder `a` lies strictly above the folder `b`.
fn folder_above(a: &Vec<String>, b: &Vec<String>) -> (r: bool)
    ensures
        r == is_proper_prefix(string_views(a@), string_views(b@)),
{
    if a.len() >= b.len() {
        return false;
    }
    let r = same_strings(a, b, a.len());
    assert(string_views(a@).subrange(0, a@.len() as int) =~= string_views(a@));
    r
}

fn problem_of(e: &SkillFileEntry, is_local: bool) -> (r: Option<LayoutProblem>)
    ensures
        r == entry_problem(*e, is_local),
{
    if e.is_file && e.parent.len() == 0 && is_local {
        Some(LayoutProblem::SkillFileAtRoot)
    } else if e.is_file && e.parent.len() > 0 && e.file_is_link && !e.parent_is_link {
        Some(LayoutProblem::LinkedSkillFile)
    } else {
        None
    }
}

/// The skills of the skill entries, in entry order, once no entry has a
/// problem; fails on the first skill folder that is not a directory.
fn leaf_skills(root: &str, entries: &Vec<SkillFileEntry>, is_local: bool) -> (r: Result<Vec<Skill>, SkillpackError>)
    requires
        forall|m: int| 0 <= m < entries@.len() ==> entry_problem(#[trigger] entries@[m], is_local) is None,
    ensures
        r is Ok <==> forall|i: int| #[trigger] is_skill_entry(entries@, i) ==> entries@[i].parent_is_dir,
        r matches Err(e) ==> e matches SkillpackError::InvalidSkillLayout { layout, path } && layout
            == LayoutProblem::NotADirectory && exists|i: int|
            #[trigger] first_not_dir(entries@, i) && path@ == folder_of(root@, entries@[i]),
        r matches Ok(found) ==> {
            &&& forall|k: int| 0 <= k < found@.len() ==> from_some_entry(root@, entries@, #[trigger] found@[k])
            &&& forall|m: int| #[trigger] is_skill_entry(entries@, m) ==> listed(root@, entries@[m], found@)
            &&& found@.map_values(|s: Skill| skill_view(s)) == entry_skills(root@, entries@, entries@.len() as int)
            &&& distinct_folders(entries@) ==> distinct_keys(found@)
        },
{
    let n = entries.len();
    let mut found: Vec<Skill> = Vec::new();
    let mut i: usize = 0;
    while i < n
        invariant
            n == entries@.len(),
            i <= n,
            forall|m: int| 0 <= m < n ==> entry_problem(#[trigger] entries@[m], is_local) is None,
            forall|m: int| 0 <= m < i && #[trigger] is_skill_entry(entries@, m) ==> entries@[m].parent_is_dir,
            forall|k: int| 0 <= k < found@.len() ==> from_some_entry(root@, entries@, #[trigger] found@[k]),
            forall|m: int| 0 <= m < i && #[trigger] is_skill_entry(entries@, m) ==> listed(root@, entries@[m], found@),
            found@.map_values(|s: Skill| skill_view(s)) == entry_skills(root@, entries@, i as int),
            forall|k: int| 0 <= k < found@.len() ==> from_entry_before(root@, entries@, i as int, #[trigger] found@[k]),
            distinct_folders(entries@) ==> distinct_keys(found@),
        decreases n - i,
    {
        let e = &entries[i];
        if e.is_file && e.parent.len() > 0 {
            let mut leaf = true;
            let mut j: usize = 0;
            while j < n
                invariant
                    n == entries@.len(),
                    j <= n,
                    i < n,
                    *e == entries@[i as int],
                    leaf == forall|m: int| 0 <= m < j && is_candidate(#[trigger] entries@[m]) ==> !is_proper_prefix(
                        parent_of(entries@[i as int]),
                        parent_of(entries@[m]),
                    ),
                decreases n - j,
            {
                let other = &entries[j];
                if other.is_file && other.parent.len() > 0 && folder_above(&e.parent, &other.parent) {
                    leaf = false;
                }
                j += 1;
            }
            if leaf {
                assert(is_skill_entry(entries@, i as int));
                let id = path_to_id(&e.parent);
                let dir = join_path(root, id.as_str());
                if !e.parent_is_dir {
                    assert(first_not_dir(entries@, i as int));
                    return Err(SkillpackError::InvalidSkillLayout {
                        layout: LayoutProblem::NotADirectory,
                        path: dir,
                    });
                }
                let skill = Skill { id, dir };
                let ghost old_found = found@;
                found.push(skill);
                proof {
                    assert(found@.map_values(|s: Skill| skill_view(s)) =~= old_found.map_values(|s: Skill| skill_view(s)).push(
                        skill_view(found@[old_found.len() as int]),
                    ));
                    assert(skill_of(root@, entries@[i as int], found@[old_found.len() as int]));
                    assert forall|k: int| 0 <= k < found@.len() implies from_entry_before(root@, entries@, i + 1, #[trigger] found@[k]) by {
                        if k < old_found.len() {
                            assert(found@[k] == old_found[k]);
                            assert(from_entry_before(root@, entries@, i as int, old_found[k]));
                        } else {
                            assert(is_skill_entry(entries@, i as int) && skill_of(root@, entries@[i as int], found@[k]));
                        }
                    }
                    if distinct_folders(entries@) {
                        assert forall|a: int, b: int| 0 <= a < b < found@.len() implies (#[trigger] found@[a]).key() != (#[trigger] found@[b]).key() by {
                            if b == old_found.len() {
                                assert(found@[a] == old_found[a]);
                                assert(from_entry_before(root@, entries@, i as int, old_found[a]));
                                let m = choose|m: int| 0 <= m < i && #[trigger] is_skill_entry(entries@, m) && skill_of(root@, entries@[m], old_found[a]);
                                if found@[a].key() == found@[b].key() {
                                    lemma_join_injective(parent_of(entries@[m]), parent_of(entries@[i as int]));
                                    assert(parent_of(entries@[m]) != parent_of(entries@[i as int]));
                                }
                            } else {
                                assert(found@[a] == old_found[a] && found@[b] == old_found[b]);
                            }
                        }
                    }
                    assert forall|k: int| 0 <= k < found@.len() implies from_some_entry(root@, entries@, #[trigger] found@[k]) by {
                        if k < old_found.len() {
                            assert(found@[k] == old_found[k]);
                        } else {
                            assert(is_skill_entry(entries@, i as int) && skill_of(root@, entries@[i as int], found@[k]));
                        }
                    }
                    assert forall|m: int| 0 <= m < i + 1 && #[trigger] is_skill_entry(entries@, m) implies listed(root@, entries@[m], found@) by {
                        if m < i {
                            assert(listed(root@, entries@[m], old_found));
                            let k = choose|k: int| 0 <= k < old_found.len() && skill_of(root@, entries@[m], #[trigger] old_found[k]);
                            assert(found@[k] == old_found[k]);
                        } else {
                            assert(skill_of(root@, entries@[m], found@[old_found.len() as int]));
                        }
                    }
                }
            } else {
                assert(!is_skill_entry(entries@, i as int));
            }
        } else {
            assert(!is_skill_entry(entries@, i as int));
        }
        i += 1;
    }
    Ok(found)
}

/// The skills of a walked tree, sorted by identifier. Fails on a
/// `SKILL.md` at the root of a local tree (a remote tree skips it), on a
/// linked `SKILL.md` whose folder is not itself a link, and on a skill
/// folder that is not a directory. A folder with a skill below it is not a
/// skill.
pub fn discover_skills(root: &str, entries: &Vec<SkillFileEntry>, is_local: bool) -> (r: Result<
    Vec<Skill>,
    SkillpackError,
>)
    ensures
        discovery_result(root@, entries@, is_local, r),
{
    let n = entries.len();
    let mut i: usize = 0;
    while i < n
        invariant
            n == entries@.len(),
            i <= n,
            forall|m: int| 0 <= m < i ==> entry_problem(#[trigger] entries@[m], is_local) is None,
        decreases n - i,
    {
        let e = &entries[i];
        match problem_of(e, is_local) {
            Some(layout) => {
                let rel = path_to_id(&e.parent);
                assert(first_problem(entries@, is_local, i as int));
                return Err(SkillpackError::InvalidSkillLayout { layout, path: join_path(root, rel.as_str()) });
            },
            None => {},
        }
        i += 1;
    }
    let found = match leaf_skills(root, entries, is_local) {
        Ok(v) => v,
        Err(e) => return Err(e),
    };
    let ghost unsorted = found@;
    let skills = sort_by_key(found);
    proof {
        crate::sort::lemma_map_multiset(unsorted, skills@, |s: Skill| skill_view(s));
        if distinct_folders(entries@) {
            crate::sort::lemma_distinct_keys_kept(unsorted, skills@);
        }
        unsorted.to_multiset_ensures();
        skills@.to_multiset_ensures();
        assert forall|k: int| 0 <= k < skills@.len() implies from_some_entry(root@, entries@, #[trigger] skills@[k]) by {
            assert(skills@.to_multiset().count(skills@[k]) > 0);
            assert(unsorted.contains(skills@[k]));
            let j = choose|j: int| 0 <= j < unsorted.len() && unsorted[j] == skills@[k];
            assert(from_some_entry(root@, entries@, unsorted[j]));
        }
        assert forall|m: int| #[trigger] is_skill_entry(entries@, m) implies listed(root@, entries@[m], skills@) by {
            assert(listed(root@, entries@[m], unsorted));
            let j = choose|j: int| 0 <= j < unsorted.len() && skill_of(root@, entries@[m], #[trigger] unsorted[j]);
            assert(unsorted.to_multiset().count(unsorted[j]) > 0);
            assert(skills@.contains(unsorted[j]));
            let k = choose|k: int| 0 <= k < skills@.len() && skills@[k] == unsorted[j];
            assert(skill_of(root@, entries@[m], skills@[k]));
        }
    }
    Ok(skills)
}

/// The skills under `skills/` of a local tree, which must exist.
pub fn discover_local_skills(repo_root: &str, skills_root_exists: bool, entries: &Vec<SkillFileEntry>) -> (r:
    Result<Vec<Skill>, SkillpackError>)
    ensures
        !skills_root_exists ==> (r matches Err(e) && e matches SkillpackError::SkillsRootMissing { path }
            && path@ == join_spec(repo_root@, "skills"@)),
        skills_root_exists ==> discovery_result(join_spec(repo_root@, "skills"@), entries@, true, r),
{
    let skills_root = join_path(repo_root, "skills");
    if !skills_root_exists {
        return Err(SkillpackError::SkillsRootMissing { path: skills_root });
    }
    discover_skills(skills_root.as_str(), entries, true)
}

/// The skills of a fetched repository tree; a `SKILL.md` at its root is
/// skipped.
pub fn discover_remote_skills(repo_root: &str, entries: &Vec<SkillFileEntry>) -> (r: Result<
    Vec<Skill>,
    SkillpackError,
>)
    ensures
        discovery_result(repo_root@, entries@, false, r),
{
    discover_skills(repo_root, entries, false)
}

} // verus!
