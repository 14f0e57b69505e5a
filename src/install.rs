//! Installing a resolved pack into a sink, and removing it again.
//!
//! The functions here decide; the caller performs the file operations that
//! a plan lists, in order, and persists the state afterwards. All checks run
//! before a plan is handed out, so a refused install touches nothing.
use vstd::prelude::*;
use crate::errors::SkillpackError;
use crate::resolve::{ResolvedImport, ResolvedPack, ResolvedSkill};
use crate::sort::{sort_by_key, sorted_by_key};
use crate::state::{
    ImportRecord, InstallRecord, StateFile, find_record_index, first_index, has_record, lemma_first_unique,
    lists, lists_path, owns, prior_paths, record_owned_path,
};
use crate::text::{copy_opt, same_text, string_views};
use crate::util::{flatten_id, flatten_spec, is_within, join_path, join_spec, within};
use vstd::string::StringExecFns;

verus! {

/// The folder name of skill `id`: prefix, separator, and the identifier
/// with each `/` replaced by the separator.
pub open spec fn install_name_spec(prefix: Seq<char>, sep: Seq<char>, id: Seq<char>) -> Seq<char> {
    prefix + sep + flatten_spec(id, sep)
}

/// Where skill `id` is installed in the sink.
pub open spec fn dest_spec(sink_path: Seq<char>, prefix: Seq<char>, sep: Seq<char>, id: Seq<char>) -> Seq<char> {
    join_spec(sink_path, install_name_spec(prefix, sep, id))
}

pub open spec fn dest_of(sink_path: Seq<char>, pack: ResolvedPack, i: int) -> Seq<char> {
    dest_spec(sink_path, pack.pack.install_prefix@, pack.pack.install_sep@, pack.final_skills@[i].id@)
}

/// `path` is the destination of one of the skills.
pub open spec fn is_dest_of_some(
    path: Seq<char>,
    skills: Seq<ResolvedSkill>,
    sink_path: Seq<char>,
    prefix: Seq<char>,
    sep: Seq<char>,
) -> bool {
    exists|i: int| 0 <= i < skills.len() && path == dest_spec(sink_path, prefix, sep, #[trigger] skills[i].id@)
}

/// `paths` are the destinations of the skills, one for each.
pub open spec fn are_dests(
    paths: Seq<String>,
    skills: Seq<ResolvedSkill>,
    sink_path: Seq<char>,
    prefix: Seq<char>,
    sep: Seq<char>,
) -> bool {
    &&& paths.len() == skills.len()
    &&& forall|k: int| 0 <= k < paths.len() ==> is_dest_of_some(#[trigger] paths[k]@, skills, sink_path, prefix, sep)
    &&& forall|i: int| 0 <= i < skills.len() ==> lists(paths, dest_spec(sink_path, prefix, sep, #[trigger] skills[i].id@))
    &&& string_views(paths).to_multiset() == dests_of(skills, sink_path, prefix, sep).to_multiset()
}

/// The destinations of the skills, in order.
pub open spec fn dests_of(skills: Seq<ResolvedSkill>, sink_path: Seq<char>, prefix: Seq<char>, sep: Seq<char>) -> Seq<
    Seq<char>,
> {
    skills.map_values(|s: ResolvedSkill| dest_spec(sink_path, prefix, sep, s.id@))
}

/// No two skills get the same folder name.
pub open spec fn names_distinct(skills: Seq<ResolvedSkill>, prefix: Seq<char>, sep: Seq<char>) -> bool {
    forall|i: int, j: int|
        0 <= i < j < skills.len() ==> install_name_spec(prefix, sep, #[trigger] skills[i].id@) != install_name_spec(
            prefix,
            sep,
            #[trigger] skills[j].id@,
        )
}

/// The folder name of skill `id` in a sink.
pub fn install_name(prefix: &str, sep: &str, id: &str) -> (r: String)
    ensures
        r@ == install_name_spec(prefix@, sep@, id@),
{
    let mut r = String::from_str(prefix);
    r.append(sep);
    let flat = flatten_id(id, sep);
    r.append(flat.as_str());
    r
}

/// The destinations of the skills in the sink, sorted.
pub fn build_install_paths(skills: &Vec<ResolvedSkill>, sink_path: &str, prefix: &str, sep: &str) -> (r: Vec<String>)
    ensures
        are_dests(r@, skills@, sink_path@, prefix@, sep@),
        sorted_by_key(r@),
{
    let mut out: Vec<String> = Vec::new();
    let mut i: usize = 0;
    while i < skills.len()
        invariant
            i <= skills@.len(),
            out@.len() == i,
            forall|k: int| 0 <= k < i ==> #[trigger] out@[k]@ == dest_spec(sink_path@, prefix@, sep@, skills@[k].id@),
        decreases skills.len() - i,
    {
        let name = install_name(prefix, sep, skills[i].id.as_str());
        out.push(join_path(sink_path, name.as_str()));
        i += 1;
    }
    let ghost unsorted = out@;
    let r = sort_by_key(out);
    proof {
        crate::sort::lemma_map_multiset(unsorted, r@, |s: String| s@);
        assert(string_views(unsorted) =~= dests_of(skills@, sink_path@, prefix@, sep@));
        assert(string_views(r@) =~= r@.map_values(|s: String| s@));
        assert(string_views(unsorted) =~= unsorted.map_values(|s: String| s@));
        unsorted.to_multiset_ensures();
        r@.to_multiset_ensures();
        assert forall|k: int| 0 <= k < r@.len() implies is_dest_of_some(#[trigger] r@[k]@, skills@, sink_path@, prefix@, sep@) by {
            assert(r@.to_multiset().count(r@[k]) > 0);
            assert(unsorted.contains(r@[k]));
            let j = choose|j: int| 0 <= j < unsorted.len() && unsorted[j] == r@[k];
            assert(unsorted[j]@ == dest_spec(sink_path@, prefix@, sep@, skills@[j].id@));
        }
        assert forall|i: int| 0 <= i < skills@.len() implies lists(r@, dest_spec(sink_path@, prefix@, sep@, #[trigger] skills@[i].id@)) by {
            assert(unsorted[i]@ == dest_spec(sink_path@, prefix@, sep@, skills@[i].id@));
            assert(unsorted.to_multiset().count(unsorted[i]) > 0);
            assert(r@.contains(unsorted[i]));
            let k = choose|k: int| 0 <= k < r@.len() && r@[k] == unsorted[i];
            assert(r@[k]@ == dest_spec(sink_path@, prefix@, sep@, skills@[i].id@));
        }
    }
    r
}

/// Fails with `NameCollision` when two skills get the same folder name. The
/// name is always the flattened one: with flattening off, the folders still
/// meet at the top level under that name.
pub fn detect_collisions(skills: &Vec<ResolvedSkill>, prefix: &str, sep: &str, flatten: bool) -> (r: Result<
    (),
    SkillpackError,
>)
    ensures
        r is Ok <==> names_distinct(skills@, prefix@, sep@),
        r matches Err(e) ==> e matches SkillpackError::NameCollision { name } && exists|i: int, j: int|
            0 <= i < j < skills@.len() && name@ == install_name_spec(prefix@, sep@, #[trigger] skills@[i].id@)
                && name@ == install_name_spec(prefix@, sep@, #[trigger] skills@[j].id@) && names_distinct(
                skills@.subrange(0, j),
                prefix@,
                sep@,
            ),
{
    let mut names: Vec<String> = Vec::new();
    let mut j: usize = 0;
    while j < skills.len()
        invariant
            j <= skills@.len(),
            names@.len() == j,
            forall|k: int| 0 <= k < j ==> #[trigger] names@[k]@ == install_name_spec(prefix@, sep@, skills@[k].id@),
            forall|a: int, b: int|
                0 <= a < b < j ==> install_name_spec(prefix@, sep@, #[trigger] skills@[a].id@) != install_name_spec(
                    prefix@,
                    sep@,
                    #[trigger] skills@[b].id@,
                ),
        decreases skills.len() - j,
    {
        let name = install_name(prefix, sep, skills[j].id.as_str());
        let mut i: usize = 0;
        while i < j
            invariant
                i <= j,
                j < skills@.len(),
                names@.len() == j,
                name@ == install_name_spec(prefix@, sep@, skills@[j as int].id@),
                forall|k: int| 0 <= k < j ==> #[trigger] names@[k]@ == install_name_spec(prefix@, sep@, skills@[k].id@),
                forall|a: int| 0 <= a < i ==> install_name_spec(prefix@, sep@, #[trigger] skills@[a].id@) != name@,
                forall|a: int, b: int|
                    0 <= a < b < j ==> install_name_spec(prefix@, sep@, #[trigger] skills@[a].id@) != install_name_spec(
                        prefix@,
                        sep@,
                        #[trigger] skills@[b].id@,
                    ),
            decreases j - i,
        {
            if same_text(names[i].as_str(), name.as_str()) {
                assert(names@[i as int]@ == install_name_spec(prefix@, sep@, skills@[i as int].id@));
                assert forall|a: int, b: int| 0 <= a < b < skills@.subrange(0, j as int).len() implies install_name_spec(
                    prefix@,
                    sep@,
                    #[trigger] skills@.subrange(0, j as int)[a].id@,
                ) != install_name_spec(prefix@, sep@, #[trigger] skills@.subrange(0, j as int)[b].id@) by {
                    assert(skills@.subrange(0, j as int)[a] == skills@[a]);
                    assert(skills@.subrange(0, j as int)[b] == skills@[b]);
                }
                return Err(SkillpackError::NameCollision { name });
            }
            i += 1;
        }
        names.push(name);
        j += 1;
    }
    Ok(())
}

/// How many distinct paths of `s` are listed in `other` (`inside`) or not
/// (`!inside`).
pub open spec fn count_distinct(s: Seq<String>, other: Seq<String>, inside: bool) -> nat
    decreases s.len(),
{
    if s.len() == 0 {
        0
    } else if lists(s.drop_last(), s.last()@) || lists(other, s.last()@) != inside {
        count_distinct(s.drop_last(), other, inside)
    } else {
        count_distinct(s.drop_last(), other, inside) + 1
    }
}

/// How an install changed the paths of a pack in a sink.
#[derive(Clone, Copy, Debug, PartialEq, Eq, Structural)]
pub struct ChangeCounts {
    /// Paths installed now and not before.
    pub added: usize,
    /// Paths installed before and now.
    pub updated: usize,
    /// Paths installed before and not now.
    pub removed: usize,
}

fn count_paths(s: &Vec<String>, other: &Vec<String>, inside: bool) -> (r: usize)
    ensures
        r == count_distinct(s@, other@, inside),
{
    let mut c: usize = 0;
    let mut i: usize = 0;
    while i < s.len()
        invariant
            i <= s@.len(),
            c <= i,
            c == count_distinct(s@.subrange(0, i as int), other@, inside),
        decreases s.len() - i,
    {
        let ghost pre = s@.subrange(0, i + 1);
        assert(pre.drop_last() =~= s@.subrange(0, i as int));
        let mut seen = false;
        let mut k: usize = 0;
        while k < i
            invariant
                k <= i,
                i < s@.len(),
                seen == lists(s@.subrange(0, k as int), s@[i as int]@),
            decreases i - k,
        {
            assert(s@.subrange(0, k + 1).drop_last() =~= s@.subrange(0, k as int));
            if same_text(s[k].as_str(), s[i].as_str()) {
                seen = true;
            }
            proof {
                if seen {
                    if s@[k as int]@ == s@[i as int]@ {
                        assert(s@.subrange(0, k + 1)[k as int]@ == s@[i as int]@);
                    } else {
                        let m = choose|m: int| 0 <= m < k && #[trigger] s@.subrange(0, k as int)[m]@ == s@[i as int]@;
                        assert(s@.subrange(0, k + 1)[m]@ == s@[i as int]@);
                    }
                } else {
                    assert forall|m: int| 0 <= m < k + 1 implies #[trigger] s@.subrange(0, k + 1)[m]@ != s@[i as int]@ by {
                        if m < k {
                            assert(s@.subrange(0, k + 1)[m] == s@.subrange(0, k as int)[m]);
                        }
                    }
                }
            }
            k += 1;
        }
        if !seen && lists_path(other, s[i].as_str()) == inside {
            c += 1;
        }
        i += 1;
    }
    assert(s@.subrange(0, s@.len() as int) =~= s@);
    c
}

/// The counts of added, updated and removed paths between the paths a pack
/// had in a sink and those it has now.
pub fn change_counts(old_paths: &Vec<String>, new_paths: &Vec<String>) -> (r: ChangeCounts)
    ensures
        r.added == count_distinct(new_paths@, old_paths@, false),
        r.updated == count_distinct(new_paths@, old_paths@, true),
        r.removed == count_distinct(old_paths@, new_paths@, false),
{
    ChangeCounts {
        added: count_paths(new_paths, old_paths, false),
        updated: count_paths(new_paths, old_paths, true),
        removed: count_paths(old_paths, new_paths, false),
    }
}

/// One skill to copy into the sink; `replace` says that its destination
/// exists already, is owned by the pack, and goes first.
#[derive(Clone, Debug)]
pub struct CopyStep {
    pub src: String,
    pub dest: String,
    pub replace: bool,
}

/// What an install does: remove the paths the pack no longer installs, and
/// copy each skill. The new record stands in the state at `record_index`.
#[derive(Clone, Debug)]
pub struct InstallPlan {
    pub remove: Vec<String>,
    pub copies: Vec<CopyStep>,
    pub record_index: usize,
}

/// The paths of `old` that are no destination of the skills any more.
pub open spec fn stale_spec(
    old: Seq<String>,
    skills: Seq<ResolvedSkill>,
    sink_path: Seq<char>,
    prefix: Seq<char>,
    sep: Seq<char>,
) -> Seq<Seq<char>>
    decreases old.len(),
{
    if old.len() == 0 {
        Seq::empty()
    } else if is_dest_of_some(old.last()@, skills, sink_path, prefix, sep) {
        stale_spec(old.drop_last(), skills, sink_path, prefix, sep)
    } else {
        stale_spec(old.drop_last(), skills, sink_path, prefix, sep).push(old.last()@)
    }
}

/// Skill `i`'s destination exists and the pack does not own it.
pub open spec fn unowned_existing(
    installs: Seq<InstallRecord>,
    resolved: ResolvedPack,
    sink_path: Seq<char>,
    dest_exists: Seq<bool>,
    i: int,
) -> bool {
    dest_exists[i] && !owns(installs, sink_path, resolved.pack.name@, dest_of(sink_path, resolved, i))
}

/// Every check of an install passes: no destination exists unowned, and
/// every destination and every stale path lies within the sink.
pub open spec fn install_allowed(
    installs: Seq<InstallRecord>,
    resolved: ResolvedPack,
    sink_path: Seq<char>,
    dest_exists: Seq<bool>,
) -> bool {
    let n = resolved.final_skills@.len();
    let old = prior_paths(installs, sink_path, resolved.pack.name@);
    &&& forall|i: int| 0 <= i < n ==> !#[trigger] unowned_existing(installs, resolved, sink_path, dest_exists, i)
    &&& forall|i: int| 0 <= i < n ==> within(sink_path, #[trigger] dest_of(sink_path, resolved, i))
    &&& forall|m: int|
        0 <= m < old.len() && !is_dest_of_some(
            #[trigger] old[m]@,
            resolved.final_skills@,
            sink_path,
            resolved.pack.install_prefix@,
            resolved.pack.install_sep@,
        ) ==> within(sink_path, old[m]@)
}

/// The record of an install of `resolved` into the sink.
pub open spec fn record_made(
    rec: InstallRecord,
    resolved: ResolvedPack,
    sink: Seq<char>,
    sink_path: Seq<char>,
    installed_at: String,
) -> bool {
    &&& rec.sink@ == sink
    &&& rec.sink_path@ == sink_path
    &&& rec.pack == resolved.pack.name
    &&& rec.pack_file == resolved.pack_file
    &&& rec.prefix == resolved.pack.install_prefix
    &&& rec.sep == resolved.pack.install_sep
    &&& rec.flatten == resolved.pack.install_flatten
    &&& rec.installed_at == installed_at
    &&& rec.imports@.len() == resolved.imports@.len()
    &&& forall|k: int| 0 <= k < rec.imports@.len() ==> #[trigger] rec.imports@[k] == (ImportRecord {
        repo: resolved.imports@[k].repo,
        ref_name: resolved.imports@[k].ref_name,
        commit: resolved.imports@[k].commit,
    })
    &&& are_dests(
        rec.installed_paths@,
        resolved.final_skills@,
        sink_path,
        resolved.pack.install_prefix@,
        resolved.pack.install_sep@,
    )
    &&& sorted_by_key(rec.installed_paths@)
}

/// The state after `rec` replaced the record of its pack, or joined them.
pub open spec fn installs_after(installs: Seq<InstallRecord>, sink_path: Seq<char>, pack: Seq<char>, rec: InstallRecord) -> Seq<
    InstallRecord,
> {
    if has_record(installs, sink_path, pack) {
        installs.update(first_index(installs, sink_path, pack), rec)
    } else {
        installs.push(rec)
    }
}

/// What an install returns, and what it does to the state.
pub open spec fn install_result(
    old_state: StateFile,
    resolved: ResolvedPack,
    sink: Seq<char>,
    sink_path: Seq<char>,
    dest_exists: Seq<bool>,
    installed_at: String,
    r: Result<InstallPlan, SkillpackError>,
    new_state: StateFile,
) -> bool {
    let installs = old_state.installs@;
    &&& r is Ok <==> install_allowed(installs, resolved, sink_path, dest_exists)
    &&& (exists|i: int| 0 <= i < resolved.final_skills@.len() && #[trigger] unowned_existing(installs, resolved, sink_path, dest_exists, i))
        ==> (r matches Err(e) && e matches SkillpackError::DestinationNotOwned { path } && exists|i: int|
        0 <= i < resolved.final_skills@.len() && #[trigger] unowned_existing(installs, resolved, sink_path, dest_exists, i)
            && path@ == dest_of(sink_path, resolved, i))
    &&& r matches Err(e) ==> (e is DestinationNotOwned || e is OutsideSink) && new_state == old_state
    &&& r matches Ok(plan) ==> {
        &&& plan.record_index < new_state.installs@.len()
        &&& record_made(new_state.installs@[plan.record_index as int], resolved, sink, sink_path, installed_at)
        &&& string_views(plan.remove@) == stale_spec(
            prior_paths(installs, sink_path, resolved.pack.name@),
            resolved.final_skills@,
            sink_path,
            resolved.pack.install_prefix@,
            resolved.pack.install_sep@,
        )
        &&& plan.copies@.len() == resolved.final_skills@.len()
        &&& forall|i: int| 0 <= i < plan.copies@.len() ==> {
            &&& (#[trigger] plan.copies@[i]).src == resolved.final_skills@[i].dir
            &&& plan.copies@[i].dest@ == dest_of(sink_path, resolved, i)
            &&& plan.copies@[i].replace == dest_exists[i]
        }
        &&& new_state.version == old_state.version
        &&& new_state.installs@ == installs_after(
            installs,
            sink_path,
            resolved.pack.name@,
            new_state.installs@[plan.record_index as int],
        )
    }
}

proof fn lemma_lists_dests(
    paths: Seq<String>,
    skills: Seq<ResolvedSkill>,
    sink_path: Seq<char>,
    prefix: Seq<char>,
    sep: Seq<char>,
    x: Seq<char>,
)
    requires
        are_dests(paths, skills, sink_path, prefix, sep),
    ensures
        lists(paths, x) <==> is_dest_of_some(x, skills, sink_path, prefix, sep),
{
    if lists(paths, x) {
        let k = choose|k: int| 0 <= k < paths.len() && #[trigger] paths[k]@ == x;
        assert(is_dest_of_some(paths[k]@, skills, sink_path, prefix, sep));
    }
    if is_dest_of_some(x, skills, sink_path, prefix, sep) {
        let i = choose|i: int| 0 <= i < skills.len() && x == dest_spec(sink_path, prefix, sep, #[trigger] skills[i].id@);
        assert(lists(paths, dest_spec(sink_path, prefix, sep, skills[i].id@)));
    }
}

fn import_records(imports: &Vec<ResolvedImport>) -> (r: Vec<ImportRecord>)
    ensures
        r@.len() == imports@.len(),
        forall|k: int| 0 <= k < r@.len() ==> #[trigger] r@[k] == (ImportRecord {
            repo: imports@[k].repo,
            ref_name: imports@[k].ref_name,
            commit: imports@[k].commit,
        }),
{
    let mut r: Vec<ImportRecord> = Vec::new();
    let mut k: usize = 0;
    while k < imports.len()
        invariant
            k <= imports@.len(),
            r@.len() == k,
            forall|m: int| 0 <= m < k ==> #[trigger] r@[m] == (ImportRecord {
                repo: imports@[m].repo,
                ref_name: imports@[m].ref_name,
                commit: imports@[m].commit,
            }),
        decreases imports.len() - k,
    {
        let imp = &imports[k];
        r.push(ImportRecord { repo: imp.repo.clone(), ref_name: copy_opt(&imp.ref_name), commit: imp.commit.clone() });
        k += 1;
    }
    r
}

/// Plans the install of `resolved` into the sink at `sink_path` and records
/// it in `state`. `dest_exists[i]` tells whether the destination of the
/// `i`-th final skill exists now. A destination that exists must be owned by
/// the pack's record in this sink; every destination, and every path of the
/// prior record that is no longer installed, must lie within the sink. When a
/// check fails, the state is left as it was.
pub fn install_pack(
    resolved: &ResolvedPack,
    sink: &str,
    sink_path: &str,
    state: &mut StateFile,
    dest_exists: &Vec<bool>,
    installed_at: String,
) -> (r: Result<InstallPlan, SkillpackError>)
    requires
        dest_exists@.len() == resolved.final_skills@.len(),
    ensures
        install_result(*old(state), *resolved, sink@, sink_path@, dest_exists@, installed_at, r, *final(state)),
{
    let prefix = resolved.pack.install_prefix.as_str();
    let sep = resolved.pack.install_sep.as_str();
    let name = resolved.pack.name.as_str();
    let n = resolved.final_skills.len();
    let ghost installs = state.installs@;
    let mut copies: Vec<CopyStep> = Vec::new();
    let mut i: usize = 0;
    while i < n
        invariant
            i <= n,
            n == resolved.final_skills@.len(),
            dest_exists@.len() == n,
            state.installs@ == installs,
            *state == *old(state),
            installs == old(state).installs@,
            prefix@ == resolved.pack.install_prefix@,
            sep@ == resolved.pack.install_sep@,
            name@ == resolved.pack.name@,
            copies@.len() == i,
            forall|k: int| 0 <= k < i ==> {
                &&& (#[trigger] copies@[k]).src == resolved.final_skills@[k].dir
                &&& copies@[k].dest@ == dest_of(sink_path@, *resolved, k)
                &&& copies@[k].replace == dest_exists@[k]
            },
            forall|k: int| 0 <= k < i ==> !#[trigger] unowned_existing(installs, *resolved, sink_path@, dest_exists@, k),
        decreases n - i,
    {
        let iname = install_name(prefix, sep, resolved.final_skills[i].id.as_str());
        let dest = join_path(sink_path, iname.as_str());
        if dest_exists[i] && !record_owned_path(state, sink_path, name, dest.as_str()) {
            assert(unowned_existing(installs, *resolved, sink_path@, dest_exists@, i as int));
            return Err(SkillpackError::DestinationNotOwned { path: dest });
        }
        copies.push(CopyStep { src: resolved.final_skills[i].dir.clone(), dest, replace: dest_exists[i] });
        i += 1;
    }
    let mut i: usize = 0;
    while i < n
        invariant
            i <= n,
            n == resolved.final_skills@.len(),
            copies@.len() == n,
            *state == *old(state),
            installs == old(state).installs@,
            dest_exists@.len() == n,
            forall|k: int| 0 <= k < n ==> !#[trigger] unowned_existing(installs, *resolved, sink_path@, dest_exists@, k),
            forall|k: int| 0 <= k < n ==> (#[trigger] copies@[k]).dest@ == dest_of(sink_path@, *resolved, k),
            forall|k: int| 0 <= k < i ==> within(sink_path@, #[trigger] dest_of(sink_path@, *resolved, k)),
        decreases n - i,
    {
        if !is_within(sink_path, copies[i].dest.as_str()) {
            assert(!within(sink_path@, dest_of(sink_path@, *resolved, i as int)));
            return Err(SkillpackError::OutsideSink { path: copies[i].dest.clone() });
        }
        i += 1;
    }
    let new_paths = build_install_paths(&resolved.final_skills, sink_path, prefix, sep);
    let prior = find_record_index(state, sink_path, name);
    let ghost old_paths = prior_paths(installs, sink_path@, name@);
    let ghost skills = resolved.final_skills@;
    let mut remove: Vec<String> = Vec::new();
    match prior {
        Some(p) => {
            proof {
                lemma_first_unique(installs, sink_path@, name@, p as int);
            }
            let prev = &state.installs[p].installed_paths;
            assert(prev@ == old_paths);
            let mut m: usize = 0;
            while m < prev.len()
                invariant
                    m <= prev@.len(),
                    prev@ == old_paths,
                    *state == *old(state),
                    installs == old(state).installs@,
                    old_paths == prior_paths(installs, sink_path@, name@),
                    name@ == resolved.pack.name@,
                    n == resolved.final_skills@.len(),
                    dest_exists@.len() == n,
                    forall|k: int| 0 <= k < n ==> !#[trigger] unowned_existing(installs, *resolved, sink_path@, dest_exists@, k),
                    forall|k: int| 0 <= k < n ==> within(sink_path@, #[trigger] dest_of(sink_path@, *resolved, k)),
                    are_dests(new_paths@, skills, sink_path@, prefix@, sep@),
                    skills == resolved.final_skills@,
                    prefix@ == resolved.pack.install_prefix@,
                    sep@ == resolved.pack.install_sep@,
                    string_views(remove@) == stale_spec(prev@.subrange(0, m as int), skills, sink_path@, prefix@, sep@),
                    forall|j: int|
                        0 <= j < m && !is_dest_of_some(#[trigger] prev@[j]@, skills, sink_path@, prefix@, sep@)
                            ==> within(sink_path@, prev@[j]@),
                decreases prev.len() - m,
            {
                assert(prev@.subrange(0, m + 1).drop_last() =~= prev@.subrange(0, m as int));
                proof {
                    lemma_lists_dests(new_paths@, skills, sink_path@, prefix@, sep@, prev@[m as int]@);
                }
                if !lists_path(&new_paths, prev[m].as_str()) {
                    if !is_within(sink_path, prev[m].as_str()) {
                        return Err(SkillpackError::OutsideSink { path: prev[m].clone() });
                    }
                    let ghost before = remove@;
                    remove.push(prev[m].clone());
                    assert(string_views(remove@) =~= string_views(before).push(prev@[m as int]@));
                }
                m += 1;
            }
            assert(prev@.subrange(0, prev@.len() as int) =~= prev@);
        },
        None => {
            assert(string_views(remove@) =~= Seq::<Seq<char>>::empty());
        },
    }
    let record = InstallRecord {
        sink: String::from_str(sink),
        sink_path: String::from_str(sink_path),
        pack: resolved.pack.name.clone(),
        pack_file: resolved.pack_file.clone(),
        prefix: resolved.pack.install_prefix.clone(),
        sep: resolved.pack.install_sep.clone(),
        flatten: resolved.pack.install_flatten,
        imports: import_records(&resolved.imports),
        installed_paths: new_paths,
        installed_at,
    };
    let record_index = match prior {
        Some(p) => {
            state.installs.set(p, record);
            p
        },
        None => {
            state.installs.push(record);
            state.installs.len() - 1
        },
    };
    Ok(InstallPlan { remove, copies, record_index })
}

/// What an uninstall returns, and what it does to the state.
pub open spec fn uninstall_result(
    old_state: StateFile,
    sink_path: Seq<char>,
    pack: Seq<char>,
    r: Result<InstallRecord, SkillpackError>,
    new_state: StateFile,
) -> bool {
    let installs = old_state.installs@;
    &&& !has_record(installs, sink_path, pack) ==> (r matches Err(e) && e matches SkillpackError::PackNotInstalled {
        pack: p,
    } && p@ == pack)
    &&& has_record(installs, sink_path, pack) ==> {
        let i = first_index(installs, sink_path, pack);
        let paths = installs[i].installed_paths@;
        &&& r is Ok <==> forall|k: int| 0 <= k < paths.len() ==> within(sink_path, #[trigger] paths[k]@)
        &&& r matches Ok(rec) ==> rec == installs[i] && new_state.installs@ == installs.remove(i)
            && new_state.version == old_state.version
        &&& r matches Err(e) ==> e matches SkillpackError::OutsideSink { path } && exists|k: int|
            0 <= k < paths.len() && #[trigger] paths[k]@ == path@ && !within(sink_path, path@)
    }
    &&& r is Err ==> new_state == old_state
}

/// Removes the record of `pack` in the sink at `sink_path` and returns it;
/// the caller then deletes the paths it lists. Fails when there is no such
/// record, or when one of its paths lies outside the sink.
pub fn uninstall_pack(state: &mut StateFile, sink_path: &str, pack: &str) -> (r: Result<InstallRecord, SkillpackError>)
    ensures
        uninstall_result(*old(state), sink_path@, pack@, r, *final(state)),
{
    let i = match find_record_index(state, sink_path, pack) {
        Some(i) => i,
        None => return Err(SkillpackError::PackNotInstalled { pack: String::from_str(pack) }),
    };
    proof {
        lemma_first_unique(state.installs@, sink_path@, pack@, i as int);
    }
    let paths = &state.installs[i].installed_paths;
    let mut k: usize = 0;
    while k < paths.len()
        invariant
            k <= paths@.len(),
            *state == *old(state),
            has_record(state.installs@, sink_path@, pack@),
            first_index(state.installs@, sink_path@, pack@) == i,
            *paths == state.installs@[i as int].installed_paths,
            forall|m: int| 0 <= m < k ==> within(sink_path@, #[trigger] paths@[m]@),
        decreases paths.len() - k,
    {
        if !is_within(sink_path, paths[k].as_str()) {
            return Err(SkillpackError::OutsideSink { path: paths[k].clone() });
        }
        k += 1;
    }
    let rec = state.installs.remove(i);
    Ok(rec)
}

} // verus!
