//! Pack resolution: which skills a pack selects, locally and from imports.
use vstd::prelude::*;
use vstd::string::StringExecFns;
use crate::discover::Skill;
use crate::errors::SkillpackError;
use crate::pack::{ImportSpec, Pack};
use crate::patterns::{PatternSet, count_matching, set_matches, valid_pattern};
use crate::sort::{Keyed, sort_by_key, sorted_by_key};
use crate::text::string_views;
pub use crate::install::detect_collisions;

verus! {

/// Where a resolved skill comes from.
#[derive(Clone, Debug)]
pub enum SkillSource {
    Local,
    Remote { repo: String },
}

impl SkillSource {
    /// An equal copy.
    pub fn duplicate(&self) -> (r: SkillSource)
        ensures
            r == *self,
    {
        match self {
            SkillSource::Local => SkillSource::Local,
            SkillSource::Remote { repo } => SkillSource::Remote { repo: repo.clone() },
        }
    }
}

/// A skill tagged with where it comes from.
#[derive(Clone, Debug)]
pub struct ResolvedSkill {
    pub id: String,
    pub dir: String,
    pub source: SkillSource,
}

impl Keyed for ResolvedSkill {
    open spec fn key(&self) -> Seq<char> {
        self.id@
    }

    fn key_text(&self) -> (r: &str) {
        self.id.as_str()
    }

    fn duplicate(&self) -> (r: Self) {
        ResolvedSkill { id: self.id.clone(), dir: self.dir.clone(), source: self.source.duplicate() }
    }
}

/// What the repository cache and discovery gave for one import: the commit
/// checked out and the skills found in its tree.
#[derive(Clone, Debug)]
pub struct FetchedImport {
    pub commit: String,
    pub skills: Vec<Skill>,
}

/// The skills selected from one import, with the commit they come from.
#[derive(Clone, Debug)]
pub struct ResolvedImport {
    pub repo: String,
    pub ref_name: Option<String>,
    pub commit: String,
    pub skills: Vec<ResolvedSkill>,
}

/// A pack with the skills it selects.
#[derive(Clone, Debug)]
pub struct ResolvedPack {
    pub pack: Pack,
    pub pack_file: String,
    pub local: Vec<ResolvedSkill>,
    pub imports: Vec<ResolvedImport>,
    pub final_skills: Vec<ResolvedSkill>,
}

/// The keys of the items, in order.
pub open spec fn keys_of<T: Keyed>(s: Seq<T>) -> Seq<Seq<char>> {
    s.map_values(|x: T| x.key())
}

/// The items whose key some pattern of `ps` matches (`keep`), or that no
/// pattern matches (`!keep`), in order.
pub open spec fn select_spec<T: Keyed>(ps: Seq<Seq<char>>, s: Seq<T>, keep: bool) -> Seq<T>
    decreases s.len(),
{
    if s.len() == 0 {
        Seq::empty()
    } else if set_matches(ps, s.last().key()) == keep {
        select_spec(ps, s.drop_last(), keep).push(s.last())
    } else {
        select_spec(ps, s.drop_last(), keep)
    }
}

pub open spec fn all_valid(ps: Seq<Seq<char>>) -> bool {
    forall|k: int| 0 <= k < ps.len() ==> valid_pattern(#[trigger] ps[k])
}

/// Every pattern is valid and matches at least one of `ids`.
pub open spec fn includes_ok(ps: Seq<Seq<char>>, ids: Seq<Seq<char>>) -> bool {
    all_valid(ps) && forall|k: int| 0 <= k < ps.len() ==> count_matching(#[trigger] ps[k], ids) > 0
}

/// What a failed selection reports: an invalid pattern, or a pattern that
/// matched nothing.
pub open spec fn selection_error(ps: Seq<String>, ids: Seq<Seq<char>>, label: Seq<char>, e: SkillpackError) -> bool {
    ||| e matches SkillpackError::InvalidPattern { pattern } && exists|k: int|
        0 <= k < ps.len() && #[trigger] ps[k] == pattern && !valid_pattern(pattern@)
    ||| e matches SkillpackError::PatternMatchedNothing { label: l, pattern } && l@ == label && all_valid(
        string_views(ps),
    ) && exists|k: int| 0 <= k < ps.len() && #[trigger] ps[k] == pattern && count_matching(pattern@, ids) == 0
}

pub open spec fn tagged(s: Skill, source: SkillSource) -> ResolvedSkill {
    ResolvedSkill { id: s.id, dir: s.dir, source }
}

pub open spec fn tag_all(s: Seq<Skill>, source: SkillSource) -> Seq<ResolvedSkill> {
    s.map_values(|x: Skill| tagged(x, source))
}

/// An exclude pattern of `ps` is invalid, and `e` reports it.
pub open spec fn bad_exclude(ps: Seq<String>, e: SkillpackError) -> bool {
    e matches SkillpackError::InvalidPattern { pattern } && exists|k: int|
        0 <= k < ps.len() && #[trigger] ps[k] == pattern && !valid_pattern(pattern@)
}

/// The exclude patterns of an import, as written.
pub open spec fn exclude_strings(imp: ImportSpec) -> Seq<String> {
    match imp.exclude {
        Some(v) => v@,
        None => Seq::empty(),
    }
}

/// What a failed import reports: its include selection's error, or else an
/// invalid exclude pattern.
pub open spec fn import_error(imp: ImportSpec, f: FetchedImport, e: SkillpackError) -> bool {
    if !includes_ok(string_views(imp.includes@), keys_of(f.skills@)) {
        selection_error(imp.includes@, keys_of(f.skills@), "import include"@, e)
    } else {
        bad_exclude(exclude_strings(imp), e)
    }
}

/// Import `k` is the first that cannot be resolved.
pub open spec fn first_bad_import(pack: Pack, fetched: Seq<FetchedImport>, k: int) -> bool {
    &&& 0 <= k < pack.imports@.len()
    &&& !import_resolvable(pack.imports@[k], fetched[k])
    &&& forall|m: int| 0 <= m < k ==> import_resolvable(#[trigger] pack.imports@[m], fetched[m])
}

pub open spec fn excludes_of(imp: ImportSpec) -> Seq<Seq<char>> {
    match imp.exclude {
        Some(v) => string_views(v@),
        None => Seq::empty(),
    }
}

/// The skills of all imports, one import after the other.
pub open spec fn import_skills(imps: Seq<ResolvedImport>) -> Seq<ResolvedSkill>
    decreases imps.len(),
{
    if imps.len() == 0 {
        Seq::empty()
    } else {
        import_skills(imps.drop_last()) + imps.last().skills@
    }
}

/// An import can be resolved against what was fetched for it.
pub open spec fn import_resolvable(imp: ImportSpec, f: FetchedImport) -> bool {
    includes_ok(string_views(imp.includes@), keys_of(f.skills@)) && all_valid(excludes_of(imp))
}

/// `r` is what resolving `imp` gives: its included skills, minus the
/// excluded ones, tagged with the repository and sorted by identifier.
pub open spec fn imported(imp: ImportSpec, f: FetchedImport, r: ResolvedImport) -> bool {
    &&& r.repo == imp.repo
    &&& r.ref_name == imp.ref_name
    &&& r.commit == f.commit
    &&& sorted_by_key(r.skills@)
    &&& r.skills@.to_multiset() == select_spec(
        excludes_of(imp),
        select_spec(
            string_views(imp.includes@),
            tag_all(f.skills@, SkillSource::Remote { repo: imp.repo }),
            true,
        ),
        false,
    ).to_multiset()
}

/// A pack can be resolved: its own patterns and those of each import are
/// valid, and each include pattern matches some skill of its tree.
pub open spec fn resolvable(pack: Pack, local: Seq<Skill>, fetched: Seq<FetchedImport>) -> bool {
    &&& includes_ok(string_views(pack.includes@), keys_of(local))
    &&& forall|k: int| 0 <= k < pack.imports@.len() ==> import_resolvable(#[trigger] pack.imports@[k], fetched[k])
    &&& all_valid(string_views(pack.exclude@))
}

/// What resolving a pack returns.
pub open spec fn resolution_result(
    pack: Pack,
    pack_file: String,
    local: Seq<Skill>,
    fetched: Seq<FetchedImport>,
    r: Result<ResolvedPack, SkillpackError>,
) -> bool {
    &&& r is Ok <==> resolvable(pack, local, fetched)
    &&& r matches Err(e) ==> (e is InvalidPattern || e is PatternMatchedNothing)
    &&& !includes_ok(string_views(pack.includes@), keys_of(local)) ==> (r matches Err(e) && selection_error(
        pack.includes@,
        keys_of(local),
        "local include"@,
        e,
    ))
    &&& forall|k: int|
        includes_ok(string_views(pack.includes@), keys_of(local)) && #[trigger] first_bad_import(pack, fetched, k)
            ==> (r matches Err(e) && import_error(pack.imports@[k], fetched[k], e))
    &&& (includes_ok(string_views(pack.includes@), keys_of(local)) && (forall|k: int|
        0 <= k < pack.imports@.len() ==> import_resolvable(#[trigger] pack.imports@[k], fetched[k])) && !all_valid(
        string_views(pack.exclude@),
    )) ==> (r matches Err(e) && bad_exclude(pack.exclude@, e))
    &&& r matches Ok(rp) ==> {
        &&& rp.pack == pack
        &&& rp.pack_file == pack_file
        &&& sorted_by_key(rp.local@)
        &&& rp.local@.to_multiset() == select_spec(
            string_views(pack.includes@),
            tag_all(local, SkillSource::Local),
            true,
        ).to_multiset()
        &&& rp.imports@.len() == pack.imports@.len()
        &&& forall|k: int| 0 <= k < rp.imports@.len() ==> imported(pack.imports@[k], fetched[k], #[trigger] rp.imports@[k])
        &&& sorted_by_key(rp.final_skills@)
        &&& rp.final_skills@.to_multiset() == select_spec(
            string_views(pack.exclude@),
            rp.local@ + import_skills(rp.imports@),
            false,
        ).to_multiset()
    }
}

proof fn lemma_keys_of_tagged(s: Seq<Skill>, source: SkillSource)
    ensures
        keys_of(tag_all(s, source)) == keys_of(s),
{
    assert(keys_of(tag_all(s, source)) =~= keys_of(s));
}

/// Validates the patterns, as `PatternSet::new` does.
fn compile(patterns: &Vec<String>) -> (r: Result<PatternSet, SkillpackError>)
    ensures
        r is Ok <==> all_valid(string_views(patterns@)),
        r matches Ok(set) ==> set@ == string_views(patterns@),
        r matches Err(e) ==> e matches SkillpackError::InvalidPattern { pattern } && exists|k: int|
            0 <= k < patterns@.len() && #[trigger] patterns@[k] == pattern && !valid_pattern(pattern@),
{
    let r = PatternSet::new(patterns);
    proof {
        if r is Err {
            let k = choose|k: int|
                0 <= k < patterns@.len() && !valid_pattern(#[trigger] patterns@[k]@)
                && (forall|m: int| 0 <= m < k ==> valid_pattern(#[trigger] patterns@[m]@))
                && r->Err_0 == (SkillpackError::InvalidPattern { pattern: patterns@[k] });
            assert(string_views(patterns@)[k] == patterns@[k]@);
        } else {
            assert forall|k: int| 0 <= k < patterns@.len() implies valid_pattern(#[trigger] string_views(patterns@)[k]) by {
                assert(string_views(patterns@)[k] == patterns@[k]@);
                assert(valid_pattern(patterns@[k]@));
            }
        }
    }
    r
}

fn keys_vec<T: Keyed>(items: &Vec<T>) -> (r: Vec<String>)
    ensures
        string_views(r@) == keys_of(items@),
{
    let mut r: Vec<String> = Vec::new();
    let mut i: usize = 0;
    while i < items.len()
        invariant
            i <= items@.len(),
            r@.len() == i,
            string_views(r@) == keys_of(items@.subrange(0, i as int)),
        decreases items.len() - i,
    {
        let key = String::from_str(items[i].key_text());
        assert(key@ == items@[i as int].key());
        let ghost before = r@;
        r.push(key);
        assert forall|j: int| 0 <= j < i + 1 implies #[trigger] string_views(r@)[j] == keys_of(items@.subrange(0, i + 1))[j] by {
            if j < i {
                assert(string_views(before)[j] == keys_of(items@.subrange(0, i as int))[j]);
                assert(r@[j] == before[j]);
                assert(items@.subrange(0, i as int)[j] == items@.subrange(0, i + 1)[j]);
            } else {
                assert(r@[j] == key);
                assert(items@.subrange(0, i + 1)[j] == items@[i as int]);
            }
        }
        assert(string_views(r@).len() == keys_of(items@.subrange(0, i + 1)).len());
        assert(string_views(r@) =~= keys_of(items@.subrange(0, i + 1)));
        i += 1;
    }
    assert(items@.subrange(0, items@.len() as int) =~= items@);
    r
}

fn filter_by_patterns<T: Keyed>(items: &Vec<T>, set: &PatternSet, keep: bool) -> (r: Vec<T>)
    ensures
        r@ == select_spec(set@, items@, keep),
{
    let mut r: Vec<T> = Vec::new();
    let mut i: usize = 0;
    while i < items.len()
        invariant
            i <= items@.len(),
            r@ == select_spec(set@, items@.subrange(0, i as int), keep),
        decreases items.len() - i,
    {
        let ghost pre = items@.subrange(0, i + 1);
        assert(pre.drop_last() =~= items@.subrange(0, i as int));
        if set.is_match(items[i].key_text()) == keep {
            r.push(items[i].duplicate());
        }
        i += 1;
    }
    assert(items@.subrange(0, items@.len() as int) =~= items@);
    r
}

fn append_copies<T: Keyed>(dst: &mut Vec<T>, src: &Vec<T>)
    ensures
        final(dst)@ == old(dst)@ + src@,
{
    let ghost start = dst@;
    let mut i: usize = 0;
    while i < src.len()
        invariant
            i <= src@.len(),
            dst@ == start + src@.subrange(0, i as int),
        decreases src.len() - i,
    {
        dst.push(src[i].duplicate());
        assert(dst@ =~= start + src@.subrange(0, i + 1));
        i += 1;
    }
    assert(src@.subrange(0, src@.len() as int) =~= src@);
}

fn tag_skills(skills: &Vec<Skill>, source: &SkillSource) -> (r: Vec<ResolvedSkill>)
    ensures
        r@ == tag_all(skills@, *source),
{
    let mut r: Vec<ResolvedSkill> = Vec::new();
    let mut i: usize = 0;
    while i < skills.len()
        invariant
            i <= skills@.len(),
            r@ == tag_all(skills@.subrange(0, i as int), *source),
        decreases skills.len() - i,
    {
        let s = skills[i].duplicate();
        r.push(ResolvedSkill { id: s.id, dir: s.dir, source: source.duplicate() });
        assert(r@ =~= tag_all(skills@.subrange(0, i + 1), *source));
        i += 1;
    }
    assert(skills@.subrange(0, skills@.len() as int) =~= skills@);
    r
}

/// Fails with `PatternMatchedNothing` on the first pattern of the set that
/// matches none of the items.
fn require_matches<T: Keyed>(set: &PatternSet, patterns: &Vec<String>, items: &Vec<T>, label: &str) -> (r:
    Result<(), SkillpackError>)
    requires
        set@ == string_views(patterns@),
        all_valid(set@),
    ensures
        r is Ok <==> includes_ok(set@, keys_of(items@)),
        r matches Err(e) ==> selection_error(patterns@, keys_of(items@), label@, e),
{
    let ids = keys_vec(items);
    let counts = set.match_count_per_pattern(&ids);
    let mut k: usize = 0;
    while k < counts.len()
        invariant
            k <= counts@.len(),
            counts@.len() == set@.len(),
            set@ == string_views(patterns@),
            all_valid(set@),
            string_views(ids@) == keys_of(items@),
            forall|m: int| 0 <= m < counts@.len() ==> #[trigger] counts@[m] == count_matching(set@[m], string_views(ids@)),
            forall|m: int| 0 <= m < k ==> count_matching(#[trigger] set@[m], keys_of(items@)) > 0,
        decreases counts.len() - k,
    {
        if counts[k] == 0 {
            assert(set@[k as int] == patterns@[k as int]@);
            return Err(SkillpackError::PatternMatchedNothing {
                label: String::from_str(label),
                pattern: patterns[k].clone(),
            });
        }
        k += 1;
    }
    Ok(())
}

/// The items whose identifier some include pattern matches, sorted by
/// identifier. Every include pattern must be valid and match at least one
/// item.
pub fn select_included<T: Keyed>(skills: &Vec<T>, includes: &Vec<String>, label: &str) -> (r: Result<
    Vec<T>,
    SkillpackError,
>)
    ensures
        r is Ok <==> includes_ok(string_views(includes@), keys_of(skills@)),
        r matches Err(e) ==> selection_error(includes@, keys_of(skills@), label@, e),
        r matches Ok(sel) ==> sorted_by_key(sel@) && sel@.to_multiset() == select_spec(
            string_views(includes@),
            skills@,
            true,
        ).to_multiset(),
{
    let set = match compile(includes) {
        Ok(set) => set,
        Err(e) => return Err(e),
    };
    match require_matches(&set, includes, skills, label) {
        Ok(()) => {},
        Err(e) => return Err(e),
    }
    let selected = filter_by_patterns(skills, &set, true);
    Ok(sort_by_key(selected))
}

/// The items whose identifier no exclude pattern matches, sorted by
/// identifier. Every exclude pattern must be valid.
pub fn apply_excludes<T: Keyed>(skills: &Vec<T>, exclude: &Vec<String>) -> (r: Result<Vec<T>, SkillpackError>)
    ensures
        r is Ok <==> all_valid(string_views(exclude@)),
        r matches Err(e) ==> bad_exclude(exclude@, e),
        r matches Ok(kept) ==> sorted_by_key(kept@) && kept@.to_multiset() == select_spec(
            string_views(exclude@),
            skills@,
            false,
        ).to_multiset(),
{
    let set = match compile(exclude) {
        Ok(set) => set,
        Err(e) => return Err(e),
    };
    let kept = filter_by_patterns(skills, &set, false);
    Ok(sort_by_key(kept))
}

/// Resolves one import against what was fetched for it.
pub fn resolve_import(import: &ImportSpec, fetched: &FetchedImport) -> (r: Result<ResolvedImport, SkillpackError>)
    ensures
        r is Ok <==> import_resolvable(*import, *fetched),
        r matches Err(e) ==> import_error(*import, *fetched, e),
        r matches Ok(ri) ==> imported(*import, *fetched, ri),
{
    let source = SkillSource::Remote { repo: import.repo.clone() };
    let tagged_skills = tag_skills(&fetched.skills, &source);
    proof {
        lemma_keys_of_tagged(fetched.skills@, source);
    }
    let inc = match compile(&import.includes) {
        Ok(set) => set,
        Err(e) => return Err(e),
    };
    match require_matches(&inc, &import.includes, &tagged_skills, "import include") {
        Ok(()) => {},
        Err(e) => return Err(e),
    }
    let empty: Vec<String> = Vec::new();
    let exclude = match &import.exclude {
        Some(v) => v,
        None => &empty,
    };
    assert(exclude@ == exclude_strings(*import));
    assert(string_views(exclude@) == excludes_of(*import)) by {
        if import.exclude is None {
            assert(string_views(empty@) =~= Seq::<Seq<char>>::empty());
        }
    }
    let exc = match compile(exclude) {
        Ok(set) => set,
        Err(e) => return Err(e),
    };
    let selected = filter_by_patterns(&tagged_skills, &inc, true);
    let kept = filter_by_patterns(&selected, &exc, false);
    Ok(ResolvedImport {
        repo: import.repo.clone(),
        ref_name: import.ref_name.clone(),
        commit: fetched.commit.clone(),
        skills: sort_by_key(kept),
    })
}

/// Resolves a pack from the skills discovered in the local tree and what was
/// fetched for each import, in the order of the pack's imports: the local
/// selection and each import's selection, their union minus the pack's
/// excludes, sorted by identifier. Skills of equal identifier from several
/// sources are all kept.
pub fn resolve_pack(pack: Pack, pack_file: String, local_skills: &Vec<Skill>, fetched: &Vec<FetchedImport>) -> (r:
    Result<ResolvedPack, SkillpackError>)
    requires
        fetched@.len() == pack.imports@.len(),
    ensures
        resolution_result(pack, pack_file, local_skills@, fetched@, r),
{
    let tagged_local = tag_skills(local_skills, &SkillSource::Local);
    proof {
        lemma_keys_of_tagged(local_skills@, SkillSource::Local);
    }
    let local = match select_included(&tagged_local, &pack.includes, "local include") {
        Ok(v) => v,
        Err(e) => return Err(e),
    };
    let mut imports: Vec<ResolvedImport> = Vec::new();
    let mut k: usize = 0;
    while k < pack.imports.len()
        invariant
            k <= pack.imports@.len(),
            fetched@.len() == pack.imports@.len(),
            imports@.len() == k,
            includes_ok(string_views(pack.includes@), keys_of(local_skills@)),
            forall|m: int| 0 <= m < k ==> import_resolvable(#[trigger] pack.imports@[m], fetched@[m]),
            forall|m: int| 0 <= m < k ==> imported(pack.imports@[m], fetched@[m], #[trigger] imports@[m]),
        decreases pack.imports.len() - k,
    {
        match resolve_import(&pack.imports[k], &fetched[k]) {
            Ok(ri) => {
                imports.push(ri);
            },
            Err(e) => {
                assert(!import_resolvable(pack.imports@[k as int], fetched@[k as int]));
                assert(first_bad_import(pack, fetched@, k as int));
                assert forall|j: int| #[trigger] first_bad_import(pack, fetched@, j) implies j == k by {
                    if j < k {
                        assert(import_resolvable(pack.imports@[j], fetched@[j]));
                    } else if j > k {
                        assert(import_resolvable(pack.imports@[k as int], fetched@[k as int]));
                    }
                }
                return Err(e);
            },
        }
        k += 1;
    }
    let mut union: Vec<ResolvedSkill> = Vec::new();
    append_copies(&mut union, &local);
    assert(union@ =~= local@ + import_skills(imports@.subrange(0, 0)));
    let mut k: usize = 0;
    while k < imports.len()
        invariant
            k <= imports@.len(),
            union@ == local@ + import_skills(imports@.subrange(0, k as int)),
        decreases imports.len() - k,
    {
        append_copies(&mut union, &imports[k].skills);
        assert(imports@.subrange(0, k + 1).drop_last() =~= imports@.subrange(0, k as int));
        assert(union@ =~= local@ + import_skills(imports@.subrange(0, k + 1)));
        k += 1;
    }
    assert(imports@.subrange(0, imports@.len() as int) =~= imports@);
    let final_skills = match apply_excludes(&union, &pack.exclude) {
        Ok(v) => v,
        Err(e) => return Err(e),
    };
    Ok(ResolvedPack { pack, pack_file, local, imports, final_skills })
}

} // verus!
