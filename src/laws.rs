//! Properties that hold across calls of the library, proved from the
//! contracts of its functions.
use vstd::prelude::*;
use crate::discover::Skill;
use crate::errors::SkillpackError;
use crate::install::{
    InstallPlan, are_dests, count_distinct, dest_of, install_allowed, install_result, installs_after, is_dest_of_some,
    stale_spec, unowned_existing,
};
use crate::pack::Pack;
use crate::util::within;
use crate::patterns::{double_star, pattern_matches, segs_match_from, set_matches, valid_pattern};
use crate::resolve::{
    ResolvedPack, includes_ok, keys_of, resolution_result, select_spec, tag_all, SkillSource,
};
use crate::sort::Keyed;
use crate::state::{
    InstallRecord, StateFile, first_index, has_record, is_first_record, lemma_first_unique, lists, owns, prior_paths,
    record_matches,
};
use crate::text::string_views;

verus! {

/// Whether a set of patterns matches an identifier does not depend on the
/// order, nor on the repetition, of its patterns.
pub proof fn law_match_order_insensitive(ps1: Seq<Seq<char>>, ps2: Seq<Seq<char>>, t: Seq<char>)
    requires
        ps1.to_set() == ps2.to_set(),
    ensures
        set_matches(ps1, t) == set_matches(ps2, t),
{
    if set_matches(ps1, t) {
        let k = choose|k: int| 0 <= k < ps1.len() && pattern_matches(#[trigger] ps1[k], t);
        assert(ps1.to_set().contains(ps1[k]));
        assert(ps2.contains(ps1[k]));
        let j = choose|j: int| 0 <= j < ps2.len() && ps2[j] == ps1[k];
        assert(pattern_matches(ps2[j], t));
    }
    if set_matches(ps2, t) {
        let k = choose|k: int| 0 <= k < ps2.len() && pattern_matches(#[trigger] ps2[k], t);
        assert(ps2.to_set().contains(ps2[k]));
        assert(ps1.contains(ps2[k]));
        let j = choose|j: int| 0 <= j < ps1.len() && ps1[j] == ps2[k];
        assert(pattern_matches(ps1[j], t));
    }
}

/// A `**` segment may match zero identifier segments: where the rest of the
/// pattern matches, so does the pattern with `**` in front.
pub proof fn law_double_star_matches_zero_segments(ps: Seq<Seq<char>>, ts: Seq<Seq<char>>, i: int, j: int)
    requires
        0 <= i < ps.len(),
        ps[i] == double_star(),
        segs_match_from(ps, ts, i + 1, j),
    ensures
        segs_match_from(ps, ts, i, j),
{
}

proof fn lemma_select_single<T: Keyed>(ps: Seq<Seq<char>>, s: Seq<T>, i: int)
    requires
        0 <= i < s.len(),
        set_matches(ps, s[i].key()),
        forall|j: int| 0 <= j < s.len() && j != i ==> !set_matches(ps, #[trigger] s[j].key()),
    ensures
        select_spec(ps, s, true) == seq![s[i]],
    decreases s.len(),
{
    if i == s.len() - 1 {
        assert forall|j: int| 0 <= j < s.drop_last().len() implies !set_matches(ps, #[trigger] s.drop_last()[j].key()) by {
            assert(s.drop_last()[j] == s[j]);
        }
        lemma_select_none(ps, s.drop_last());
        assert(select_spec(ps, s, true) =~= seq![s[i]]);
    } else {
        assert(!set_matches(ps, s.last().key()));
        assert forall|j: int| 0 <= j < s.drop_last().len() && j != i implies !set_matches(ps, #[trigger] s.drop_last()[j].key()) by {
            assert(s.drop_last()[j] == s[j]);
        }
        lemma_select_single(ps, s.drop_last(), i);
    }
}

proof fn lemma_select_none<T: Keyed>(ps: Seq<Seq<char>>, s: Seq<T>)
    requires
        forall|j: int| 0 <= j < s.len() ==> !set_matches(ps, #[trigger] s[j].key()),
    ensures
        select_spec(ps, s, true) == Seq::<T>::empty(),
    decreases s.len(),
{
    if s.len() > 0 {
        assert forall|j: int| 0 <= j < s.drop_last().len() implies !set_matches(ps, #[trigger] s.drop_last()[j].key()) by {
            assert(s.drop_last()[j] == s[j]);
        }
        lemma_select_none(ps, s.drop_last());
    }
}

proof fn lemma_select_all<T: Keyed>(s: Seq<T>)
    ensures
        select_spec(Seq::<Seq<char>>::empty(), s, false) == s,
    decreases s.len(),
{
    if s.len() > 0 {
        lemma_select_all(s.drop_last());
        assert(s.drop_last().push(s.last()) =~= s);
    }
}

proof fn lemma_count_positive(p: Seq<char>, ids: Seq<Seq<char>>, i: int)
    requires
        0 <= i < ids.len(),
        pattern_matches(p, ids[i]),
    ensures
        crate::patterns::count_matching(p, ids) > 0,
    decreases ids.len(),
{
    if i < ids.len() - 1 {
        assert(ids.drop_last()[i] == ids[i]);
        lemma_count_positive(p, ids.drop_last(), i);
    }
}

/// A pack without imports or excludes, whose one include pattern matches
/// exactly one local skill, resolves to that skill alone.
pub proof fn law_single_local_skill_round_trip(
    pack: Pack,
    pack_file: String,
    local: Seq<Skill>,
    r: Result<ResolvedPack, SkillpackError>,
    i: int,
)
    requires
        resolution_result(pack, pack_file, local, Seq::empty(), r),
        pack.imports@.len() == 0,
        pack.exclude@.len() == 0,
        pack.includes@.len() == 1,
        0 <= i < local.len(),
        pattern_matches(pack.includes@[0]@, local[i].id@),
        forall|j: int| 0 <= j < local.len() && j != i ==> !pattern_matches(pack.includes@[0]@, #[trigger] local[j].id@),
    ensures
        r matches Ok(rp) && rp.final_skills@.len() == 1 && rp.final_skills@[0].id == local[i].id
            && rp.final_skills@[0].dir == local[i].dir && rp.final_skills@[0].source == SkillSource::Local
            && rp.imports@.len() == 0,
{
    let ps = string_views(pack.includes@);
    assert(ps[0] == pack.includes@[0]@);
    let tl = tag_all(local, SkillSource::Local);
    assert(keys_of(local)[i] == local[i].id@);
    lemma_count_positive(ps[0], keys_of(local), i);
    assert(includes_ok(ps, keys_of(local)));
    assert(string_views(pack.exclude@) =~= Seq::<Seq<char>>::empty());
    assert(r is Ok);
    let rp = r->Ok_0;
    assert forall|j: int| 0 <= j < tl.len() && j != i implies !set_matches(ps, #[trigger] tl[j].key()) by {
        assert(tl[j].key() == local[j].id@);
        if set_matches(ps, tl[j].key()) {
            let k = choose|k: int| 0 <= k < ps.len() && pattern_matches(#[trigger] ps[k], tl[j].key());
            assert(k == 0);
        }
    }
    assert(tl[i].key() == local[i].id@);
    assert(pattern_matches(ps[0], tl[i].key()));
    lemma_select_single(ps, tl, i);
    let single = seq![tl[i]];
    assert(rp.imports@.len() == 0);
    assert(crate::resolve::import_skills(rp.imports@) =~= Seq::empty());
    assert(rp.local@ + crate::resolve::import_skills(rp.imports@) =~= rp.local@);
    lemma_select_all(rp.local@);
    assert(rp.final_skills@.to_multiset() == single.to_multiset());
    rp.final_skills@.to_multiset_ensures();
    single.to_multiset_ensures();
    assert(rp.final_skills@.len() == 1);
    assert(single.to_multiset().count(rp.final_skills@[0]) > 0);
    assert(single.contains(rp.final_skills@[0]));
    assert(rp.final_skills@[0] == tl[i]);
    assert(tl[i] == crate::resolve::tagged(local[i], SkillSource::Local));
}

proof fn lemma_first_exists(installs: Seq<InstallRecord>, sink_path: Seq<char>, pack: Seq<char>)
    requires
        has_record(installs, sink_path, pack),
    ensures
        is_first_record(installs, sink_path, pack, first_index(installs, sink_path, pack)),
    decreases installs.len(),
{
    let init = installs.drop_last();
    if has_record(init, sink_path, pack) {
        lemma_first_exists(init, sink_path, pack);
        let f = first_index(init, sink_path, pack);
        assert forall|m: int| 0 <= m < f implies !record_matches(#[trigger] installs[m], sink_path, pack) by {
            assert(installs[m] == init[m]);
        }
        assert(installs[f] == init[f]);
        assert(is_first_record(installs, sink_path, pack, f));
    } else {
        let last = installs.len() - 1;
        assert forall|m: int| 0 <= m < last implies !record_matches(#[trigger] installs[m], sink_path, pack) by {
            assert(installs[m] == init[m]);
        }
        let k = choose|k: int| 0 <= k < installs.len() && record_matches(#[trigger] installs[k], sink_path, pack);
        assert(k == last);
        assert(is_first_record(installs, sink_path, pack, last));
    }
    assert(is_first_record(installs, sink_path, pack, first_index(installs, sink_path, pack)));
}

/// After `rec` is stored for its pack and sink, it is the record found there.
proof fn lemma_record_after(installs: Seq<InstallRecord>, sink_path: Seq<char>, pack: Seq<char>, rec: InstallRecord)
    requires
        record_matches(rec, sink_path, pack),
    ensures
        has_record(installs_after(installs, sink_path, pack, rec), sink_path, pack),
        installs_after(installs, sink_path, pack, rec)[first_index(installs_after(installs, sink_path, pack, rec), sink_path, pack)]
            == rec,
{
    let after = installs_after(installs, sink_path, pack, rec);
    if has_record(installs, sink_path, pack) {
        lemma_first_exists(installs, sink_path, pack);
        let f = first_index(installs, sink_path, pack);
        assert forall|m: int| 0 <= m < f implies !record_matches(#[trigger] after[m], sink_path, pack) by {
            assert(after[m] == installs[m]);
        }
        assert(is_first_record(after, sink_path, pack, f));
        lemma_first_unique(after, sink_path, pack, f);
    } else {
        let n = installs.len() as int;
        assert forall|m: int| 0 <= m < n implies !record_matches(#[trigger] after[m], sink_path, pack) by {
            assert(after[m] == installs[m]);
        }
        assert(is_first_record(after, sink_path, pack, n));
        lemma_first_unique(after, sink_path, pack, n);
    }
}

proof fn lemma_counts_when_listed(a: Seq<String>, b: Seq<String>, c: Seq<String>)
    requires
        forall|k: int| 0 <= k < a.len() ==> lists(b, #[trigger] a[k]@),
        forall|k: int| 0 <= k < a.len() ==> lists(c, #[trigger] a[k]@),
    ensures
        count_distinct(a, b, false) == 0,
        count_distinct(a, b, true) == count_distinct(a, c, true),
    decreases a.len(),
{
    if a.len() > 0 {
        let init = a.drop_last();
        assert forall|k: int| 0 <= k < init.len() implies lists(b, #[trigger] init[k]@) && lists(c, init[k]@) by {
            assert(init[k] == a[k]);
        }
        lemma_counts_when_listed(init, b, c);
        assert(lists(b, a[a.len() - 1]@));
        assert(lists(c, a[a.len() - 1]@));
    }
}

proof fn lemma_dests_listed(
    a: Seq<String>,
    b: Seq<String>,
    resolved: ResolvedPack,
    sink_path: Seq<char>,
)
    requires
        are_dests(a, resolved.final_skills@, sink_path, resolved.pack.install_prefix@, resolved.pack.install_sep@),
        are_dests(b, resolved.final_skills@, sink_path, resolved.pack.install_prefix@, resolved.pack.install_sep@),
    ensures
        forall|k: int| 0 <= k < a.len() ==> lists(b, #[trigger] a[k]@),
{
    assert forall|k: int| 0 <= k < a.len() implies lists(b, #[trigger] a[k]@) by {
        assert(is_dest_of_some(a[k]@, resolved.final_skills@, sink_path, resolved.pack.install_prefix@, resolved.pack.install_sep@));
        let i = choose|i: int| 0 <= i < resolved.final_skills@.len() && a[k]@ == crate::install::dest_spec(
            sink_path,
            resolved.pack.install_prefix@,
            resolved.pack.install_sep@,
            #[trigger] resolved.final_skills@[i].id@,
        );
        assert(lists(b, crate::install::dest_spec(sink_path, resolved.pack.install_prefix@, resolved.pack.install_sep@, resolved.final_skills@[i].id@)));
    }
}

proof fn lemma_views_sorted(paths: Seq<String>)
    requires
        crate::sort::sorted_by_key(paths),
    ensures
        crate::sort::lex_sorted(string_views(paths)),
{
    assert forall|i: int, j: int| 0 <= i < j < string_views(paths).len() implies crate::sort::lex_le(
        #[trigger] string_views(paths)[i],
        #[trigger] string_views(paths)[j],
    ) by {
        assert(crate::sort::lex_le(paths[i].key(), paths[j].key()));
    }
}

/// Installing the same resolved pack twice into the same sink: the second
/// install succeeds whatever exists on disk, records the same set of paths,
/// in the same sorted order, and counts every path as updated, none as
/// added or removed.
pub proof fn law_reinstall_is_idempotent(
    s0: StateFile,
    resolved: ResolvedPack,
    sink: Seq<char>,
    sink_path: Seq<char>,
    exists1: Seq<bool>,
    at1: String,
    r1: Result<InstallPlan, SkillpackError>,
    s1: StateFile,
    exists2: Seq<bool>,
    at2: String,
    r2: Result<InstallPlan, SkillpackError>,
    s2: StateFile,
)
    requires
        install_result(s0, resolved, sink, sink_path, exists1, at1, r1, s1),
        install_result(s1, resolved, sink, sink_path, exists2, at2, r2, s2),
        r1 is Ok,
        exists2.len() == resolved.final_skills@.len(),
    ensures
        r2 is Ok,
        ({
            let first = s1.installs@[r1->Ok_0.record_index as int].installed_paths@;
            let second = s2.installs@[r2->Ok_0.record_index as int].installed_paths@;
            &&& prior_paths(s1.installs@, sink_path, resolved.pack.name@) == first
            &&& forall|p: Seq<char>| lists(first, p) <==> lists(second, p)
            &&& count_distinct(second, first, false) == 0
            &&& count_distinct(first, second, false) == 0
            &&& count_distinct(second, first, true) == count_distinct(second, second, true)
            &&& string_views(second) == string_views(first)
        }),
{
    let name = resolved.pack.name@;
    let prefix = resolved.pack.install_prefix@;
    let sep = resolved.pack.install_sep@;
    let skills = resolved.final_skills@;
    let plan1 = r1->Ok_0;
    let rec1 = s1.installs@[plan1.record_index as int];
    let first = rec1.installed_paths@;
    assert(record_matches(rec1, sink_path, name));
    lemma_record_after(s0.installs@, sink_path, name, rec1);
    let f = first_index(s1.installs@, sink_path, name);
    assert(s1.installs@[f] == rec1);
    assert(prior_paths(s1.installs@, sink_path, name) == first);
    lemma_first_exists(s1.installs@, sink_path, name);
    assert forall|i: int| 0 <= i < skills.len() implies !#[trigger] unowned_existing(s1.installs@, resolved, sink_path, exists2, i) by {
        assert(lists(first, crate::install::dest_spec(sink_path, prefix, sep, skills[i].id@)));
        assert(is_first_record(s1.installs@, sink_path, name, f));
        assert(owns(s1.installs@, sink_path, name, dest_of(sink_path, resolved, i)));
    }
    assert(install_allowed(s0.installs@, resolved, sink_path, exists1));
    assert forall|m: int| 0 <= m < first.len() implies is_dest_of_some(#[trigger] first[m]@, skills, sink_path, prefix, sep) by {
    }
    assert(install_allowed(s1.installs@, resolved, sink_path, exists2));
    assert(r2 is Ok);
    let plan2 = r2->Ok_0;
    let second = s2.installs@[plan2.record_index as int].installed_paths@;
    lemma_dests_listed(first, second, resolved, sink_path);
    lemma_dests_listed(second, first, resolved, sink_path);
    lemma_dests_listed(second, second, resolved, sink_path);
    lemma_views_sorted(first);
    lemma_views_sorted(second);
    crate::sort::lemma_sorted_unique(string_views(second), string_views(first));
    lemma_counts_when_listed(second, first, second);
    lemma_counts_when_listed(first, second, first);
    assert forall|p: Seq<char>| lists(first, p) implies lists(second, p) by {
        let k = choose|k: int| 0 <= k < first.len() && #[trigger] first[k]@ == p;
        assert(lists(second, first[k]@));
    }
    assert forall|p: Seq<char>| lists(second, p) implies lists(first, p) by {
        let k = choose|k: int| 0 <= k < second.len() && #[trigger] second[k]@ == p;
        assert(lists(first, second[k]@));
    }
}

/// An install whose destination exists, and which no record of the state
/// lists, is refused as not owned and leaves the state as it was.
pub proof fn law_unowned_destination_refused(
    s0: StateFile,
    resolved: ResolvedPack,
    sink: Seq<char>,
    sink_path: Seq<char>,
    dest_exists: Seq<bool>,
    installed_at: String,
    r: Result<InstallPlan, SkillpackError>,
    s1: StateFile,
    i: int,
)
    requires
        install_result(s0, resolved, sink, sink_path, dest_exists, installed_at, r, s1),
        0 <= i < resolved.final_skills@.len(),
        dest_exists[i],
        forall|k: int| 0 <= k < s0.installs@.len() ==> !lists(#[trigger] s0.installs@[k].installed_paths@, dest_of(sink_path, resolved, i)),
    ensures
        r matches Err(e) && e is DestinationNotOwned,
        s1 == s0,
{
    if owns(s0.installs@, sink_path, resolved.pack.name@, dest_of(sink_path, resolved, i)) {
        let f = choose|f: int| #[trigger] is_first_record(s0.installs@, sink_path, resolved.pack.name@, f) && lists(
            s0.installs@[f].installed_paths@,
            dest_of(sink_path, resolved, i),
        );
        assert(!lists(s0.installs@[f].installed_paths@, dest_of(sink_path, resolved, i)));
    }
    assert(unowned_existing(s0.installs@, resolved, sink_path, dest_exists, i));
}

/// With a prior record of the pack listing one path inside the sink that
/// is no longer a destination, and fresh destinations inside the sink, the
/// install succeeds, removes exactly that path, and copies every skill to
/// its destination, replacing the prior record.
pub proof fn law_reconcile_replaces_stale_path(
    s0: StateFile,
    resolved: ResolvedPack,
    sink: Seq<char>,
    sink_path: Seq<char>,
    dest_exists: Seq<bool>,
    installed_at: String,
    r: Result<InstallPlan, SkillpackError>,
    s1: StateFile,
    stale: String,
)
    requires
        install_result(s0, resolved, sink, sink_path, dest_exists, installed_at, r, s1),
        has_record(s0.installs@, sink_path, resolved.pack.name@),
        prior_paths(s0.installs@, sink_path, resolved.pack.name@) == seq![stale],
        !is_dest_of_some(stale@, resolved.final_skills@, sink_path, resolved.pack.install_prefix@, resolved.pack.install_sep@),
        within(sink_path, stale@),
        dest_exists.len() == resolved.final_skills@.len(),
        forall|i: int| 0 <= i < dest_exists.len() ==> !#[trigger] dest_exists[i],
        forall|i: int| 0 <= i < resolved.final_skills@.len() ==> within(sink_path, #[trigger] dest_of(sink_path, resolved, i)),
    ensures
        r is Ok,
        string_views(r->Ok_0.remove@) == seq![stale@],
        forall|i: int| 0 <= i < resolved.final_skills@.len() ==> (#[trigger] r->Ok_0.copies@[i]).dest@ == dest_of(sink_path, resolved, i),
        s1.installs@ == s0.installs@.update(
            first_index(s0.installs@, sink_path, resolved.pack.name@),
            s1.installs@[r->Ok_0.record_index as int],
        ),
{
    let old = seq![stale];
    assert(old[0] == stale);
    assert forall|i: int| 0 <= i < resolved.final_skills@.len() implies !#[trigger] unowned_existing(
        s0.installs@,
        resolved,
        sink_path,
        dest_exists,
        i,
    ) by {
        assert(!dest_exists[i]);
    }
    assert(install_allowed(s0.installs@, resolved, sink_path, dest_exists));
    assert(old.drop_last() =~= Seq::<String>::empty());
    assert(old.last() == stale);
    assert(stale_spec(Seq::<String>::empty(), resolved.final_skills@, sink_path, resolved.pack.install_prefix@, resolved.pack.install_sep@)
        == Seq::<Seq<char>>::empty());
    assert(stale_spec(old, resolved.final_skills@, sink_path, resolved.pack.install_prefix@, resolved.pack.install_sep@)
        =~= seq![stale@]);
}

/// A local include pattern that matches none of the local skills fails the
/// resolution, naming that pattern.
pub proof fn law_unmatched_include_is_reported(
    pack: Pack,
    pack_file: String,
    local: Seq<Skill>,
    fetched: Seq<crate::resolve::FetchedImport>,
    r: Result<ResolvedPack, SkillpackError>,
)
    requires
        resolution_result(pack, pack_file, local, fetched, r),
        pack.includes@.len() == 1,
        valid_pattern(pack.includes@[0]@),
        forall|i: int| 0 <= i < local.len() ==> !pattern_matches(pack.includes@[0]@, #[trigger] local[i].id@),
    ensures
        r matches Err(e) && e matches SkillpackError::PatternMatchedNothing { label, pattern } && label@
            == "local include"@ && pattern == pack.includes@[0],
{
    let ps = string_views(pack.includes@);
    assert(ps[0] == pack.includes@[0]@);
    lemma_count_zero(ps[0], keys_of(local), local);
    assert(!includes_ok(ps, keys_of(local)));
}

proof fn lemma_count_zero(p: Seq<char>, ids: Seq<Seq<char>>, local: Seq<Skill>)
    requires
        ids == keys_of(local),
        forall|i: int| 0 <= i < local.len() ==> !pattern_matches(p, #[trigger] local[i].id@),
    ensures
        crate::patterns::count_matching(p, ids) == 0,
    decreases local.len(),
{
    if local.len() > 0 {
        let init = local.drop_last();
        assert(keys_of(init) =~= ids.drop_last());
        assert forall|i: int| 0 <= i < init.len() implies !pattern_matches(p, #[trigger] init[i].id@) by {
            assert(init[i] == local[i]);
        }
        lemma_count_zero(p, keys_of(init), init);
        assert(ids.last() == local.last().id@);
    }
}

/// No two entries are equal.
pub open spec fn all_different<A>(s: Seq<A>) -> bool {
    forall|i: int, j: int| 0 <= i < j < s.len() ==> #[trigger] s[i] != #[trigger] s[j]
}

proof fn lemma_count_one<A>(s: Seq<A>, x: int)
    requires
        0 <= x < s.len(),
        all_different(s),
    ensures
        s.to_multiset().count(s[x]) == 1,
    decreases s.len(),
{
    s.to_multiset_ensures();
    let init = s.drop_last();
    init.to_multiset_ensures();
    assert(init.push(s.last()) =~= s);
    if x == s.len() - 1 {
        if init.contains(s[x]) {
            let k = choose|k: int| 0 <= k < init.len() && init[k] == s[x];
            assert(s[k] == init[k]);
        }
        assert(init.to_multiset().count(s[x]) == 0);
    } else {
        assert forall|a: int, b: int| 0 <= a < b < init.len() implies #[trigger] init[a] != #[trigger] init[b] by {
            assert(init[a] == s[a] && init[b] == s[b]);
        }
        assert(init[x] == s[x]);
        lemma_count_one(init, x);
        assert(s.last() != s[x]);
    }
}

proof fn lemma_all_different_kept<A>(a: Seq<A>, b: Seq<A>)
    requires
        a.to_multiset() == b.to_multiset(),
        all_different(a),
    ensures
        all_different(b),
{
    a.to_multiset_ensures();
    b.to_multiset_ensures();
    assert forall|x: int, y: int| 0 <= x < y < b.len() implies #[trigger] b[x] != #[trigger] b[y] by {
        if b[x] == b[y] {
            crate::sort::lemma_count_two(b, x, y);
            assert(b.contains(b[x]));
            assert(a.to_multiset().count(b[x]) > 0);
            let i = choose|i: int| 0 <= i < a.len() && a[i] == b[x];
            lemma_count_one(a, i);
        }
    }
}

proof fn lemma_join_spec_injective(base: Seq<char>, n1: Seq<char>, n2: Seq<char>)
    requires
        n1.len() > 0 && n1[0] != '/',
        n2.len() > 0 && n2[0] != '/',
        crate::util::join_spec(base, n1) == crate::util::join_spec(base, n2),
    ensures
        n1 == n2,
{
    let j1 = crate::util::join_spec(base, n1);
    if base.len() == 0 {
    } else if base.last() == '/' {
        assert(n1 =~= j1.subrange(base.len() as int, j1.len() as int));
        assert(n2 =~= j1.subrange(base.len() as int, j1.len() as int));
    } else {
        assert(n1 =~= j1.subrange(base.len() as int + 1, j1.len() as int));
        assert(n2 =~= j1.subrange(base.len() as int + 1, j1.len() as int));
    }
}

proof fn lemma_count_all(s: Seq<String>, other: Seq<String>)
    requires
        all_different(string_views(s)),
        forall|k: int| 0 <= k < s.len() ==> lists(other, #[trigger] s[k]@),
    ensures
        count_distinct(s, other, true) == s.len(),
    decreases s.len(),
{
    if s.len() > 0 {
        let init = s.drop_last();
        assert forall|a: int, b: int| 0 <= a < b < string_views(init).len() implies #[trigger] string_views(init)[a]
            != #[trigger] string_views(init)[b] by {
            assert(string_views(s)[a] != string_views(s)[b]);
        }
        assert forall|k: int| 0 <= k < init.len() implies lists(other, #[trigger] init[k]@) by {
            assert(init[k] == s[k]);
        }
        lemma_count_all(init, other);
        if lists(init, s.last()@) {
            let k = choose|k: int| 0 <= k < init.len() && #[trigger] init[k]@ == s.last()@;
            assert(string_views(s)[k] == string_views(s)[s.len() - 1]);
        }
        assert(lists(other, s[s.len() - 1]@));
    }
}

/// Reinstalling a pack whose skills have distinct folder names, under a
/// prefix that does not start with `/`, counts every recorded path as
/// updated.
pub proof fn law_reinstall_updates_every_path(
    s0: StateFile,
    resolved: ResolvedPack,
    sink: Seq<char>,
    sink_path: Seq<char>,
    exists1: Seq<bool>,
    at1: String,
    r1: Result<InstallPlan, SkillpackError>,
    s1: StateFile,
    exists2: Seq<bool>,
    at2: String,
    r2: Result<InstallPlan, SkillpackError>,
    s2: StateFile,
)
    requires
        install_result(s0, resolved, sink, sink_path, exists1, at1, r1, s1),
        install_result(s1, resolved, sink, sink_path, exists2, at2, r2, s2),
        r1 is Ok,
        exists2.len() == resolved.final_skills@.len(),
        crate::install::names_distinct(resolved.final_skills@, resolved.pack.install_prefix@, resolved.pack.install_sep@),
        resolved.pack.install_prefix@.len() > 0,
        resolved.pack.install_prefix@[0] != '/',
    ensures
        r2 is Ok,
        ({
            let first = s1.installs@[r1->Ok_0.record_index as int].installed_paths@;
            let second = s2.installs@[r2->Ok_0.record_index as int].installed_paths@;
            count_distinct(second, first, true) == second.len()
        }),
{
    law_reinstall_is_idempotent(s0, resolved, sink, sink_path, exists1, at1, r1, s1, exists2, at2, r2, s2);
    let prefix = resolved.pack.install_prefix@;
    let sep = resolved.pack.install_sep@;
    let skills = resolved.final_skills@;
    let first = s1.installs@[r1->Ok_0.record_index as int].installed_paths@;
    let second = s2.installs@[r2->Ok_0.record_index as int].installed_paths@;
    let dests = crate::install::dests_of(skills, sink_path, prefix, sep);
    assert forall|i: int, j: int| 0 <= i < j < dests.len() implies #[trigger] dests[i] != #[trigger] dests[j] by {
        let ni = crate::install::install_name_spec(prefix, sep, skills[i].id@);
        let nj = crate::install::install_name_spec(prefix, sep, skills[j].id@);
        assert(ni[0] == prefix[0] && nj[0] == prefix[0]);
        if dests[i] == dests[j] {
            lemma_join_spec_injective(sink_path, ni, nj);
        }
    }
    assert(are_dests(second, skills, sink_path, prefix, sep));
    lemma_all_different_kept(dests, string_views(second));
    assert forall|k: int| 0 <= k < second.len() implies lists(first, #[trigger] second[k]@) by {
        assert(lists(second, second[k]@));
    }
    lemma_count_all(second, first);
}

} // verus!
