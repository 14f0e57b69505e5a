//! Identifier and path helpers: flattening, joining, containment.
use vstd::prelude::*;
use vstd::string::StringExecFns;
use crate::errors::SkillpackError;
use crate::text::{chars_of, split_chars, split_spec, string_of, views};
pub use crate::install::install_name;

verus! {

/// `s` begins with `pre`.
pub open spec fn has_prefix(s: Seq<char>, pre: Seq<char>) -> bool {
    pre.len() <= s.len() && s.subrange(0, pre.len() as int) == pre
}

/// `s` ends with `suf`.
pub open spec fn has_suffix(s: Seq<char>, suf: Seq<char>) -> bool {
    suf.len() <= s.len() && s.subrange(s.len() - suf.len(), s.len() as int) == suf
}

/// `id` with each `/` replaced by `sep`.
pub open spec fn flatten_spec(id: Seq<char>, sep: Seq<char>) -> Seq<char>
    decreases id.len(),
{
    if id.len() == 0 {
        Seq::empty()
    } else {
        flatten_spec(id.drop_last(), sep) + if id.last() == '/' {
            sep
        } else {
            seq![id.last()]
        }
    }
}

/// The segments joined with `/` between them.
pub open spec fn join_slash(parts: Seq<Seq<char>>) -> Seq<char>
    decreases parts.len(),
{
    if parts.len() == 0 {
        Seq::empty()
    } else if parts.len() == 1 {
        parts[0]
    } else {
        join_slash(parts.drop_last()) + seq!['/'] + parts.last()
    }
}

/// `name` placed under the directory `base`, as path joining does: an
/// absolute `name` stands alone, and no separator is doubled.
pub open spec fn join_spec(base: Seq<char>, name: Seq<char>) -> Seq<char> {
    if base.len() == 0 || (name.len() > 0 && name[0] == '/') {
        name
    } else if base.last() == '/' {
        base + name
    } else {
        base + seq!['/'] + name
    }
}

/// Segment `k` of a split path is a component: not empty, and not `.`
/// unless it is the leading segment (of a relative path), as
/// `Path::components` keeps it only there.
pub open spec fn kept_part(ss: Seq<Seq<char>>, k: int) -> bool {
    ss[k].len() > 0 && (ss[k] != seq!['.'] || k == 0)
}

/// The components among the segments of a `/`-separated path, in order.
pub open spec fn nonempty_parts(ss: Seq<Seq<char>>) -> Seq<Seq<char>>
    decreases ss.len(),
{
    if ss.len() == 0 {
        Seq::empty()
    } else if !kept_part(ss, ss.len() - 1) {
        nonempty_parts(ss.drop_last())
    } else {
        nonempty_parts(ss.drop_last()).push(ss.last())
    }
}

pub open spec fn components(p: Seq<char>) -> Seq<Seq<char>> {
    nonempty_parts(split_spec(p, '/'))
}

pub open spec fn is_absolute(p: Seq<char>) -> bool {
    p.len() > 0 && p[0] == '/'
}

/// `candidate` lies within `root`: both absolute or both relative, the
/// components of `root` are the first components of `candidate`, and no
/// later component is `..`.
pub open spec fn within(root: Seq<char>, candidate: Seq<char>) -> bool {
    &&& is_absolute(root) == is_absolute(candidate)
    &&& components(root).len() <= components(candidate).len()
    &&& components(candidate).subrange(0, components(root).len() as int) == components(root)
    &&& forall|k: int|
        components(root).len() <= k < components(candidate).len() ==> !is_parent_part(
            #[trigger] components(candidate)[k],
        )
}

/// A `..` path component, which leads a path back out of the directory it
/// seems to lie in.
pub open spec fn is_parent_part(part: Seq<char>) -> bool {
    part == seq!['.', '.']
}

/// Whether `s` begins with `pre`.
pub fn starts_with(s: &str, pre: &str) -> (r: bool)
    ensures
        r == has_prefix(s@, pre@),
{
    let sc = chars_of(s);
    let pc = chars_of(pre);
    if pc.len() > sc.len() {
        return false;
    }
    let mut i: usize = 0;
    while i < pc.len()
        invariant
            pc@.len() <= sc@.len(),
            sc@ == s@,
            pc@ == pre@,
            i <= pc@.len(),
            forall|k: int| 0 <= k < i ==> sc@[k] == pc@[k],
        decreases pc.len() - i,
    {
        if sc[i] != pc[i] {
            assert(sc@.subrange(0, pc@.len() as int)[i as int] != pc@[i as int]);
            return false;
        }
        i += 1;
    }
    assert(sc@.subrange(0, pc@.len() as int) =~= pc@);
    true
}

/// `id` with each `/` replaced by `sep`, giving one flat name.
pub fn flatten_id(id: &str, sep: &str) -> (r: String)
    ensures
        r@ == flatten_spec(id@, sep@),
{
    let ic = chars_of(id);
    let mut r = String::new();
    let mut i: usize = 0;
    while i < ic.len()
        invariant
            i <= ic@.len(),
            ic@ == id@,
            r@ == flatten_spec(ic@.subrange(0, i as int), sep@),
        decreases ic.len() - i,
    {
        let c = ic[i];
        assert(ic@.subrange(0, i + 1).drop_last() =~= ic@.subrange(0, i as int));
        if c == '/' {
            r.append(sep);
        } else {
            r.push(c);
        }
        assert(r@ =~= flatten_spec(ic@.subrange(0, i + 1), sep@));
        i += 1;
    }
    assert(ic@.subrange(0, ic@.len() as int) =~= id@);
    r
}

/// The segments of a relative path joined with `/`: a skill identifier.
pub fn path_to_id(parts: &Vec<String>) -> (r: String)
    ensures
        r@ == join_slash(crate::text::string_views(parts@)),
{
    let ghost pv = crate::text::string_views(parts@);
    let mut r = String::new();
    let mut i: usize = 0;
    while i < parts.len()
        invariant
            i <= parts@.len(),
            pv == crate::text::string_views(parts@),
            r@ == join_slash(pv.subrange(0, i as int)),
        decreases parts.len() - i,
    {
        assert(pv.subrange(0, i + 1).drop_last() =~= pv.subrange(0, i as int));
        if i > 0 {
            r.push('/');
        }
        r.append(parts[i].as_str());
        assert(r@ =~= join_slash(pv.subrange(0, i + 1)));
        i += 1;
    }
    assert(pv.subrange(0, parts@.len() as int) =~= pv);
    r
}

/// `name` placed under the directory `base`.
pub fn join_path(base: &str, name: &str) -> (r: String)
    ensures
        r@ == join_spec(base@, name@),
{
    let bc = chars_of(base);
    let nc = chars_of(name);
    if bc.len() == 0 || (nc.len() > 0 && nc[0] == '/') {
        return String::from_str(name);
    }
    let mut r = String::from_str(base);
    if bc[bc.len() - 1] != '/' {
        r.push('/');
    }
    r.append(name);
    r
}

fn path_components(p: &str) -> (r: Vec<Vec<char>>)
    ensures
        views(r@) == components(p@),
{
    let pc = chars_of(p);
    let segs = split_chars(&pc, '/');
    let ghost sv = views(segs@);
    let mut out: Vec<Vec<char>> = Vec::new();
    let mut i: usize = 0;
    while i < segs.len()
        invariant
            i <= segs@.len(),
            sv == views(segs@),
            sv == split_spec(p@, '/'),
            views(out@) == nonempty_parts(sv.subrange(0, i as int)),
        decreases segs.len() - i,
    {
        assert(sv.subrange(0, i + 1).drop_last() =~= sv.subrange(0, i as int));
        assert(sv[i as int] == segs@[i as int]@);
        let seg = &segs[i];
        let dot = seg.len() == 1 && seg[0] == '.';
        assert(dot == (seg@ == seq!['.'])) by {
            if seg@ == seq!['.'] {
                assert(seg@[0] == '.');
            }
            if dot {
                assert(seg@ =~= seq!['.']);
            }
        }
        if seg.len() > 0 && (!dot || i == 0) {
            out.push(seg.clone());
        }
        assert(views(out@) =~= nonempty_parts(sv.subrange(0, i + 1)));
        i += 1;
    }
    assert(sv.subrange(0, segs@.len() as int) =~= sv);
    out
}

fn chars_equal(a: &Vec<char>, b: &Vec<char>) -> (r: bool)
    ensures
        r == (a@ == b@),
{
    if a.len() != b.len() {
        return false;
    }
    let mut i: usize = 0;
    while i < a.len()
        invariant
            a@.len() == b@.len(),
            i <= a@.len(),
            forall|k: int| 0 <= k < i ==> a@[k] == b@[k],
        decreases a.len() - i,
    {
        if a[i] != b[i] {
            return false;
        }
        i += 1;
    }
    assert(a@ =~= b@);
    true
}

/// Whether `candidate` lies within `root`, component by component.
pub fn is_within(root: &str, candidate: &str) -> (r: bool)
    ensures
        r == within(root@, candidate@),
{
    let rc = chars_of(root);
    let cc = chars_of(candidate);
    let root_abs = rc.len() > 0 && rc[0] == '/';
    let cand_abs = cc.len() > 0 && cc[0] == '/';
    if root_abs != cand_abs {
        return false;
    }
    let rp = path_components(root);
    let cp = path_components(candidate);
    let ghost rv = views(rp@);
    let ghost cv = views(cp@);
    if rp.len() > cp.len() {
        return false;
    }
    let mut i: usize = 0;
    while i < rp.len()
        invariant
            rp@.len() <= cp@.len(),
            rv == components(root@),
            cv == components(candidate@),
            is_absolute(root@) == is_absolute(candidate@),
            rv == views(rp@),
            cv == views(cp@),
            i <= rp@.len(),
            forall|k: int| 0 <= k < i ==> cv[k] == rv[k],
        decreases rp.len() - i,
    {
        if !chars_equal(&rp[i], &cp[i]) {
            assert(cv.subrange(0, rv.len() as int)[i as int] != rv[i as int]);
            return false;
        }
        i += 1;
    }
    assert(cv.subrange(0, rv.len() as int) =~= rv);
    let mut k: usize = rp.len();
    while k < cp.len()
        invariant
            rp@.len() <= k <= cp@.len(),
            rv == components(root@),
            cv == components(candidate@),
            rv == views(rp@),
            cv == views(cp@),
            forall|m: int| rv.len() <= m < k ==> !is_parent_part(#[trigger] cv[m]),
        decreases cp.len() - k,
    {
        let part = &cp[k];
        assert(cv[k as int] == part@);
        if part.len() == 2 && part[0] == '.' && part[1] == '.' {
            assert(part@ =~= seq!['.', '.']);
            return false;
        }
        k += 1;
    }
    true
}

/// Fails with `OutsideSink` unless `candidate` lies within `root`.
pub fn ensure_child_path(root: &str, candidate: &str) -> (r: Result<(), SkillpackError>)
    ensures
        r is Ok <==> within(root@, candidate@),
        r matches Err(e) ==> e matches SkillpackError::OutsideSink { path } && path@ == candidate@,
{
    if is_within(root, candidate) {
        Ok(())
    } else {
        Err(SkillpackError::OutsideSink { path: String::from_str(candidate) })
    }
}

/// A path rebuilt from its components: absolute paths start with `/`.
pub open spec fn rebuild(abs: bool, parts: Seq<Seq<char>>) -> Seq<char> {
    if abs {
        seq!['/'] + join_slash(parts)
    } else {
        join_slash(parts)
    }
}

/// The `k`-th ancestor of `p`: `p` itself first, then each parent in turn,
/// up to the root (or the empty path, for a relative one).
pub open spec fn ancestor_spec(p: Seq<char>, k: int) -> Seq<char> {
    rebuild(is_absolute(p), components(p).subrange(0, components(p).len() - k))
}

fn rebuild_path(abs: bool, parts: &Vec<Vec<char>>, n: usize) -> (r: String)
    requires
        n <= parts@.len(),
    ensures
        r@ == rebuild(abs, views(parts@).subrange(0, n as int)),
{
    let ghost pv = views(parts@);
    let mut r = String::new();
    if abs {
        r.push('/');
    }
    let ghost head: Seq<char> = if abs { seq!['/'] } else { Seq::empty() };
    assert(r@ == head + join_slash(pv.subrange(0, 0)));
    let mut i: usize = 0;
    while i < n
        invariant
            n <= parts@.len(),
            i <= n,
            pv == views(parts@),
            head == (if abs { seq!['/'] } else { Seq::<char>::empty() }),
            r@ == head + join_slash(pv.subrange(0, i as int)),
        decreases n - i,
    {
        assert(pv.subrange(0, i + 1).drop_last() =~= pv.subrange(0, i as int));
        assert(pv[i as int] == parts@[i as int]@);
        if i > 0 {
            r.push('/');
        }
        let part = string_of(&parts[i]);
        r.append(part.as_str());
        assert(r@ =~= head + join_slash(pv.subrange(0, i + 1)));
        i += 1;
    }
    assert(r@ =~= rebuild(abs, pv.subrange(0, n as int)));
    r
}

/// `start` and each of its ancestors, nearest first.
pub fn ancestors(start: &str) -> (r: Vec<String>)
    ensures
        r@.len() == components(start@).len() + 1,
        forall|k: int| 0 <= k < r@.len() ==> (#[trigger] r@[k])@ == ancestor_spec(start@, k),
{
    let sc = chars_of(start);
    let abs = sc.len() > 0 && sc[0] == '/';
    let parts = path_components(start);
    let n = parts.len();
    let mut r: Vec<String> = Vec::new();
    let mut k: usize = 0;
    while k < n
        invariant
            k <= n,
            n == parts@.len(),
            views(parts@) == components(start@),
            abs == is_absolute(start@),
            r@.len() == k,
            forall|m: int| 0 <= m < k ==> (#[trigger] r@[m])@ == ancestor_spec(start@, m),
        decreases n - k,
    {
        r.push(rebuild_path(abs, &parts, n - k));
        k += 1;
    }
    r.push(rebuild_path(abs, &parts, 0));
    r
}

/// The first of `start` and its ancestors that `is_root` marks, nearest
/// first; `is_root[k]` tells whether the `k`-th ancestor is a repository
/// root.
pub fn discover_repo_root(start: &str, is_root: &Vec<bool>) -> (r: Option<String>)
    requires
        is_root@.len() == components(start@).len() + 1,
    ensures
        r is None <==> forall|k: int| 0 <= k < is_root@.len() ==> !#[trigger] is_root@[k],
        r matches Some(root) ==> exists|k: int|
            0 <= k < is_root@.len() && #[trigger] is_root@[k] && root@ == ancestor_spec(start@, k) && forall|m: int|
                0 <= m < k ==> !#[trigger] is_root@[m],
{
    let all = ancestors(start);
    let mut k: usize = 0;
    while k < all.len()
        invariant
            k <= all@.len(),
            all@.len() == is_root@.len(),
            forall|m: int| 0 <= m < all@.len() ==> (#[trigger] all@[m])@ == ancestor_spec(start@, m),
            forall|m: int| 0 <= m < k ==> !#[trigger] is_root@[m],
        decreases all.len() - k,
    {
        if is_root[k] {
            return Some(all[k].clone());
        }
        k += 1;
    }
    None
}

/// Where a pack named `pack_arg` is looked up under the repository root:
/// `packs/<pack_arg>.yaml`. An argument that already names a YAML file has
/// no such place.
pub fn named_pack_path(repo_root: &str, pack_arg: &str) -> (r: Option<String>)
    ensures
        (has_suffix(pack_arg@, ".yaml"@) || has_suffix(pack_arg@, ".yml"@)) ==> r is None,
        !(has_suffix(pack_arg@, ".yaml"@) || has_suffix(pack_arg@, ".yml"@)) ==> (r matches Some(p) && p@ == join_spec(
            join_spec(repo_root@, "packs"@),
            pack_arg@ + ".yaml"@,
        )),
{
    if ends_with(pack_arg, ".yaml") || ends_with(pack_arg, ".yml") {
        return None;
    }
    let packs = join_path(repo_root, "packs");
    let mut file = String::from_str(pack_arg);
    file.append(".yaml");
    Some(join_path(packs.as_str(), file.as_str()))
}

/// Whether `s` ends with `suf`.
pub fn ends_with(s: &str, suf: &str) -> (r: bool)
    ensures
        r == has_suffix(s@, suf@),
{
    let sc = chars_of(s);
    let fc = chars_of(suf);
    if fc.len() > sc.len() {
        return false;
    }
    let off = sc.len() - fc.len();
    let mut j: usize = off;
    while j < sc.len()
        invariant
            fc@.len() <= sc@.len(),
            off == sc@.len() - fc@.len(),
            sc@ == s@,
            fc@ == suf@,
            off <= j <= sc@.len(),
            forall|k: int| 0 <= k < j - off ==> sc@[off + k] == fc@[k],
        decreases sc.len() - j,
    {
        if sc[j] != fc[j - off] {
            assert(sc@.subrange(off as int, sc@.len() as int)[j - off] != fc@[j - off]);
            return false;
        }
        j += 1;
    }
    assert(sc@.subrange(off as int, sc@.len() as int) =~= fc@);
    true
}

/// `path` with the home directory written `~`: `~` for the home directory
/// itself, `~/rest` below it, and unchanged elsewhere.
pub open spec fn abbreviate_spec(path: Seq<char>, home: Seq<char>) -> Seq<char> {
    if within(home, path) {
        let rest = components(path).subrange(components(home).len() as int, components(path).len() as int);
        if rest.len() == 0 {
            seq!['~']
        } else {
            seq!['~', '/'] + join_slash(rest)
        }
    } else {
        path
    }
}

/// `path` with the home directory abbreviated, when there is one.
pub fn abbreviate_path(path: &str, home: Option<&str>) -> (r: String)
    ensures
        home is None ==> r@ == path@,
        home matches Some(h) ==> r@ == abbreviate_spec(path@, h@),
{
    let h = match home {
        Some(h) => h,
        None => return String::from_str(path),
    };
    if !is_within(h, path) {
        return String::from_str(path);
    }
    let pc = path_components(path);
    let hc = path_components(h);
    let ghost rest = views(pc@).subrange(views(hc@).len() as int, views(pc@).len() as int);
    let mut r = String::new();
    r.push('~');
    if hc.len() == pc.len() {
        assert(rest.len() == 0);
        return r;
    }
    r.push('/');
    let start = hc.len();
    let mut i: usize = start;
    assert(rest.subrange(0, 0) =~= Seq::<Seq<char>>::empty());
    while i < pc.len()
        invariant
            start <= i <= pc@.len(),
            start == hc@.len(),
            rest == views(pc@).subrange(start as int, pc@.len() as int),
            r@ == seq!['~', '/'] + join_slash(rest.subrange(0, i - start)),
        decreases pc.len() - i,
    {
        assert(rest.subrange(0, i - start + 1).drop_last() =~= rest.subrange(0, i - start));
        assert(rest[i - start] == pc@[i as int]@);
        if i > start {
            r.push('/');
        }
        let part = string_of(&pc[i]);
        r.append(part.as_str());
        assert(r@ =~= seq!['~', '/'] + join_slash(rest.subrange(0, i - start + 1)));
        i += 1;
    }
    assert(rest.subrange(0, rest.len() as int) =~= rest);
    r
}

/// Each part is non-empty and holds no `/`, as path components are.
pub open spec fn plain_parts(parts: Seq<Seq<char>>) -> bool {
    &&& forall|k: int| 0 <= k < parts.len() ==> (#[trigger] parts[k]).len() > 0
    &&& forall|k: int, c: int| 0 <= k < parts.len() && 0 <= c < parts[k].len() ==> #[trigger] parts[k][c] != '/'
}

proof fn lemma_join_unfold(a: Seq<Seq<char>>)
    requires
        a.len() >= 2,
    ensures
        join_slash(a) == join_slash(a.drop_last()) + seq!['/'] + a.last(),
        join_slash(a)[join_slash(a.drop_last()).len() as int] == '/',
        join_slash(a).len() == join_slash(a.drop_last()).len() + 1 + a.last().len(),
{
}

proof fn lemma_join_nonempty(a: Seq<Seq<char>>)
    requires
        plain_parts(a),
        a.len() >= 1,
    ensures
        join_slash(a).len() >= 1,
{
    assert(a[a.len() - 1].len() > 0);
    if a.len() >= 2 {
        lemma_join_unfold(a);
    }
}

/// Joining path components with `/` loses nothing: different component
/// sequences give different texts.
pub proof fn lemma_join_injective(a: Seq<Seq<char>>, b: Seq<Seq<char>>)
    requires
        plain_parts(a),
        plain_parts(b),
        join_slash(a) == join_slash(b),
    ensures
        a == b,
    decreases a.len(),
{
    let s = join_slash(a);
    if a.len() == 0 || b.len() == 0 {
        if a.len() > 0 {
            lemma_join_nonempty(a);
        }
        if b.len() > 0 {
            lemma_join_nonempty(b);
        }
        assert(a =~= b);
    } else if a.len() == 1 && b.len() == 1 {
        assert(a =~= b);
    } else if a.len() == 1 {
        lemma_join_unfold(b);
        let q = join_slash(b.drop_last()).len() as int;
        assert(s[q] == '/');
        assert(a[0][q] != '/');
    } else if b.len() == 1 {
        lemma_join_unfold(a);
        let q = join_slash(a.drop_last()).len() as int;
        assert(s[q] == '/');
        assert(b[0][q] != '/');
    } else {
        lemma_join_unfold(a);
        lemma_join_unfold(b);
        let la = a.last();
        let lb = b.last();
        let pa = join_slash(a.drop_last()).len() as int;
        let pb = join_slash(b.drop_last()).len() as int;
        assert(la == a[a.len() - 1] && lb == b[b.len() - 1]);
        if la.len() < lb.len() {
            assert(s[pa] == '/');
            assert(s[pa] == lb[pa - pb - 1]);
            assert(lb[pa - pb - 1] != '/');
        } else if lb.len() < la.len() {
            assert(s[pb] == '/');
            assert(s[pb] == la[pb - pa - 1]);
            assert(la[pb - pa - 1] != '/');
        }
        assert(pa == pb);
        assert(la =~= s.subrange(pa + 1, s.len() as int));
        assert(lb =~= s.subrange(pb + 1, s.len() as int));
        assert(join_slash(a.drop_last()) =~= s.subrange(0, pa));
        assert(join_slash(b.drop_last()) =~= s.subrange(0, pb));
        assert forall|k: int, c: int| 0 <= k < a.drop_last().len() && 0 <= c < a.drop_last()[k].len() implies #[trigger] a.drop_last()[k][c]
            != '/' by {
            assert(a.drop_last()[k] == a[k]);
        }
        assert forall|k: int| 0 <= k < a.drop_last().len() implies (#[trigger] a.drop_last()[k]).len() > 0 by {
            assert(a.drop_last()[k] == a[k]);
        }
        assert forall|k: int, c: int| 0 <= k < b.drop_last().len() && 0 <= c < b.drop_last()[k].len() implies #[trigger] b.drop_last()[k][c]
            != '/' by {
            assert(b.drop_last()[k] == b[k]);
        }
        assert forall|k: int| 0 <= k < b.drop_last().len() implies (#[trigger] b.drop_last()[k]).len() > 0 by {
            assert(b.drop_last()[k] == b[k]);
        }
        lemma_join_injective(a.drop_last(), b.drop_last());
        assert(a =~= a.drop_last().push(la));
        assert(b =~= b.drop_last().push(lb));
    }
}

} // verus!
