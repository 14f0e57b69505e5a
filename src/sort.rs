//! Lexicographic order on text, and a stable sort by a text key.
use vstd::prelude::*;
use vstd::multiset::Multiset;
use vstd::seq_lib::{to_multiset_insert, to_multiset_remove};
use crate::text::chars_of;

verus! {

/// `a` comes no later than `b` in lexicographic order of code points, the
/// order in which Rust compares strings.
pub open spec fn lex_le(a: Seq<char>, b: Seq<char>) -> bool
    decreases a.len(),
{
    if a.len() == 0 {
        true
    } else if b.len() == 0 {
        false
    } else if (a[0] as u32) != (b[0] as u32) {
        (a[0] as u32) < (b[0] as u32)
    } else {
        lex_le(a.drop_first(), b.drop_first())
    }
}

pub proof fn lemma_lex_total(a: Seq<char>, b: Seq<char>)
    ensures
        lex_le(a, b) || lex_le(b, a),
    decreases a.len(),
{
    if a.len() > 0 && b.len() > 0 && (a[0] as u32) == (b[0] as u32) {
        lemma_lex_total(a.drop_first(), b.drop_first());
    }
}

pub proof fn lemma_lex_trans(a: Seq<char>, b: Seq<char>, c: Seq<char>)
    requires
        lex_le(a, b),
        lex_le(b, c),
    ensures
        lex_le(a, c),
    decreases a.len(),
{
    if a.len() > 0 && b.len() > 0 && c.len() > 0 && (a[0] as u32) == (b[0] as u32) && (b[0] as u32) == (c[0] as u32) {
        lemma_lex_trans(a.drop_first(), b.drop_first(), c.drop_first());
    }
}

/// Whether `a` comes no later than `b`.
pub fn text_le(a: &str, b: &str) -> (r: bool)
    ensures
        r == lex_le(a@, b@),
{
    let ac = chars_of(a);
    let bc = chars_of(b);
    let mut i: usize = 0;
    assert(a@.subrange(0, a@.len() as int) =~= a@);
    assert(b@.subrange(0, b@.len() as int) =~= b@);
    while i < ac.len() && i < bc.len() && (ac[i] as u32) == (bc[i] as u32)
        invariant
            i <= ac@.len(),
            i <= bc@.len(),
            ac@ == a@,
            bc@ == b@,
            lex_le(a@, b@) == lex_le(a@.subrange(i as int, a@.len() as int), b@.subrange(i as int, b@.len() as int)),
        decreases ac.len() - i,
    {
        let ghost sa = a@.subrange(i as int, a@.len() as int);
        let ghost sb = b@.subrange(i as int, b@.len() as int);
        assert(sa.drop_first() =~= a@.subrange(i + 1, a@.len() as int));
        assert(sb.drop_first() =~= b@.subrange(i + 1, b@.len() as int));
        i += 1;
    }
    if i == ac.len() {
        true
    } else if i == bc.len() {
        false
    } else {
        (ac[i] as u32) < (bc[i] as u32)
    }
}

/// A value ordered by a text key.
pub trait Keyed: Sized {
    spec fn key(&self) -> Seq<char>;

    fn key_text(&self) -> (r: &str)
        ensures
            r@ == self.key(),
    ;

    /// An equal copy.
    fn duplicate(&self) -> (r: Self)
        ensures
            r == *self,
    ;
}

impl Keyed for String {
    open spec fn key(&self) -> Seq<char> {
        self@
    }

    fn key_text(&self) -> (r: &str) {
        self.as_str()
    }

    fn duplicate(&self) -> (r: Self) {
        self.clone()
    }
}

/// The keys of `s` never decrease.
pub open spec fn sorted_by_key<T: Keyed>(s: Seq<T>) -> bool {
    forall|i: int, j: int| 0 <= i < j < s.len() ==> lex_le(#[trigger] s[i].key(), #[trigger] s[j].key())
}

/// The items of `v` ordered by key.
pub fn sort_by_key<T: Keyed>(v: Vec<T>) -> (r: Vec<T>)
    ensures
        sorted_by_key(r@),
        r@.to_multiset() == v@.to_multiset(),
        r@.len() == v@.len(),
{
    broadcast use to_multiset_insert, to_multiset_remove, vstd::seq_lib::group_to_multiset_ensures,
        vstd::multiset::group_multiset_axioms, vstd::multiset::lemma_multiset_empty_len;
    let mut rest = v;
    let mut out: Vec<T> = Vec::new();
    proof {
        assert(out@.to_multiset() =~= Multiset::empty());
    }
    while rest.len() > 0
        invariant
            sorted_by_key(out@),
            out@.to_multiset().add(rest@.to_multiset()) == v@.to_multiset(),
            out@.len() + rest@.len() == v@.len(),
        decreases rest.len(),
    {
        let ghost before = rest@;
        let x = rest.remove(0);
        proof {
            assert(rest@ == before.remove(0));
            to_multiset_remove(before, 0);
            before.to_multiset_ensures();
            assert(rest@.to_multiset() == before.to_multiset().remove(x));
            assert(before.contains(x));
            assert(before.to_multiset().count(x) > 0);
            assert(before.to_multiset() =~= rest@.to_multiset().insert(x));
        }
        let mut p: usize = 0;
        while p < out.len() && text_le(out[p].key_text(), x.key_text())
            invariant
                p <= out@.len(),
                forall|k: int| 0 <= k < p ==> lex_le(#[trigger] out@[k].key(), x.key()),
            decreases out.len() - p,
        {
            p += 1;
        }
        let ghost old_out = out@;
        proof {
            if p < old_out.len() {
                lemma_lex_total(old_out[p as int].key(), x.key());
                assert forall|m: int| p <= m < old_out.len() implies lex_le(x.key(), #[trigger] old_out[m].key()) by {
                    if m > p {
                        lemma_lex_trans(x.key(), old_out[p as int].key(), old_out[m].key());
                    }
                }
            }
        }
        out.insert(p, x);
        proof {
            let s = out@;
            to_multiset_insert(old_out, p as int, x);
            assert(s.to_multiset() == old_out.to_multiset().insert(x));
            assert(s.to_multiset().add(rest@.to_multiset()) =~= old_out.to_multiset().add(before.to_multiset()));
            assert(s =~= old_out.insert(p as int, x));
            assert forall|i: int, j: int| 0 <= i < j < s.len() implies lex_le(#[trigger] s[i].key(), #[trigger] s[j].key()) by {
                if i < p && j == p {
                } else if i < p && j > p {
                    assert(s[j] == old_out[j - 1]);
                    if (j - 1) >= p {
                        lemma_lex_trans(s[i].key(), x.key(), s[j].key());
                    }
                } else if i == p {
                    assert(s[j] == old_out[j - 1]);
                } else if i < p {
                } else {
                    assert(s[i] == old_out[i - 1]);
                    assert(s[j] == old_out[j - 1]);
                }
            }
        }
    }
    proof {
        assert(rest@.to_multiset() =~= Multiset::empty());
        assert(out@.to_multiset().add(Multiset::empty()) =~= out@.to_multiset());
    }
    out
}

/// Sequences with the same items keep the same items under any map.
pub proof fn lemma_map_multiset<A, B>(a: Seq<A>, b: Seq<A>, f: spec_fn(A) -> B)
    requires
        a.to_multiset() == b.to_multiset(),
    ensures
        a.map_values(f).to_multiset() == b.map_values(f).to_multiset(),
    decreases a.len(),
{
    broadcast use vstd::multiset::group_multiset_axioms;

    a.to_multiset_ensures();
    b.to_multiset_ensures();
    if a.len() == 0 {
        assert(b.len() == 0);
        assert(a.map_values(f) =~= Seq::<B>::empty());
        assert(b.map_values(f) =~= Seq::<B>::empty());
    } else {
        let x = a.last();
        let a1 = a.drop_last();
        assert(a1.push(x) =~= a);
        a1.to_multiset_ensures();
        assert(a.to_multiset() =~= a1.to_multiset().insert(x));
        assert(a.contains(x));
        assert(b.to_multiset().count(x) > 0);
        assert(b.contains(x));
        let j = choose|j: int| 0 <= j < b.len() && b[j] == x;
        let b1 = b.remove(j);
        to_multiset_remove(b, j);
        assert(a1.to_multiset() =~= b1.to_multiset());
        lemma_map_multiset(a1, b1, f);
        let fa = a.map_values(f);
        let fb = b.map_values(f);
        assert(fa =~= a1.map_values(f).push(f(x)));
        a1.map_values(f).to_multiset_ensures();
        assert(fb.remove(j) =~= b1.map_values(f));
        to_multiset_remove(fb, j);
        fb.to_multiset_ensures();
        assert(fb.contains(f(x)));
        assert(fb.to_multiset().count(f(x)) > 0);
        assert(fb.to_multiset() =~= b1.map_values(f).to_multiset().insert(f(x)));
    }
}

proof fn lemma_char_code(c: char, d: char)
    requires
        (c as u32) == (d as u32),
    ensures
        c == d,
{
}

pub proof fn lemma_lex_antisym(a: Seq<char>, b: Seq<char>)
    requires
        lex_le(a, b),
        lex_le(b, a),
    ensures
        a == b,
    decreases a.len(),
{
    if a.len() > 0 && b.len() > 0 {
        assert((a[0] as u32) == (b[0] as u32));
        lemma_char_code(a[0], b[0]);
        lemma_lex_antisym(a.drop_first(), b.drop_first());
        assert(a[0] == b[0]);
        assert(a =~= seq![a[0]] + a.drop_first());
        assert(b =~= seq![b[0]] + b.drop_first());
    } else {
        assert(a =~= b);
    }
}

/// Texts in lexicographic order.
pub open spec fn lex_sorted(s: Seq<Seq<char>>) -> bool {
    forall|i: int, j: int| 0 <= i < j < s.len() ==> lex_le(#[trigger] s[i], #[trigger] s[j])
}

/// Two sorted sequences of the same texts are the same sequence.
pub proof fn lemma_sorted_unique(a: Seq<Seq<char>>, b: Seq<Seq<char>>)
    requires
        lex_sorted(a),
        lex_sorted(b),
        a.to_multiset() == b.to_multiset(),
    ensures
        a == b,
    decreases a.len(),
{
    broadcast use vstd::multiset::group_multiset_axioms;

    a.to_multiset_ensures();
    b.to_multiset_ensures();
    if a.len() == 0 {
        assert(b.len() == 0);
        assert(a =~= b);
    } else {
        assert(b.len() > 0);
        assert(a.contains(a[0]));
        assert(b.to_multiset().count(a[0]) > 0);
        let j = choose|j: int| 0 <= j < b.len() && b[j] == a[0];
        assert(b.contains(b[0]));
        assert(a.to_multiset().count(b[0]) > 0);
        let i = choose|i: int| 0 <= i < a.len() && a[i] == b[0];
        if j > 0 {
            assert(lex_le(b[0], b[j]));
        } else {
            lemma_lex_total(b[0], a[0]);
        }
        if i > 0 {
            assert(lex_le(a[0], a[i]));
        }
        lemma_lex_antisym(a[0], b[0]);
        to_multiset_remove(a, 0);
        to_multiset_remove(b, 0);
        assert(a.remove(0) =~= a.drop_first());
        assert(b.remove(0) =~= b.drop_first());
        assert forall|x: int, y: int| 0 <= x < y < a.drop_first().len() implies lex_le(
            #[trigger] a.drop_first()[x],
            #[trigger] a.drop_first()[y],
        ) by {
            assert(a.drop_first()[x] == a[x + 1] && a.drop_first()[y] == a[y + 1]);
        }
        assert forall|x: int, y: int| 0 <= x < y < b.drop_first().len() implies lex_le(
            #[trigger] b.drop_first()[x],
            #[trigger] b.drop_first()[y],
        ) by {
            assert(b.drop_first()[x] == b[x + 1] && b.drop_first()[y] == b[y + 1]);
        }
        lemma_sorted_unique(a.drop_first(), b.drop_first());
        assert(a =~= seq![a[0]] + a.drop_first());
        assert(b =~= seq![b[0]] + b.drop_first());
    }
}

/// No two items have the same key.
pub open spec fn distinct_keys<T: Keyed>(s: Seq<T>) -> bool {
    forall|i: int, j: int| 0 <= i < j < s.len() ==> (#[trigger] s[i]).key() != (#[trigger] s[j]).key()
}

/// Where keys are distinct, each item occurs once.
pub proof fn lemma_distinct_count<T: Keyed>(s: Seq<T>, x: int)
    requires
        0 <= x < s.len(),
        distinct_keys(s),
    ensures
        s.to_multiset().count(s[x]) == 1,
    decreases s.len(),
{
    s.to_multiset_ensures();
    let init = s.drop_last();
    init.to_multiset_ensures();
    assert(init.push(s.last()) =~= s);
    if x == s.len() - 1 {
        if init.contains(s[x]) {
            let k = choose|k: int| 0 <= k < init.len() && init[k] == s[x];
            assert(s[k] == init[k]);
        }
        assert(init.to_multiset().count(s[x]) == 0);
    } else {
        assert forall|a: int, b: int| 0 <= a < b < init.len() implies (#[trigger] init[a]).key() != (#[trigger] init[b]).key() by {
            assert(init[a] == s[a] && init[b] == s[b]);
        }
        assert(init[x] == s[x]);
        lemma_distinct_count(init, x);
        assert(s.last().key() != s[x].key());
    }
}

/// An item at two positions occurs at least twice.
pub proof fn lemma_count_two<T>(s: Seq<T>, a: int, b: int)
    requires
        0 <= a < b < s.len(),
        s[a] == s[b],
    ensures
        s.to_multiset().count(s[a]) >= 2,
{
    broadcast use vstd::multiset::group_multiset_axioms;

    to_multiset_remove(s, b);
    let t = s.remove(b);
    t.to_multiset_ensures();
    assert(t[a] == s[a]);
    assert(t.contains(s[a]));
    assert(t.to_multiset().count(s[a]) > 0);
    s.to_multiset_ensures();
    assert(s.to_multiset().count(s[b]) > 0);
    assert(t.to_multiset() == s.to_multiset().remove(s[b]));
}

/// Sequences with the same items: where one has distinct keys, so does the
/// other.
pub proof fn lemma_distinct_keys_kept<T: Keyed>(a: Seq<T>, b: Seq<T>)
    requires
        a.to_multiset() == b.to_multiset(),
        distinct_keys(a),
    ensures
        distinct_keys(b),
{
    a.to_multiset_ensures();
    b.to_multiset_ensures();
    assert forall|x: int, y: int| 0 <= x < y < b.len() implies (#[trigger] b[x]).key() != (#[trigger] b[y]).key() by {
        if b[x].key() == b[y].key() {
            assert(b.contains(b[x]));
            assert(b.contains(b[y]));
            assert(a.to_multiset().count(b[x]) > 0);
            assert(a.to_multiset().count(b[y]) > 0);
            let i = choose|i: int| 0 <= i < a.len() && a[i] == b[x];
            let j = choose|j: int| 0 <= j < a.len() && a[j] == b[y];
            if i < j {
                assert(a[i].key() != a[j].key());
            } else if j < i {
                assert(a[j].key() != a[i].key());
            } else {
                lemma_count_two(b, x, y);
                lemma_distinct_count(a, i);
            }
        }
    }
}

} // verus!
