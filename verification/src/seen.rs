//! The set of seen advisory IDs, kept as a strictly increasing sequence of
//! strings (code-point lexicographic order, the order of `BTreeSet<String>`).

use vstd::prelude::*;
use crate::text::{from_chars, string_views, to_chars, views};

verus! {

/// Lexicographic order of character sequences by code point.
pub open spec fn str_lt(a: Seq<char>, b: Seq<char>) -> bool
    decreases a.len(),
{
    if a.len() == 0 {
        b.len() > 0
    } else if b.len() == 0 {
        false
    } else if (a[0] as int) < (b[0] as int) {
        true
    } else if a[0] == b[0] {
        str_lt(a.drop_first(), b.drop_first())
    } else {
        false
    }
}

/// Every element is smaller than every later one.
pub open spec fn strictly_sorted(s: Seq<Seq<char>>) -> bool {
    forall|i: int, j: int| 0 <= i < j < s.len() ==> str_lt(#[trigger] s[i], #[trigger] s[j])
}

/// `x` added to the sorted sequence `s` at its place (unchanged if present).
pub open spec fn insert_sorted(s: Seq<Seq<char>>, x: Seq<char>) -> Seq<Seq<char>>
    decreases s.len(),
{
    if s.len() == 0 {
        seq![x]
    } else if str_lt(s[0], x) {
        seq![s[0]] + insert_sorted(s.drop_first(), x)
    } else if s[0] == x {
        s
    } else {
        seq![x] + s
    }
}

/// All of `xs` added, in order, to the sorted sequence `s`.
pub open spec fn union_all(s: Seq<Seq<char>>, xs: Seq<Seq<char>>) -> Seq<Seq<char>>
    decreases xs.len(),
{
    if xs.len() == 0 {
        s
    } else {
        insert_sorted(union_all(s, xs.drop_last()), xs.last())
    }
}

/// The distinct elements of `xs`, sorted.
pub open spec fn sorted_set(xs: Seq<Seq<char>>) -> Seq<Seq<char>> {
    union_all(seq![], xs)
}

/// The order is irreflexive.
pub proof fn lemma_lt_irrefl(a: Seq<char>)
    ensures
        !str_lt(a, a),
    decreases a.len(),
{
    if a.len() > 0 {
        lemma_lt_irrefl(a.drop_first());
    }
}

/// The order is transitive.
pub proof fn lemma_lt_trans(a: Seq<char>, b: Seq<char>, c: Seq<char>)
    requires
        str_lt(a, b),
        str_lt(b, c),
    ensures
        str_lt(a, c),
    decreases a.len(),
{
    if a.len() > 0 && b.len() > 0 && c.len() > 0 && a[0] == b[0] && b[0] == c[0] {
        lemma_lt_trans(a.drop_first(), b.drop_first(), c.drop_first());
    }
}

/// The order is total.
pub proof fn lemma_lt_total(a: Seq<char>, b: Seq<char>)
    ensures
        a == b || str_lt(a, b) || str_lt(b, a),
    decreases a.len(),
{
    if a.len() > 0 && b.len() > 0 && a[0] == b[0] {
        lemma_lt_total(a.drop_first(), b.drop_first());
        if a.drop_first() == b.drop_first() {
            assert(a == seq![a[0]] + a.drop_first());
            assert(b == seq![b[0]] + b.drop_first());
        }
    } else if a.len() == 0 && b.len() == 0 {
        assert(a == b);
    }
}

/// The order is asymmetric.
pub proof fn lemma_lt_asym(a: Seq<char>, b: Seq<char>)
    requires
        str_lt(a, b),
    ensures
        !str_lt(b, a),
{
    if str_lt(b, a) {
        lemma_lt_trans(a, b, a);
        lemma_lt_irrefl(a);
    }
}

/// Inserting into a sorted sequence keeps it sorted and adds exactly `x`.
pub proof fn lemma_insert_sorted(s: Seq<Seq<char>>, x: Seq<char>)
    requires
        strictly_sorted(s),
    ensures
        strictly_sorted(insert_sorted(s, x)),
        forall|y: Seq<char>| #[trigger] insert_sorted(s, x).contains(y) <==> (s.contains(y) || y == x),
        insert_sorted(s, x).len() >= s.len(),
        s.contains(x) ==> insert_sorted(s, x) == s,
        !s.contains(x) ==> insert_sorted(s, x).len() == s.len() + 1,
    decreases s.len(),
{
    let r = insert_sorted(s, x);
    if s.len() == 0 {
        assert(r[0] == x);
        assert(r.contains(x));
    } else if str_lt(s[0], x) {
        let t = s.drop_first();
        assert(strictly_sorted(t)) by {
            assert forall|i: int, j: int| 0 <= i < j < t.len() implies str_lt(#[trigger] t[i], #[trigger] t[j]) by {
                assert(t[i] == s[i + 1] && t[j] == s[j + 1]);
            }
        }
        lemma_insert_sorted(t, x);
        let rt = insert_sorted(t, x);
        assert(r == seq![s[0]] + rt);
        assert forall|y: Seq<char>| #[trigger] r.contains(y) <==> (s.contains(y) || y == x) by {
            if r.contains(y) {
                let k = choose|k: int| 0 <= k < r.len() && r[k] == y;
                if k > 0 {
                    assert(rt[k - 1] == y);
                    assert(rt.contains(y));
                    if t.contains(y) {
                        let m = choose|m: int| 0 <= m < t.len() && t[m] == y;
                        assert(s[m + 1] == y);
                    }
                } else {
                    assert(s[0] == y);
                }
            }
            if s.contains(y) {
                let m = choose|m: int| 0 <= m < s.len() && s[m] == y;
                if m > 0 {
                    assert(t[m - 1] == y);
                    assert(t.contains(y));
                    assert(rt.contains(y));
                    let k = choose|k: int| 0 <= k < rt.len() && rt[k] == y;
                    assert(r[k + 1] == y);
                } else {
                    assert(r[0] == y);
                }
            }
            if y == x {
                assert(rt.contains(y));
                let k = choose|k: int| 0 <= k < rt.len() && rt[k] == y;
                assert(r[k + 1] == y);
            }
        }
        assert forall|i: int, j: int| 0 <= i < j < r.len() implies str_lt(#[trigger] r[i], #[trigger] r[j]) by {
            if i == 0 {
                assert(r[j] == rt[j - 1]);
                assert(rt.contains(rt[j - 1]));
                if t.contains(rt[j - 1]) {
                    let m = choose|m: int| 0 <= m < t.len() && t[m] == rt[j - 1];
                    assert(s[m + 1] == t[m]);
                }
            } else {
                assert(r[i] == rt[i - 1] && r[j] == rt[j - 1]);
            }
        }
        if s.contains(x) {
            let m = choose|m: int| 0 <= m < s.len() && s[m] == x;
            if m == 0 {
                lemma_lt_irrefl(x);
            } else {
                assert(t[m - 1] == x);
                assert(t.contains(x));
            }
        }
        if !s.contains(x) {
            if t.contains(x) {
                let m = choose|m: int| 0 <= m < t.len() && t[m] == x;
                assert(s[m + 1] == x);
            }
        }
    } else if s[0] == x {
        assert(s.contains(x));
    } else {
        lemma_lt_total(s[0], x);
        assert(r == seq![x] + s);
        assert forall|y: Seq<char>| #[trigger] r.contains(y) <==> (s.contains(y) || y == x) by {
            if r.contains(y) {
                let k = choose|k: int| 0 <= k < r.len() && r[k] == y;
                if k > 0 {
                    assert(s[k - 1] == y);
                }
            }
            if s.contains(y) {
                let m = choose|m: int| 0 <= m < s.len() && s[m] == y;
                assert(r[m + 1] == y);
            }
            if y == x {
                assert(r[0] == x);
            }
        }
        assert forall|i: int, j: int| 0 <= i < j < r.len() implies str_lt(#[trigger] r[i], #[trigger] r[j]) by {
            if i == 0 {
                if j > 1 {
                    lemma_lt_trans(x, s[0], s[j - 1]);
                }
            } else {
                assert(r[i] == s[i - 1] && r[j] == s[j - 1]);
            }
        }
        if s.contains(x) {
            let m = choose|m: int| 0 <= m < s.len() && s[m] == x;
            if m > 0 {
                lemma_lt_asym(x, s[0]);
            }
        }
    }
}

/// Adding a sequence of strings keeps the set sorted and adds exactly them.
pub proof fn lemma_union_all(s: Seq<Seq<char>>, xs: Seq<Seq<char>>)
    requires
        strictly_sorted(s),
    ensures
        strictly_sorted(union_all(s, xs)),
        forall|y: Seq<char>| #[trigger] union_all(s, xs).contains(y) <==> (s.contains(y) || xs.contains(y)),
        union_all(s, xs).len() >= s.len(),
    decreases xs.len(),
{
    if xs.len() > 0 {
        let p = xs.drop_last();
        lemma_union_all(s, p);
        lemma_insert_sorted(union_all(s, p), xs.last());
        assert forall|y: Seq<char>| #[trigger] union_all(s, xs).contains(y) <==> (s.contains(y) || xs.contains(y)) by {
            if p.contains(y) {
                let k = choose|k: int| 0 <= k < p.len() && p[k] == y;
                assert(xs[k] == y);
            }
            if xs.contains(y) {
                let k = choose|k: int| 0 <= k < xs.len() && xs[k] == y;
                if k < xs.len() - 1 {
                    assert(p[k] == y);
                }
            }
        }
    }
}

/// Adding strings that are already present changes nothing.
pub proof fn lemma_union_all_absorbs(s: Seq<Seq<char>>, xs: Seq<Seq<char>>)
    requires
        strictly_sorted(s),
        forall|i: int| 0 <= i < xs.len() ==> s.contains(#[trigger] xs[i]),
    ensures
        union_all(s, xs) == s,
    decreases xs.len(),
{
    if xs.len() > 0 {
        let p = xs.drop_last();
        assert forall|i: int| 0 <= i < p.len() implies s.contains(#[trigger] p[i]) by {
            assert(p[i] == xs[i]);
        }
        lemma_union_all_absorbs(s, p);
        assert(s.contains(xs[xs.len() - 1]));
        lemma_insert_sorted(s, xs.last());
    }
}

/// Inserting a string larger than all elements appends it.
proof fn lemma_insert_sorted_last(s: Seq<Seq<char>>, x: Seq<char>)
    requires
        forall|i: int| 0 <= i < s.len() ==> str_lt(#[trigger] s[i], x),
    ensures
        insert_sorted(s, x) == s.push(x),
    decreases s.len(),
{
    if s.len() > 0 {
        let t = s.drop_first();
        assert forall|i: int| 0 <= i < t.len() implies str_lt(#[trigger] t[i], x) by {
            assert(t[i] == s[i + 1]);
        }
        lemma_insert_sorted_last(t, x);
        assert(seq![s[0]] + t.push(x) == s.push(x));
    }
}

/// The set of a strictly sorted sequence is the sequence itself.
pub proof fn lemma_sorted_set_of_sorted(s: Seq<Seq<char>>)
    requires
        strictly_sorted(s),
    ensures
        sorted_set(s) == s,
    decreases s.len(),
{
    if s.len() > 0 {
        let p = s.drop_last();
        assert(strictly_sorted(p));
        lemma_sorted_set_of_sorted(p);
        assert forall|i: int| 0 <= i < p.len() implies str_lt(#[trigger] p[i], s.last()) by {
            assert(p[i] == s[i]);
        }
        lemma_insert_sorted_last(p, s.last());
        assert(p.push(s.last()) == s);
    }
}

/// The result of comparing two strings.
pub enum StrOrder {
    Less,
    Equal,
    Greater,
}

/// Compares two character sequences in code-point lexicographic order.
pub fn compare_chars(a: &Vec<char>, b: &Vec<char>) -> (r: StrOrder)
    ensures
        (r is Less) == str_lt(a@, b@),
        (r is Equal) == (a@ == b@),
        (r is Greater) == str_lt(b@, a@),
{
    let mut i: usize = 0;
    proof {
        assert(a@.skip(0) == a@);
        assert(b@.skip(0) == b@);
    }
    while i < a.len() && i < b.len() && a[i] == b[i]
        invariant
            i <= a.len(),
            i <= b.len(),
            a@.take(i as int) == b@.take(i as int),
            str_lt(a@, b@) == str_lt(a@.skip(i as int), b@.skip(i as int)),
            str_lt(b@, a@) == str_lt(b@.skip(i as int), a@.skip(i as int)),
        decreases a.len() - i,
    {
        assert(a@.skip(i as int).drop_first() == a@.skip(i + 1));
        assert(b@.skip(i as int).drop_first() == b@.skip(i + 1));
        assert(a@.take(i + 1) == a@.take(i as int).push(a@[i as int]));
        assert(b@.take(i + 1) == b@.take(i as int).push(b@[i as int]));
        i = i + 1;
    }
    let ghost sa = a@.skip(i as int);
    let ghost sb = b@.skip(i as int);
    if i == a.len() && i == b.len() {
        assert(a@ == a@.take(i as int));
        assert(b@ == b@.take(i as int));
        proof { lemma_lt_irrefl(a@); }
        StrOrder::Equal
    } else if i == a.len() {
        assert(sa.len() == 0 && sb.len() > 0);
        proof {
            if a@ == b@ {
                assert(a@.len() == b@.len());
            }
        }
        StrOrder::Less
    } else if i == b.len() {
        assert(sb.len() == 0 && sa.len() > 0);
        proof {
            if a@ == b@ {
                assert(a@.len() == b@.len());
            }
        }
        StrOrder::Greater
    } else {
        let ca = a[i];
        let cb = b[i];
        assert(sa[0] == ca && sb[0] == cb);
        assert(ca != cb);
        proof {
            if a@ == b@ {
                assert(a@[i as int] == b@[i as int]);
            }
        }
        if ca < cb {
            assert((ca as int) < (cb as int));
            StrOrder::Less
        } else {
            assert((cb as int) < (ca as int));
            StrOrder::Greater
        }
    }
}

/// Inserts `x` at its place in the sorted sequence `s` (nothing if present).
pub fn insert_sorted_exec(s: &mut Vec<Vec<char>>, x: Vec<char>)
    ensures
        views(final(s)@) == insert_sorted(views(old(s)@), x@),
{
    let ghost vs = views(s@);
    let mut i: usize = 0;
    assert(vs.skip(0) == vs);
    assert(vs.take(0) + vs.skip(0) == vs);
    while i < s.len()
        invariant
            i <= s.len(),
            vs == views(s@),
            s@ == old(s)@,
            insert_sorted(vs, x@) == vs.take(i as int) + insert_sorted(vs.skip(i as int), x@),
        decreases s.len() - i,
    {
        assert(vs.skip(i as int)[0] == s@[i as int]@);
        match compare_chars(&s[i], &x) {
            StrOrder::Less => {
                assert(vs.skip(i as int).drop_first() == vs.skip(i + 1));
                assert(vs.take(i as int) + (seq![vs[i as int]] + insert_sorted(vs.skip(i + 1), x@))
                    == vs.take(i + 1) + insert_sorted(vs.skip(i + 1), x@));
                i = i + 1;
            },
            StrOrder::Equal => {
                assert(vs.take(i as int) + vs.skip(i as int) == vs);
                return;
            },
            StrOrder::Greater => {
                proof { lemma_lt_asym(x@, s@[i as int]@); }
                s.insert(i, x);
                assert(views(s@) == vs.take(i as int) + (seq![x@] + vs.skip(i as int)));
                return;
            },
        }
    }
    assert(vs.skip(i as int) == Seq::<Seq<char>>::empty());
    assert(vs.take(i as int) == vs);
    s.push(x);
    assert(views(s@) == vs.push(x@));
}

/// `base`'s distinct strings, sorted, with all of `add` added.
pub fn sorted_union(base: &Vec<String>, add: &Vec<String>) -> (r: Vec<String>)
    ensures
        string_views(r@) == union_all(sorted_set(string_views(base@)), string_views(add@)),
{
    let mut acc: Vec<Vec<char>> = Vec::new();
    let mut i: usize = 0;
    assert(views(acc@) == Seq::<Seq<char>>::empty());
    while i < base.len()
        invariant
            i <= base.len(),
            views(acc@) == sorted_set(string_views(base@).take(i as int)),
        decreases base.len() - i,
    {
        let ghost bs = string_views(base@);
        assert(bs.take(i + 1).drop_last() == bs.take(i as int));
        assert(bs.take(i + 1).last() == base@[i as int]@);
        insert_sorted_exec(&mut acc, to_chars(base[i].as_str()));
        i = i + 1;
    }
    assert(string_views(base@).take(base.len() as int) == string_views(base@));
    let ghost base_set = views(acc@);
    let mut j: usize = 0;
    while j < add.len()
        invariant
            j <= add.len(),
            base_set == sorted_set(string_views(base@)),
            views(acc@) == union_all(base_set, string_views(add@).take(j as int)),
        decreases add.len() - j,
    {
        let ghost xs = string_views(add@);
        assert(xs.take(j + 1).drop_last() == xs.take(j as int));
        assert(xs.take(j + 1).last() == add@[j as int]@);
        insert_sorted_exec(&mut acc, to_chars(add[j].as_str()));
        j = j + 1;
    }
    assert(string_views(add@).take(add.len() as int) == string_views(add@));
    let mut out: Vec<String> = Vec::new();
    let mut k: usize = 0;
    while k < acc.len()
        invariant
            k <= acc.len(),
            string_views(out@) == views(acc@).take(k as int),
        decreases acc.len() - k,
    {
        let ghost before = string_views(out@);
        out.push(from_chars(&acc[k]));
        assert(string_views(out@) == before.push(acc@[k as int]@));
        assert(views(acc@).take(k + 1) == views(acc@).take(k as int).push(acc@[k as int]@));
        k = k + 1;
    }
    assert(views(acc@).take(acc.len() as int) == views(acc@));
    out
}

} // verus!
