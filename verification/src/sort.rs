//! Stable ordering of small lists by a comparator, and the string order
//! that `String`'s `Ord` uses.
use vstd::prelude::*;

verus! {

/// A type ordered by a comparator; `spec_before(a, b)` holds when the
/// comparator puts `a` strictly before `b`.
pub trait Ranked: Sized {
    spec fn spec_before(&self, other: &Self) -> bool;

    fn before(&self, other: &Self) -> (b: bool)
        ensures
            b == self.spec_before(other);
}

/// `x` placed into `s` after every element it does not strictly precede.
pub open spec fn insert_stable<T: Ranked>(s: Seq<T>, x: T) -> Seq<T>
    decreases s.len(),
{
    if s.len() == 0 {
        seq![x]
    } else if x.spec_before(&s.last()) {
        insert_stable(s.drop_last(), x).push(s.last())
    } else {
        s.push(x)
    }
}

/// The result of a stable sort (`slice::sort_by`) of `s`.
pub open spec fn sorted_stable<T: Ranked>(s: Seq<T>) -> Seq<T>
    decreases s.len(),
{
    if s.len() == 0 {
        Seq::empty()
    } else {
        insert_stable(sorted_stable(s.drop_last()), s.last())
    }
}

pub proof fn lemma_insert_len<T: Ranked>(s: Seq<T>, x: T)
    ensures
        insert_stable(s, x).len() == s.len() + 1,
    decreases s.len(),
{
    if s.len() > 0 && x.spec_before(&s.last()) {
        lemma_insert_len(s.drop_last(), x);
    }
}

pub proof fn lemma_sorted_len<T: Ranked>(s: Seq<T>)
    ensures
        sorted_stable(s).len() == s.len(),
    decreases s.len(),
{
    if s.len() > 0 {
        lemma_sorted_len(s.drop_last());
        lemma_insert_len(sorted_stable(s.drop_last()), s.last());
    }
}

pub proof fn lemma_insert_multiset<T: Ranked>(s: Seq<T>, x: T)
    ensures
        insert_stable(s, x).to_multiset() == s.to_multiset().insert(x),
    decreases s.len(),
{
    broadcast use vstd::seq_lib::group_seq_properties;
    if s.len() > 0 && x.spec_before(&s.last()) {
        lemma_insert_multiset(s.drop_last(), x);
        assert(s =~= s.drop_last().push(s.last()));
    }
}

/// A stable sort keeps exactly the elements it was given.
pub proof fn lemma_sorted_multiset<T: Ranked>(s: Seq<T>)
    ensures
        sorted_stable(s).to_multiset() == s.to_multiset(),
    decreases s.len(),
{
    broadcast use vstd::seq_lib::group_seq_properties;
    if s.len() > 0 {
        lemma_sorted_multiset(s.drop_last());
        lemma_insert_multiset(sorted_stable(s.drop_last()), s.last());
        assert(s =~= s.drop_last().push(s.last()));
    }
}

fn insert_into<T: Ranked>(v: &mut Vec<T>, x: T)
    ensures
        final(v)@ == insert_stable(old(v)@, x),
    decreases old(v)@.len(),
{
    if v.len() == 0 {
        v.push(x);
        assert(v@ =~= seq![x]);
        return;
    }
    let last = v.pop().unwrap();
    if x.before(&last) {
        insert_into(v, x);
        v.push(last);
    } else {
        v.push(last);
        v.push(x);
    }
}

/// Stable sort (`slice::sort_by` with the type's comparator).
pub fn sort_stable<T: Ranked>(v: Vec<T>) -> (r: Vec<T>)
    ensures
        r@ == sorted_stable(v@),
{
    let mut out: Vec<T> = Vec::new();
    let mut rest = v;
    let ghost orig = rest@;
    let mut taken: Vec<T> = Vec::new();
    // Reverse once so elements can be taken in their original order.
    while rest.len() > 0
        invariant
            taken@.len() + rest@.len() == orig.len(),
            rest@ == orig.take(rest@.len() as int),
            forall|k: int| 0 <= k < taken@.len() ==> #[trigger] taken@[k] == orig[orig.len() - 1 - k],
        decreases rest@.len(),
    {
        let x = rest.pop().unwrap();
        taken.push(x);
        assert(rest@ =~= orig.take(rest@.len() as int));
    }
    let ghost n = orig.len();
    while taken.len() > 0
        invariant
            n == orig.len(),
            taken@.len() <= n,
            forall|k: int| 0 <= k < taken@.len() ==> #[trigger] taken@[k] == orig[n - 1 - k],
            out@ == sorted_stable(orig.take(n - taken@.len())),
        decreases taken@.len(),
    {
        let x = taken.pop().unwrap();
        let ghost done = n - taken@.len();
        assert(orig.take(done as int).drop_last() =~= orig.take(done - 1));
        insert_into(&mut out, x);
    }
    assert(orig.take(n as int) =~= orig);
    out
}

/// `String`'s order: lexicographic by Unicode scalar value (the byte order
/// of UTF-8).
pub open spec fn seq_lt(a: Seq<char>, b: Seq<char>) -> bool
    decreases a.len(),
{
    if a.len() == 0 {
        b.len() > 0
    } else if b.len() == 0 {
        false
    } else if (a[0] as u32) != (b[0] as u32) {
        (a[0] as u32) < (b[0] as u32)
    } else {
        seq_lt(a.drop_first(), b.drop_first())
    }
}

/// `a < b` for strings.
pub fn str_lt(a: &str, b: &str) -> (r: bool)
    ensures
        r == seq_lt(a@, b@),
{
    let x = crate::text::chars_of(a);
    let y = crate::text::chars_of(b);
    chars_lt(x.as_slice(), y.as_slice())
}

proof fn lemma_seq_lt_skip(a: Seq<char>, b: Seq<char>, i: int)
    requires
        0 <= i <= a.len(),
        i <= b.len(),
        forall|k: int| 0 <= k < i ==> (a[k] as u32) == (b[k] as u32),
    ensures
        seq_lt(a, b) == seq_lt(a.skip(i), b.skip(i)),
    decreases i,
{
    if i > 0 {
        lemma_seq_lt_skip(a.drop_first(), b.drop_first(), i - 1);
        assert(a.drop_first().skip(i - 1) =~= a.skip(i));
        assert(b.drop_first().skip(i - 1) =~= b.skip(i));
    } else {
        assert(a.skip(0) =~= a);
        assert(b.skip(0) =~= b);
    }
}

pub fn chars_lt(a: &[char], b: &[char]) -> (r: bool)
    ensures
        r == seq_lt(a@, b@),
{
    let mut i: usize = 0;
    while i < a.len() && i < b.len() && (a[i] as u32) == (b[i] as u32)
        invariant
            i <= a@.len(),
            i <= b@.len(),
            forall|k: int| 0 <= k < i ==> (a@[k] as u32) == (b@[k] as u32),
        decreases a@.len() - i,
    {
        i = i + 1;
    }
    proof {
        lemma_seq_lt_skip(a@, b@, i as int);
    }
    if i == a.len() {
        i < b.len()
    } else if i == b.len() {
        false
    } else {
        (a[i] as u32) < (b[i] as u32)
    }
}

} // verus!

verus! {

/// No later element is strictly before an earlier one.
pub open spec fn is_sorted<T: Ranked>(s: Seq<T>) -> bool {
    forall|i: int, j: int| 0 <= i < j < s.len() ==> !s[j].spec_before(&s[i])
}

/// The comparator is a strict weak order on the given elements.
pub open spec fn strict_weak_on<T: Ranked>(s: Seq<T>) -> bool {
    &&& forall|a: T, b: T| s.contains(a) && s.contains(b) && #[trigger] a.spec_before(&b) ==> !b.spec_before(&a)
    &&& forall|a: T, b: T, c: T|
        s.contains(a) && s.contains(b) && s.contains(c) && !#[trigger] a.spec_before(&b)
            && !#[trigger] b.spec_before(&c) ==> !a.spec_before(&c)
}

pub proof fn lemma_insert_contains<T: Ranked>(s: Seq<T>, x: T, y: T)
    ensures
        insert_stable(s, x).contains(y) <==> (s.contains(y) || y == x),
{
    broadcast use vstd::seq_lib::group_seq_properties;
    broadcast use vstd::multiset::group_multiset_axioms;
    lemma_insert_multiset(s, x);
    assert(insert_stable(s, x).to_multiset().count(y) == s.to_multiset().insert(x).count(y));
}

proof fn lemma_insert_sorted<T: Ranked>(s: Seq<T>, x: T, all: Seq<T>)
    requires
        is_sorted(s),
        strict_weak_on(all),
        forall|y: T| s.contains(y) ==> all.contains(y),
        all.contains(x),
    ensures
        is_sorted(insert_stable(s, x)),
    decreases s.len(),
{
    if s.len() == 0 {
    } else if x.spec_before(&s.last()) {
        let p = s.drop_last();
        assert forall|y: T| p.contains(y) implies all.contains(y) by {
            let k = choose|k: int| 0 <= k < p.len() && p[k] == y;
            assert(s[k] == y);
        }
        assert(is_sorted(p)) by {
            assert forall|i: int, j: int| 0 <= i < j < p.len() implies !p[j].spec_before(&p[i]) by {
                assert(p[i] == s[i] && p[j] == s[j]);
            }
        }
        lemma_insert_sorted(p, x, all);
        lemma_insert_len(p, x);
        let r = insert_stable(p, x);
        let e = s.last();
        assert(s.contains(e));
        assert(all.contains(e));
        assert forall|i: int, j: int| 0 <= i < j < r.len() + 1 implies !r.push(e)[j].spec_before(&r.push(e)[i]) by {
            if j == r.len() {
                let a = r[i];
                lemma_insert_contains(p, x, a);
                if a == x {
                    assert(!e.spec_before(&x));
                } else {
                    let k = choose|k: int| 0 <= k < p.len() && p[k] == a;
                    assert(p[k] == s[k]);
                    assert(!s[s.len() - 1].spec_before(&s[k]));
                }
            } else {
                assert(r.push(e)[i] == r[i] && r.push(e)[j] == r[j]);
            }
        }
    } else {
        let e = s.last();
        assert(s.contains(e));
        assert forall|i: int, j: int| 0 <= i < j < s.len() + 1 implies !s.push(x)[j].spec_before(&s.push(x)[i]) by {
            if j == s.len() {
                let a = s[i];
                assert(s.contains(a));
                if i == s.len() - 1 {
                } else {
                    assert(!e.spec_before(&a));
                    assert(!x.spec_before(&e));
                }
            } else {
                assert(s.push(x)[i] == s[i] && s.push(x)[j] == s[j]);
            }
        }
    }
}

pub proof fn lemma_sorted_contains<T: Ranked>(s: Seq<T>, y: T)
    ensures
        sorted_stable(s).contains(y) <==> s.contains(y),
{
    broadcast use vstd::seq_lib::group_seq_properties;
    lemma_sorted_multiset(s);
    assert(sorted_stable(s).to_multiset().count(y) == s.to_multiset().count(y));
}

proof fn lemma_insert_no_dup<T: Ranked>(s: Seq<T>, x: T)
    requires
        s.no_duplicates(),
        !s.contains(x),
    ensures
        insert_stable(s, x).no_duplicates(),
    decreases s.len(),
{
    if s.len() > 0 && x.spec_before(&s.last()) {
        let p = s.drop_last();
        let e = s.last();
        assert(p.no_duplicates()) by {
            assert forall|i: int, j: int| 0 <= i < p.len() && 0 <= j < p.len() && i != j implies p[i] != p[j] by {
                assert(p[i] == s[i] && p[j] == s[j]);
            }
        }
        assert(!p.contains(x)) by {
            if p.contains(x) {
                let k = choose|k: int| 0 <= k < p.len() && p[k] == x;
                assert(s[k] == x);
            }
        }
        lemma_insert_no_dup(p, x);
        lemma_insert_contains(p, x, e);
        assert(!p.contains(e)) by {
            if p.contains(e) {
                let k = choose|k: int| 0 <= k < p.len() && p[k] == e;
                assert(s[k] == s[s.len() - 1]);
            }
        }
        assert(s.contains(e)) by {
            assert(s[s.len() - 1] == e);
        }
        let r = insert_stable(p, x);
        assert(!r.contains(e));
        assert forall|i: int, j: int| 0 <= i < r.push(e).len() && 0 <= j < r.push(e).len() && i != j
            implies r.push(e)[i] != r.push(e)[j] by {
            if i == r.len() {
                assert(r.push(e)[j] == r[j]);
            } else if j == r.len() {
                assert(r.push(e)[i] == r[i]);
            } else {
                assert(r.push(e)[i] == r[i] && r.push(e)[j] == r[j]);
            }
        }
    } else if s.len() > 0 {
        assert forall|i: int, j: int| 0 <= i < s.push(x).len() && 0 <= j < s.push(x).len() && i != j
            implies s.push(x)[i] != s.push(x)[j] by {
            if i == s.len() {
                assert(s.push(x)[j] == s[j]);
            } else if j == s.len() {
                assert(s.push(x)[i] == s[i]);
            } else {
                assert(s.push(x)[i] == s[i] && s.push(x)[j] == s[j]);
            }
        }
    }
}

/// A stable sort of a list without repeated elements has none either.
pub proof fn lemma_sorted_no_dup<T: Ranked>(s: Seq<T>)
    requires
        s.no_duplicates(),
    ensures
        sorted_stable(s).no_duplicates(),
    decreases s.len(),
{
    if s.len() > 0 {
        let p = s.drop_last();
        assert(p.no_duplicates()) by {
            assert forall|i: int, j: int| 0 <= i < p.len() && 0 <= j < p.len() && i != j implies p[i] != p[j] by {
                assert(p[i] == s[i] && p[j] == s[j]);
            }
        }
        lemma_sorted_no_dup(p);
        lemma_sorted_contains(p, s.last());
        assert(!p.contains(s.last())) by {
            if p.contains(s.last()) {
                let k = choose|k: int| 0 <= k < p.len() && p[k] == s.last();
                assert(s[k] == s[s.len() - 1]);
            }
        }
        lemma_insert_no_dup(sorted_stable(p), s.last());
    }
}

/// A stable sort under a strict weak order leaves no element after one it
/// should precede.
pub proof fn lemma_sorted_stable_is_sorted<T: Ranked>(s: Seq<T>)
    requires
        strict_weak_on(s),
    ensures
        is_sorted(sorted_stable(s)),
    decreases s.len(),
{
    if s.len() > 0 {
        let p = s.drop_last();
        assert(strict_weak_on(p)) by {
            assert forall|y: T| p.contains(y) implies s.contains(y) by {
                let k = choose|k: int| 0 <= k < p.len() && p[k] == y;
                assert(s[k] == y);
            }
        }
        lemma_sorted_stable_is_sorted(p);
        assert forall|y: T| sorted_stable(p).contains(y) implies s.contains(y) by {
            lemma_sorted_contains(p, y);
            let k = choose|k: int| 0 <= k < p.len() && p[k] == y;
            assert(s[k] == y);
        }
        assert(s.contains(s.last()));
        lemma_insert_sorted(sorted_stable(p), s.last(), s);
    }
}

} // verus!

verus! {

pub proof fn lemma_seq_lt_asym(a: Seq<char>, b: Seq<char>)
    ensures
        seq_lt(a, b) ==> !seq_lt(b, a),
    decreases a.len(),
{
    if a.len() > 0 && b.len() > 0 {
        lemma_seq_lt_asym(a.drop_first(), b.drop_first());
    }
}

/// Not-less-than is transitive for the string order.
pub proof fn lemma_seq_lt_neg_trans(a: Seq<char>, b: Seq<char>, c: Seq<char>)
    ensures
        !seq_lt(a, b) && !seq_lt(b, c) ==> !seq_lt(a, c),
    decreases a.len(),
{
    if a.len() > 0 && b.len() > 0 && c.len() > 0 {
        lemma_seq_lt_neg_trans(a.drop_first(), b.drop_first(), c.drop_first());
    }
}

} // verus!
