use vstd::prelude::*;
use vstd::relations::*;

verus! {

broadcast use vstd::seq_lib::group_to_multiset_ensures;

/// Lexicographic order on byte strings: a proper prefix comes first.
pub open spec fn lex_leq(a: Seq<u8>, b: Seq<u8>) -> bool
    decreases a.len(),
{
    if a.len() == 0 {
        true
    } else if b.len() == 0 {
        false
    } else if a[0] < b[0] {
        true
    } else if a[0] > b[0] {
        false
    } else {
        lex_leq(a.drop_first(), b.drop_first())
    }
}

pub open spec fn byte_order() -> spec_fn(Seq<u8>, Seq<u8>) -> bool {
    |a: Seq<u8>, b: Seq<u8>| lex_leq(a, b)
}

/// The canonical arrangement of a list of byte strings: sorted.
pub open spec fn canonical(items: Seq<Seq<u8>>) -> Seq<Seq<u8>> {
    items.sort_by(byte_order())
}

proof fn lemma_lex_reflexive(a: Seq<u8>)
    ensures
        lex_leq(a, a),
    decreases a.len(),
{
    if a.len() > 0 {
        lemma_lex_reflexive(a.drop_first());
    }
}

proof fn lemma_lex_antisymmetric(a: Seq<u8>, b: Seq<u8>)
    requires
        lex_leq(a, b),
        lex_leq(b, a),
    ensures
        a == b,
    decreases a.len(),
{
    if a.len() > 0 {
        lemma_lex_antisymmetric(a.drop_first(), b.drop_first());
        assert(a =~= seq![a[0]] + a.drop_first());
        assert(b =~= seq![b[0]] + b.drop_first());
    } else {
        assert(b.len() == 0);
        assert(a =~= b);
    }
}

proof fn lemma_lex_transitive(a: Seq<u8>, b: Seq<u8>, c: Seq<u8>)
    requires
        lex_leq(a, b),
        lex_leq(b, c),
    ensures
        lex_leq(a, c),
    decreases a.len(),
{
    if a.len() > 0 && b.len() > 0 && c.len() > 0 {
        if a[0] == b[0] && b[0] == c[0] {
            lemma_lex_transitive(a.drop_first(), b.drop_first(), c.drop_first());
        }
    }
}

proof fn lemma_lex_total(a: Seq<u8>, b: Seq<u8>)
    ensures
        lex_leq(a, b) || lex_leq(b, a),
    decreases a.len(),
{
    if a.len() > 0 && b.len() > 0 && a[0] == b[0] {
        lemma_lex_total(a.drop_first(), b.drop_first());
    }
}

/// Lexicographic order is a total order.
pub proof fn lemma_byte_order_total()
    ensures
        total_ordering(byte_order()),
{
    assert forall|a: Seq<u8>| #[trigger] byte_order()(a, a) by {
        lemma_lex_reflexive(a);
    }
    assert forall|a: Seq<u8>, b: Seq<u8>|
        #[trigger] byte_order()(a, b) && #[trigger] byte_order()(b, a) implies a == b by {
        lemma_lex_antisymmetric(a, b);
    }
    assert forall|a: Seq<u8>, b: Seq<u8>, c: Seq<u8>|
        #[trigger] byte_order()(a, b) && #[trigger] byte_order()(b, c) implies byte_order()(
        a,
        c,
    ) by {
        lemma_lex_transitive(a, b, c);
    }
    assert forall|a: Seq<u8>, b: Seq<u8>|
        #[trigger] byte_order()(a, b) || #[trigger] byte_order()(b, a) by {
        lemma_lex_total(a, b);
    }
}

/// Two sorted arrangements of the same multiset are the same sequence.
pub proof fn lemma_sorted_unique(a: Seq<Seq<u8>>, b: Seq<Seq<u8>>)
    requires
        sorted_by(a, byte_order()),
        sorted_by(b, byte_order()),
        a.to_multiset() == b.to_multiset(),
    ensures
        a == b,
    decreases a.len(),
{
    lemma_byte_order_total();
    a.to_multiset_ensures();
    b.to_multiset_ensures();
    assert(a.len() == b.len()) by {
        assert(a.to_multiset().len() == b.to_multiset().len());
    }
    if a.len() == 0 {
        assert(a =~= b);
    } else {
        let x = a[0];
        let y = b[0];
        assert(b.to_multiset().count(x) > 0) by {
            assert(a.contains(x));
        }
        assert(b.contains(x));
        let k = choose|k: int| 0 <= k < b.len() && b[k] == x;
        assert(lex_leq(y, x)) by {
            if k > 0 {
                assert(byte_order()(b[0], b[k]));
            } else {
                lemma_lex_reflexive(x);
            }
        }
        assert(a.to_multiset().count(y) > 0) by {
            assert(b.contains(y));
        }
        assert(a.contains(y));
        let j = choose|j: int| 0 <= j < a.len() && a[j] == y;
        assert(lex_leq(x, y)) by {
            if j > 0 {
                assert(byte_order()(a[0], a[j]));
            } else {
                lemma_lex_reflexive(x);
            }
        }
        lemma_lex_antisymmetric(x, y);
        assert(a.remove(0) =~= a.drop_first());
        assert(b.remove(0) =~= b.drop_first());
        assert(a.drop_first().to_multiset() =~= b.drop_first().to_multiset());
        assert(sorted_by(a.drop_first(), byte_order())) by {
            assert forall|i: int, j: int| 0 <= i < j < a.drop_first().len() implies #[trigger] (
            byte_order())(a.drop_first()[i], a.drop_first()[j]) by {
                assert(byte_order()(a[i + 1], a[j + 1]));
            }
        }
        assert(sorted_by(b.drop_first(), byte_order())) by {
            assert forall|i: int, j: int| 0 <= i < j < b.drop_first().len() implies #[trigger] (
            byte_order())(b.drop_first()[i], b.drop_first()[j]) by {
                assert(byte_order()(b[i + 1], b[j + 1]));
            }
        }
        lemma_sorted_unique(a.drop_first(), b.drop_first());
        assert(a =~= seq![x] + a.drop_first());
        assert(b =~= seq![y] + b.drop_first());
    }
}

/// A list is sorted into its canonical arrangement.
pub proof fn lemma_canonical_of_sorted(a: Seq<Seq<u8>>, items: Seq<Seq<u8>>)
    requires
        sorted_by(a, byte_order()),
        a.to_multiset() == items.to_multiset(),
    ensures
        a == canonical(items),
{
    lemma_byte_order_total();
    items.lemma_sort_by_ensures(byte_order());
    lemma_sorted_unique(a, canonical(items));
}

/// Lists that hold the same items, in whatever order, have one canonical
/// arrangement.
pub proof fn lemma_canonical_permutation(a: Seq<Seq<u8>>, b: Seq<Seq<u8>>)
    requires
        a.to_multiset() == b.to_multiset(),
    ensures
        canonical(a) == canonical(b),
{
    lemma_byte_order_total();
    a.lemma_sort_by_ensures(byte_order());
    b.lemma_sort_by_ensures(byte_order());
    lemma_sorted_unique(canonical(a), canonical(b));
}

/// Applying one function to each item of two lists with the same items gives
/// two lists with the same items.
pub proof fn lemma_map_permutation<A, B>(a: Seq<A>, b: Seq<A>, f: spec_fn(A) -> B)
    requires
        a.to_multiset() == b.to_multiset(),
    ensures
        a.map_values(f).to_multiset() == b.map_values(f).to_multiset(),
    decreases a.len(),
{
    a.to_multiset_ensures();
    b.to_multiset_ensures();
    assert(a.len() == b.len()) by {
        assert(a.to_multiset().len() == b.to_multiset().len());
    }
    if a.len() == 0 {
        assert(a.map_values(f) =~= b.map_values(f));
    } else {
        let x = a[0];
        assert(a.contains(x));
        assert(b.to_multiset().count(x) > 0);
        assert(b.contains(x));
        let k = choose|k: int| 0 <= k < b.len() && b[k] == x;
        assert(a.remove(0) =~= a.drop_first());
        let a2 = a.drop_first();
        let b2 = b.remove(k);
        assert(a2.to_multiset() =~= b2.to_multiset());
        lemma_map_permutation(a2, b2, f);
        let ma = a.map_values(f);
        let mb = b.map_values(f);
        assert(ma.remove(0) =~= a2.map_values(f));
        assert(mb.remove(k) =~= b2.map_values(f));
        ma.to_multiset_ensures();
        mb.to_multiset_ensures();
        assert(ma.to_multiset().count(f(x)) > 0) by { assert(ma.contains(f(x))) by { assert(ma[0] == f(x)); } }
        assert(mb.to_multiset().count(f(x)) > 0) by { assert(mb.contains(f(x))) by { assert(mb[k] == f(x)); } }
        assert(ma.to_multiset() =~= ma.remove(0).to_multiset().insert(f(x)));
        assert(mb.to_multiset() =~= mb.remove(k).to_multiset().insert(f(x)));
    }
}

/// The byte strings that a list of byte vectors holds.
pub open spec fn byte_views(v: Seq<Vec<u8>>) -> Seq<Seq<u8>> {
    v.map_values(|b: Vec<u8>| b@)
}

/// A function that keeps the items of two lists apart (as far as it is
/// applied to them) maps lists with the same items only from lists with the
/// same items.
pub proof fn lemma_map_injective<A, B>(a: Seq<A>, b: Seq<A>, f: spec_fn(A) -> B)
    requires
        a.map_values(f).to_multiset() == b.map_values(f).to_multiset(),
        forall|x: A, y: A| a.contains(x) && b.contains(y) && #[trigger] f(x) == #[trigger] f(y) ==> x == y,
    ensures
        a.to_multiset() == b.to_multiset(),
    decreases a.len(),
{
    let ma = a.map_values(f);
    let mb = b.map_values(f);
    ma.to_multiset_ensures();
    mb.to_multiset_ensures();
    a.to_multiset_ensures();
    b.to_multiset_ensures();
    assert(a.len() == b.len()) by {
        assert(ma.to_multiset().len() == mb.to_multiset().len());
    }
    if a.len() == 0 {
        assert(a =~= b);
    } else {
        let x = a[0];
        assert(ma[0] == f(x));
        assert(ma.contains(f(x)));
        assert(ma.to_multiset().count(f(x)) > 0);
        assert(mb.to_multiset().count(f(x)) > 0);
        assert(mb.contains(f(x)));
        let k = choose|k: int| 0 <= k < mb.len() && mb[k] == f(x);
        assert(f(b[k]) == f(x));
        assert(b.contains(b[k]));
        assert(a.contains(x));
        assert(b[k] == x);
        let a2 = a.drop_first();
        let b2 = b.remove(k);
        assert(a.remove(0) =~= a2);
        assert(ma.remove(0) =~= a2.map_values(f));
        assert(mb.remove(k) =~= b2.map_values(f));
        assert(a2.map_values(f).to_multiset() =~= b2.map_values(f).to_multiset());
        assert forall|u: A, v: A| a2.contains(u) && b2.contains(v) && #[trigger] f(u) == #[trigger] f(v) implies u == v by {
            let i = choose|i: int| 0 <= i < a2.len() && a2[i] == u;
            assert(a[i + 1] == u);
            let j = choose|j: int| 0 <= j < b2.len() && b2[j] == v;
            if j < k {
                assert(b[j] == v);
            } else {
                assert(b[j + 1] == v);
            }
        }
        lemma_map_injective(a2, b2, f);
        assert(a.to_multiset() =~= a2.to_multiset().insert(x));
        assert(b.to_multiset() =~= b2.to_multiset().insert(x));
    }
}

/// Equal canonical arrangements come from lists with the same items.
pub proof fn lemma_canonical_same_items(a: Seq<Seq<u8>>, b: Seq<Seq<u8>>)
    requires
        canonical(a) == canonical(b),
    ensures
        a.to_multiset() == b.to_multiset(),
{
    lemma_byte_order_total();
    a.lemma_sort_by_ensures(byte_order());
    b.lemma_sort_by_ensures(byte_order());
}

/// Each item of a list is an item of its canonical arrangement.
pub proof fn lemma_canonical_contains(a: Seq<Seq<u8>>, x: Seq<u8>)
    requires
        a.contains(x),
    ensures
        canonical(a).contains(x),
{
    lemma_byte_order_total();
    a.lemma_sort_by_ensures(byte_order());
    a.to_multiset_ensures();
    canonical(a).to_multiset_ensures();
    assert(a.to_multiset().count(x) > 0);
    assert(canonical(a).to_multiset().count(x) > 0);
}

/// Lexicographic comparison of two byte strings.
pub fn lex_le(a: &Vec<u8>, b: &Vec<u8>) -> (r: bool)
    ensures
        r == lex_leq(a@, b@),
{
    let mut i: usize = 0;
    assert(a@.subrange(0, a.len() as int) =~= a@);
    assert(b@.subrange(0, b.len() as int) =~= b@);
    while i < a.len() && i < b.len() && a[i] == b[i]
        invariant
            i <= a.len(),
            i <= b.len(),
            a@.subrange(0, i as int) == b@.subrange(0, i as int),
            lex_leq(a@, b@) == lex_leq(a@.subrange(i as int, a.len() as int), b@.subrange(i as int, b.len() as int)),
        decreases a.len() - i,
    {
        let ghost sa = a@.subrange(i as int, a.len() as int);
        let ghost sb = b@.subrange(i as int, b.len() as int);
        assert(sa.drop_first() =~= a@.subrange(i + 1, a.len() as int));
        assert(sb.drop_first() =~= b@.subrange(i + 1, b.len() as int));
        assert(a@.subrange(0, i + 1) =~= a@.subrange(0, i as int).push(a@[i as int]));
        assert(b@.subrange(0, i + 1) =~= b@.subrange(0, i as int).push(b@[i as int]));
        i = i + 1;
    }
    if i == a.len() {
        true
    } else if i == b.len() {
        false
    } else {
        a[i] < b[i]
    }
}

/// Sorts a list of byte strings into its canonical arrangement.
pub fn sort_canonical(items: Vec<Vec<u8>>) -> (r: Vec<Vec<u8>>)
    ensures
        byte_views(r@) == canonical(byte_views(items@)),
{
    proof {
        lemma_byte_order_total();
    }
    let ghost all = byte_views(items@);
    let mut rest = items;
    let mut out: Vec<Vec<u8>> = Vec::new();
    while rest.len() > 0
        invariant
            total_ordering(byte_order()),
            byte_views(out@).to_multiset().add(byte_views(rest@).to_multiset()) == all.to_multiset(),
            sorted_by(byte_views(out@), byte_order()),
            forall|i: int, j: int|
                0 <= i < out.len() && 0 <= j < rest.len() ==> lex_leq(#[trigger] out@[i]@, #[trigger] rest@[j]@),
        decreases rest.len(),
    {
        let mut m: usize = 0;
        let mut j: usize = 1;
        proof {
            lemma_lex_reflexive(rest@[0]@);
        }
        while j < rest.len()
            invariant
                total_ordering(byte_order()),
                0 <= m < rest.len(),
                1 <= j <= rest.len(),
                forall|k: int| 0 <= k < j ==> lex_leq(rest@[m as int]@, #[trigger] rest@[k]@),
            decreases rest.len() - j,
        {
            if !lex_le(&rest[m], &rest[j]) {
                proof {
                    lemma_lex_total(rest@[m as int]@, rest@[j as int]@);
                    assert forall|k: int| 0 <= k <= j implies lex_leq(rest@[j as int]@, #[trigger] rest@[k]@) by {
                        if k < j {
                            lemma_lex_transitive(rest@[j as int]@, rest@[m as int]@, rest@[k]@);
                        } else {
                            lemma_lex_reflexive(rest@[k]@);
                        }
                    }
                }
                m = j;
            }
            j = j + 1;
        }
        let ghost old_rest = rest@;
        let ghost old_out = out@;
        let x = rest.remove(m);
        proof {
            let om = byte_views(old_rest);
            assert(om.remove(m as int) =~= byte_views(rest@));
            om.to_multiset_ensures();
            assert(x == old_rest[m as int]);
                        assert(om[m as int] == x@);
            assert(om.contains(x@));
            assert(om.to_multiset().count(x@) > 0);
            assert(byte_views(old_rest).to_multiset() =~= byte_views(rest@).to_multiset().insert(x@));
        }
        out.push(x);
        proof {
            assert(byte_views(out@) =~= byte_views(old_out).push(x@));
            byte_views(old_out).to_multiset_ensures();
            assert(byte_views(out@).to_multiset() =~= byte_views(old_out).to_multiset().insert(x@));
            assert forall|i: int, j: int| 0 <= i < j < byte_views(out@).len() implies #[trigger] (
            byte_order())(byte_views(out@)[i], byte_views(out@)[j]) by {
                if j < out.len() - 1 {
                    assert(byte_order()(byte_views(old_out)[i], byte_views(old_out)[j]));
                } else {
                    assert(lex_leq(old_out[i]@, old_rest[m as int]@));
                }
            }
            assert forall|i: int, j: int|
                0 <= i < out.len() && 0 <= j < rest.len() implies lex_leq(#[trigger] out@[i]@, #[trigger] rest@[j]@) by {
                let jj = if j < m { j } else { j + 1 };
                assert(rest@[j] == old_rest[jj]);
                if i < out.len() - 1 {
                    assert(lex_leq(old_out[i]@, old_rest[jj]@));
                } else {
                    assert(lex_leq(old_rest[m as int]@, old_rest[jj]@));
                }
            }
        }
    }
    proof {
        assert(byte_views(rest@) =~= Seq::<Seq<u8>>::empty());
        assert(byte_views(out@).to_multiset() =~= all.to_multiset());
        lemma_canonical_of_sorted(byte_views(out@), all);
    }
    out
}

} // verus!
