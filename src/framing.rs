use vstd::prelude::*;
use crate::canonical::byte_views;

verus! {

/// `256` to the power `k`.
pub open spec fn pow256(k: nat) -> nat
    decreases k,
{
    if k == 0 { 1 } else { 256 * pow256((k - 1) as nat) }
}

/// The `k` low bytes of `n`, least significant first.
pub open spec fn le_bytes(n: nat, k: nat) -> Seq<u8>
    decreases k,
{
    if k == 0 {
        Seq::empty()
    } else {
        seq![(n % 256) as u8] + le_bytes(n / 256, (k - 1) as nat)
    }
}

/// The number that a little-endian byte string stands for.
pub open spec fn le_value(s: Seq<u8>) -> nat
    decreases s.len(),
{
    if s.len() == 0 { 0 } else { s[0] as nat + 256 * le_value(s.drop_first()) }
}

/// A byte string preceded by its length in eight bytes.
pub open spec fn frame(b: Seq<u8>) -> Seq<u8> {
    le_bytes(b.len(), 8) + b
}

/// The framed items, one after the other.
pub open spec fn frame_all(items: Seq<Seq<u8>>) -> Seq<u8>
    decreases items.len(),
{
    if items.len() == 0 {
        Seq::empty()
    } else {
        frame(items[0]) + frame_all(items.drop_first())
    }
}

pub proof fn lemma_le_bytes_len(n: nat, k: nat)
    ensures
        le_bytes(n, k).len() == k,
    decreases k,
{
    if k > 0 {
        lemma_le_bytes_len(n / 256, (k - 1) as nat);
    }
}

pub proof fn lemma_le_round_trip(n: nat, k: nat)
    requires
        n < pow256(k),
    ensures
        le_value(le_bytes(n, k)) == n,
    decreases k,
{
    if k > 0 {
        let p = pow256((k - 1) as nat);
        assert(n / 256 < p) by (nonlinear_arith)
            requires
                n < 256 * p,
        ;
        lemma_le_round_trip(n / 256, (k - 1) as nat);
        let s = le_bytes(n, k);
        assert(s.drop_first() =~= le_bytes(n / 256, (k - 1) as nat));
        assert(n == n % 256 + 256 * (n / 256));
    }
}

pub proof fn lemma_frame_all_push(items: Seq<Seq<u8>>, x: Seq<u8>)
    ensures
        frame_all(items.push(x)) == frame_all(items) + frame(x),
    decreases items.len(),
{
    if items.len() == 0 {
        assert(items.push(x).drop_first() =~= Seq::<Seq<u8>>::empty());
        assert(items.push(x)[0] == x);
        assert(frame_all(Seq::<Seq<u8>>::empty()) =~= Seq::<u8>::empty());
        assert(frame_all(items.push(x)) =~= frame(x));
    } else {
        assert(items.push(x).drop_first() =~= items.drop_first().push(x));
        lemma_frame_all_push(items.drop_first(), x);
        assert(frame_all(items.push(x)) =~= frame_all(items) + frame(x));
    }
}

pub proof fn lemma_frame_all_len(items: Seq<Seq<u8>>, i: int)
    requires
        0 <= i < items.len(),
    ensures
        items[i].len() < frame_all(items).len(),
    decreases items.len(),
{
    lemma_le_bytes_len(items[0].len(), 8);
    if i > 0 {
        lemma_frame_all_len(items.drop_first(), i - 1);
    }
}

/// Framing is unambiguous: the framed bytes give back the items.
pub proof fn lemma_frame_all_injective(a: Seq<Seq<u8>>, b: Seq<Seq<u8>>)
    requires
        frame_all(a) == frame_all(b),
        frame_all(a).len() < pow256(8),
    ensures
        a == b,
    decreases a.len(),
{
    if a.len() == 0 {
        if b.len() > 0 {
            lemma_le_bytes_len(b[0].len(), 8);
        }
        assert(a =~= b);
    } else if b.len() == 0 {
        lemma_le_bytes_len(a[0].len(), 8);
    } else {
        let fa = frame(a[0]);
        let fb = frame(b[0]);
        let t = frame_all(a);
        lemma_le_bytes_len(a[0].len(), 8);
        lemma_le_bytes_len(b[0].len(), 8);
        lemma_frame_all_len(a, 0);
        lemma_frame_all_len(b, 0);
        assert(t.subrange(0, 8) =~= le_bytes(a[0].len(), 8));
        assert(t.subrange(0, 8) =~= le_bytes(b[0].len(), 8));
        lemma_le_round_trip(a[0].len(), 8);
        lemma_le_round_trip(b[0].len(), 8);
        assert(a[0].len() == b[0].len());
        let l = fa.len() as int;
        assert(t.subrange(0, l) =~= fa);
        assert(t.subrange(0, l) =~= fb);
        assert(a[0] =~= fa.subrange(8, l));
        assert(b[0] =~= fb.subrange(8, l));
        assert(t.subrange(l, t.len() as int) =~= frame_all(a.drop_first()));
        assert(t.subrange(l, t.len() as int) =~= frame_all(b.drop_first()));
        lemma_frame_all_injective(a.drop_first(), b.drop_first());
        assert(a =~= seq![a[0]] + a.drop_first());
        assert(b =~= seq![b[0]] + b.drop_first());
    }
}

/// Appends the `k` low bytes of `n`, least significant first.
pub fn push_le_bytes(out: &mut Vec<u8>, n: u64, k: usize)
    ensures
        final(out)@ == old(out)@ + le_bytes(n as nat, k as nat),
{
    let ghost start = out@;
    let mut m: u64 = n;
    let mut i: usize = 0;
    while i < k
        invariant
            i <= k,
            out@ + le_bytes(m as nat, (k - i) as nat) == start + le_bytes(n as nat, k as nat),
        decreases k - i,
    {
        let ghost before = out@;
        out.push((m % 256) as u8);
        proof {
            assert(le_bytes(m as nat, (k - i) as nat) =~= seq![(m % 256) as u8] + le_bytes(
                (m / 256) as nat,
                (k - i - 1) as nat,
            ));
            assert(out@ + le_bytes((m / 256) as nat, (k - i - 1) as nat) =~= before + le_bytes(
                m as nat,
                (k - i) as nat,
            ));
        }
        m = m / 256;
        i = i + 1;
    }
    assert(out@ =~= out@ + le_bytes(m as nat, 0));
}

/// Appends a byte string preceded by its length.
pub fn push_frame(out: &mut Vec<u8>, item: &Vec<u8>)
    ensures
        final(out)@ == old(out)@ + frame(item@),
{
    let ghost start = out@;
    push_le_bytes(out, item.len() as u64, 8);
    let mut i: usize = 0;
    while i < item.len()
        invariant
            i <= item.len(),
            out@ == start + le_bytes(item@.len(), 8) + item@.subrange(0, i as int),
        decreases item.len() - i,
    {
        out.push(item[i]);
        proof {
            assert(item@.subrange(0, i + 1) =~= item@.subrange(0, i as int).push(item@[i as int]));
        }
        i = i + 1;
    }
    assert(item@.subrange(0, item.len() as int) =~= item@);
    assert(out@ =~= start + frame(item@));
}

/// Frames each item of a list and joins them.
pub fn frame_list(items: &Vec<Vec<u8>>) -> (r: Vec<u8>)
    ensures
        r@ == frame_all(byte_views(items@)),
{
    let mut out: Vec<u8> = Vec::new();
    let mut i: usize = 0;
    while i < items.len()
        invariant
            i <= items.len(),
            out@ == frame_all(byte_views(items@).take(i as int)),
        decreases items.len() - i,
    {
        let ghost before = out@;
        push_frame(&mut out, &items[i]);
        proof {
            let v = byte_views(items@);
            assert(v.take(i + 1) =~= v.take(i as int).push(items@[i as int]@));
            lemma_frame_all_push(v.take(i as int), items@[i as int]@);
        }
        i = i + 1;
    }
    assert(byte_views(items@).take(items.len() as int) =~= byte_views(items@));
    out
}

} // verus!
