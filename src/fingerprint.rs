use vstd::prelude::*;
use vstd::utf8::encode_utf8;
use vstd::multiset::Multiset;
use vstd::slice::slice_to_vec;
use crate::canonical::{
    byte_views, canonical, sort_canonical, lemma_canonical_permutation, lemma_map_permutation, lemma_map_injective,
    lemma_canonical_same_items, lemma_canonical_contains,
};
use crate::framing::{
    frame_all, le_bytes, frame_list, push_le_bytes, pow256, lemma_frame_all_injective, lemma_frame_all_len, lemma_le_round_trip,
};
use crate::filter::{ReportType, Status};
use crate::text::push_char;

verus! {

pub open spec fn report_type_code(t: ReportType) -> u8 {
    match t {
        ReportType::Agent => 0,
        ReportType::TaxiCompany => 1,
        ReportType::Merchant => 2,
        ReportType::Unknown => 3,
    }
}

pub open spec fn status_code(s: Status) -> u8 {
    match s {
        Status::Completed => 0,
        Status::Mistake => 1,
        Status::Created => 2,
        Status::Cancel => 3,
        Status::Null => 4,
        Status::Unknown => 5,
    }
}

pub open spec fn status_bytes(s: Status) -> Seq<u8> {
    seq![status_code(s)]
}

pub open spec fn date_range_bytes(r: (Seq<char>, Seq<char>)) -> Seq<u8> {
    frame_all(seq![encode_utf8(r.0), encode_utf8(r.1)])
}

pub open spec fn id_bytes(id: u32) -> Seq<u8> {
    le_bytes(id as nat, 4)
}

pub open spec fn dates_field(dates: Seq<(Seq<char>, Seq<char>)>) -> Seq<u8> {
    frame_all(canonical(dates.map_values(|d: (Seq<char>, Seq<char>)| date_range_bytes(d))))
}

pub open spec fn statuses_field(statuses: Seq<Status>) -> Seq<u8> {
    frame_all(canonical(statuses.map_values(|s: Status| status_bytes(s))))
}

/// A list of texts, in canonical order (modes; one sub-filter's payment
/// systems).
pub open spec fn texts_field(texts: Seq<Seq<char>>) -> Seq<u8> {
    frame_all(canonical(texts.map_values(|m: Seq<char>| encode_utf8(m))))
}

pub open spec fn systems_field(systems: Seq<Seq<Seq<char>>>) -> Seq<u8> {
    frame_all(canonical(systems.map_values(|l: Seq<Seq<char>>| texts_field(l))))
}

pub open spec fn ids_field(ids: Seq<u32>) -> Seq<u8> {
    frame_all(canonical(ids.map_values(|i: u32| id_bytes(i))))
}

/// The bytes that are digested: every field of the request, each list in
/// canonical order, each item framed by its length.
pub open spec fn fingerprint_input(
    kind: ReportType,
    org: Seq<char>,
    dates: Seq<(Seq<char>, Seq<char>)>,
    statuses: Seq<Status>,
    modes: Seq<Seq<char>>,
    systems: Seq<Seq<Seq<char>>>,
    ids: Seq<u32>,
) -> Seq<u8> {
    frame_all(
        seq![
            seq![report_type_code(kind)],
            encode_utf8(org),
            dates_field(dates),
            statuses_field(statuses),
            texts_field(modes),
            systems_field(systems),
            ids_field(ids),
        ],
    )
}

/// The MD5 digest of a byte string.
pub uninterp spec fn md5_of(data: Seq<u8>) -> Seq<u8>;

pub open spec fn hex_digits() -> Seq<char> {
    seq!['0', '1', '2', '3', '4', '5', '6', '7', '8', '9', 'a', 'b', 'c', 'd', 'e', 'f']
}

/// Two lowercase hex digits per byte, high nibble first.
pub open spec fn hex_of(b: Seq<u8>) -> Seq<char>
    decreases b.len(),
{
    if b.len() == 0 {
        Seq::empty()
    } else {
        seq![hex_digits()[(b[0] / 16) as int], hex_digits()[(b[0] % 16) as int]] + hex_of(b.drop_first())
    }
}

/// The fingerprint: the first 16 hex digits of the digest of the request.
pub open spec fn fingerprint_of(
    kind: ReportType,
    org: Seq<char>,
    dates: Seq<(Seq<char>, Seq<char>)>,
    statuses: Seq<Status>,
    modes: Seq<Seq<char>>,
    systems: Seq<Seq<Seq<char>>>,
    ids: Seq<u32>,
) -> Seq<char> {
    hex_of(md5_of(fingerprint_input(kind, org, dates, statuses, modes, systems, ids)).take(8))
}

/// 16 lowercase hex digits: a safe file name.
pub open spec fn is_fingerprint(s: Seq<char>) -> bool {
    &&& s.len() == 16
    &&& forall|i: int| 0 <= i < s.len() ==> hex_digits().contains(#[trigger] s[i])
}

/// What each sub-filter's payment-system list holds, order aside.
pub open spec fn system_multisets(systems: Seq<Seq<Seq<char>>>) -> Seq<Multiset<Seq<char>>> {
    systems.map_values(|l: Seq<Seq<char>>| l.to_multiset())
}

/// Some list that holds exactly the texts of `m`.
pub open spec fn list_of_multiset(m: Multiset<Seq<char>>) -> Seq<Seq<char>> {
    choose|l: Seq<Seq<char>>| #[trigger] l.to_multiset() == m
}

/// The canonical bytes of any list that holds the texts of `m`.
pub open spec fn texts_of_multiset(m: Multiset<Seq<char>>) -> Seq<u8> {
    texts_field(list_of_multiset(m))
}

proof fn lemma_texts_field_permutation(a: Seq<Seq<char>>, b: Seq<Seq<char>>)
    requires
        a.to_multiset() == b.to_multiset(),
    ensures
        texts_field(a) == texts_field(b),
{
    lemma_map_permutation(a, b, |m: Seq<char>| encode_utf8(m));
    lemma_canonical_permutation(
        a.map_values(|m: Seq<char>| encode_utf8(m)),
        b.map_values(|m: Seq<char>| encode_utf8(m)),
    );
}

proof fn lemma_systems_through_multisets(systems: Seq<Seq<Seq<char>>>)
    ensures
        systems.map_values(|l: Seq<Seq<char>>| texts_field(l)) == system_multisets(systems).map_values(
            |m: Multiset<Seq<char>>| texts_of_multiset(m),
        ),
{
    assert forall|k: int| 0 <= k < systems.len() implies #[trigger] texts_of_multiset(
        systems[k].to_multiset(),
    ) == texts_field(systems[k]) by {
        let m = systems[k].to_multiset();
        assert(exists|l: Seq<Seq<char>>| #[trigger] l.to_multiset() == m);
        let l = list_of_multiset(m);
        assert(l.to_multiset() == m);
        lemma_texts_field_permutation(l, systems[k]);
    }
    assert(systems.map_values(|l: Seq<Seq<char>>| texts_field(l)) =~= system_multisets(
        systems,
    ).map_values(|m: Multiset<Seq<char>>| texts_of_multiset(m)));
}

/// Two requests that differ only in the order of their sub-filters (date
/// ranges, statuses, modes, payment-system lists, file ids) or in the order
/// of the payment systems within a sub-filter have the same fingerprint.
pub proof fn lemma_fingerprint_order_independent(
    kind: ReportType,
    org: Seq<char>,
    dates1: Seq<(Seq<char>, Seq<char>)>,
    dates2: Seq<(Seq<char>, Seq<char>)>,
    statuses1: Seq<Status>,
    statuses2: Seq<Status>,
    modes1: Seq<Seq<char>>,
    modes2: Seq<Seq<char>>,
    systems1: Seq<Seq<Seq<char>>>,
    systems2: Seq<Seq<Seq<char>>>,
    ids1: Seq<u32>,
    ids2: Seq<u32>,
)
    requires
        dates1.to_multiset() == dates2.to_multiset(),
        statuses1.to_multiset() == statuses2.to_multiset(),
        modes1.to_multiset() == modes2.to_multiset(),
        system_multisets(systems1).to_multiset() == system_multisets(systems2).to_multiset(),
        ids1.to_multiset() == ids2.to_multiset(),
    ensures
        fingerprint_of(kind, org, dates1, statuses1, modes1, systems1, ids1) == fingerprint_of(
            kind,
            org,
            dates2,
            statuses2,
            modes2,
            systems2,
            ids2,
        ),
{
    let fd = |d: (Seq<char>, Seq<char>)| date_range_bytes(d);
    lemma_map_permutation(dates1, dates2, fd);
    lemma_canonical_permutation(dates1.map_values(fd), dates2.map_values(fd));
    let fs = |s: Status| status_bytes(s);
    lemma_map_permutation(statuses1, statuses2, fs);
    lemma_canonical_permutation(statuses1.map_values(fs), statuses2.map_values(fs));
    lemma_texts_field_permutation(modes1, modes2);
    let fi = |i: u32| id_bytes(i);
    lemma_map_permutation(ids1, ids2, fi);
    lemma_canonical_permutation(ids1.map_values(fi), ids2.map_values(fi));
    let fm = |m: Multiset<Seq<char>>| texts_of_multiset(m);
    lemma_systems_through_multisets(systems1);
    lemma_systems_through_multisets(systems2);
    lemma_map_permutation(system_multisets(systems1), system_multisets(systems2), fm);
    lemma_canonical_permutation(
        system_multisets(systems1).map_values(fm),
        system_multisets(systems2).map_values(fm),
    );
    assert(fingerprint_input(kind, org, dates1, statuses1, modes1, systems1, ids1) == fingerprint_input(
        kind,
        org,
        dates2,
        statuses2,
        modes2,
        systems2,
        ids2,
    ));
}

proof fn lemma_list_field(a: Seq<Seq<u8>>, b: Seq<Seq<u8>>)
    requires
        frame_all(canonical(a)) == frame_all(canonical(b)),
        frame_all(canonical(a)).len() < pow256(8),
    ensures
        a.to_multiset() == b.to_multiset(),
        forall|x: Seq<u8>| a.contains(x) ==> x.len() < pow256(8),
        forall|x: Seq<u8>| b.contains(x) ==> x.len() < pow256(8),
{
    lemma_frame_all_injective(canonical(a), canonical(b));
    lemma_canonical_same_items(a, b);
    assert forall|x: Seq<u8>| a.contains(x) implies x.len() < pow256(8) by {
        lemma_canonical_contains(a, x);
        let i = choose|i: int| 0 <= i < canonical(a).len() && canonical(a)[i] == x;
        lemma_frame_all_len(canonical(a), i);
    }
    assert forall|x: Seq<u8>| b.contains(x) implies x.len() < pow256(8) by {
        lemma_canonical_contains(b, x);
        let i = choose|i: int| 0 <= i < canonical(b).len() && canonical(b)[i] == x;
        lemma_frame_all_len(canonical(b), i);
    }
}

proof fn lemma_utf8_injective(x: Seq<char>, y: Seq<char>)
    requires
        encode_utf8(x) == encode_utf8(y),
    ensures
        x == y,
{
    vstd::utf8::encode_utf8_decode_utf8(x);
    vstd::utf8::encode_utf8_decode_utf8(y);
}

proof fn lemma_mapped_contains<A, B>(a: Seq<A>, f: spec_fn(A) -> B, x: A)
    requires
        a.contains(x),
    ensures
        a.map_values(f).contains(f(x)),
{
    let i = choose|i: int| 0 <= i < a.len() && a[i] == x;
    assert(a.map_values(f)[i] == f(x));
}

proof fn lemma_texts_injective(l1: Seq<Seq<char>>, l2: Seq<Seq<char>>)
    requires
        texts_field(l1) == texts_field(l2),
        texts_field(l1).len() < pow256(8),
    ensures
        l1.to_multiset() == l2.to_multiset(),
{
    let f = |m: Seq<char>| encode_utf8(m);
    lemma_list_field(l1.map_values(f), l2.map_values(f));
    assert forall|x: Seq<char>, y: Seq<char>| l1.contains(x) && l2.contains(y) && #[trigger] f(x) == #[trigger] f(y) implies x == y by {
        lemma_utf8_injective(x, y);
    }
    lemma_map_injective(l1, l2, f);
}

/// Two requests whose digested bytes are equal (and fit in memory) have the
/// same kind, organization, and, order aside, the same date ranges,
/// statuses, modes, payment-system lists and file ids. So changing any of
/// these changes the digest's input, and the fingerprint then differs unless
/// MD5 collides.
pub proof fn lemma_fingerprint_input_determines_request(
    kind1: ReportType,
    org1: Seq<char>,
    dates1: Seq<(Seq<char>, Seq<char>)>,
    statuses1: Seq<Status>,
    modes1: Seq<Seq<char>>,
    systems1: Seq<Seq<Seq<char>>>,
    ids1: Seq<u32>,
    kind2: ReportType,
    org2: Seq<char>,
    dates2: Seq<(Seq<char>, Seq<char>)>,
    statuses2: Seq<Status>,
    modes2: Seq<Seq<char>>,
    systems2: Seq<Seq<Seq<char>>>,
    ids2: Seq<u32>,
)
    requires
        fingerprint_input(kind1, org1, dates1, statuses1, modes1, systems1, ids1)
            == fingerprint_input(kind2, org2, dates2, statuses2, modes2, systems2, ids2),
        fingerprint_input(kind1, org1, dates1, statuses1, modes1, systems1, ids1).len() < pow256(8),
    ensures
        kind1 == kind2,
        org1 == org2,
        dates1.to_multiset() == dates2.to_multiset(),
        statuses1.to_multiset() == statuses2.to_multiset(),
        modes1.to_multiset() == modes2.to_multiset(),
        system_multisets(systems1).to_multiset() == system_multisets(systems2).to_multiset(),
        ids1.to_multiset() == ids2.to_multiset(),
{
    let f1 = seq![
        seq![report_type_code(kind1)],
        encode_utf8(org1),
        dates_field(dates1),
        statuses_field(statuses1),
        texts_field(modes1),
        systems_field(systems1),
        ids_field(ids1),
    ];
    let f2 = seq![
        seq![report_type_code(kind2)],
        encode_utf8(org2),
        dates_field(dates2),
        statuses_field(statuses2),
        texts_field(modes2),
        systems_field(systems2),
        ids_field(ids2),
    ];
    lemma_frame_all_injective(f1, f2);
    assert forall|i: int| 0 <= i < 7 implies (#[trigger] f1[i]).len() < pow256(8) by {
        lemma_frame_all_len(f1, i);
    }
    assert(f1[0] == f2[0]);
    assert(f1[0][0] == f2[0][0]);
    assert(kind1 == kind2);
    assert(f1[1] == f2[1]);
    lemma_utf8_injective(org1, org2);

    // date ranges
    let fd = |d: (Seq<char>, Seq<char>)| date_range_bytes(d);
    assert(f1[2] == f2[2]);
    lemma_list_field(dates1.map_values(fd), dates2.map_values(fd));
    assert forall|x: (Seq<char>, Seq<char>), y: (Seq<char>, Seq<char>)|
        dates1.contains(x) && dates2.contains(y) && #[trigger] fd(x) == #[trigger] fd(y) implies x == y by {
        lemma_mapped_contains(dates1, fd, x);
        reveal_with_fuel(frame_all, 3);
        let p = seq![encode_utf8(x.0), encode_utf8(x.1)];
        let q = seq![encode_utf8(y.0), encode_utf8(y.1)];
        lemma_frame_all_injective(p, q);
        assert(p[0] == q[0] && p[1] == q[1]);
        lemma_utf8_injective(x.0, y.0);
        lemma_utf8_injective(x.1, y.1);
    }
    lemma_map_injective(dates1, dates2, fd);

    // statuses
    let fs = |st: Status| status_bytes(st);
    assert(f1[3] == f2[3]);
    lemma_list_field(statuses1.map_values(fs), statuses2.map_values(fs));
    assert forall|x: Status, y: Status| statuses1.contains(x) && statuses2.contains(y) && #[trigger] fs(x) == #[trigger] fs(y) implies x == y by {
        assert(fs(x)[0] == fs(y)[0]);
    }
    lemma_map_injective(statuses1, statuses2, fs);

    // modes
    assert(f1[4] == f2[4]);
    lemma_texts_injective(modes1, modes2);

    // file ids
    let fi = |i: u32| id_bytes(i);
    assert(f1[6] == f2[6]);
    lemma_list_field(ids1.map_values(fi), ids2.map_values(fi));
    assert forall|x: u32, y: u32| ids1.contains(x) && ids2.contains(y) && #[trigger] fi(x) == #[trigger] fi(y) implies x == y by {
        reveal_with_fuel(pow256, 5);
        lemma_le_round_trip(x as nat, 4);
        lemma_le_round_trip(y as nat, 4);
    }
    lemma_map_injective(ids1, ids2, fi);

    // payment systems
    let ft = |l: Seq<Seq<char>>| texts_field(l);
    let fm = |m: Multiset<Seq<char>>| texts_of_multiset(m);
    assert(f1[5] == f2[5]);
    lemma_list_field(systems1.map_values(ft), systems2.map_values(ft));
    lemma_systems_through_multisets(systems1);
    lemma_systems_through_multisets(systems2);
    let m1 = system_multisets(systems1);
    let m2 = system_multisets(systems2);
    assert forall|x: Multiset<Seq<char>>, y: Multiset<Seq<char>>| m1.contains(x) && m2.contains(y) && #[trigger] fm(x) == #[trigger] fm(y) implies x == y by {
        let i = choose|i: int| 0 <= i < m1.len() && m1[i] == x;
        let j = choose|j: int| 0 <= j < m2.len() && m2[j] == y;
        assert(systems1.map_values(ft)[i] == texts_of_multiset(x));
        assert(systems2.map_values(ft)[j] == texts_of_multiset(y));
        assert(systems1.map_values(ft).contains(texts_of_multiset(x)));
        assert(texts_field(systems1[i]) == texts_field(systems2[j]));
        lemma_texts_injective(systems1[i], systems2[j]);
    }
    lemma_map_injective(m1, m2, fm);
}

/// Changing the kind, the organization, the date ranges, a status or mode
/// value, a payment-system list or the set of file ids changes the bytes the
/// fingerprint digests; the two fingerprints then differ unless MD5 gives the
/// two inputs equal digests.
pub proof fn lemma_fingerprint_sensitive(
    kind1: ReportType,
    org1: Seq<char>,
    dates1: Seq<(Seq<char>, Seq<char>)>,
    statuses1: Seq<Status>,
    modes1: Seq<Seq<char>>,
    systems1: Seq<Seq<Seq<char>>>,
    ids1: Seq<u32>,
    kind2: ReportType,
    org2: Seq<char>,
    dates2: Seq<(Seq<char>, Seq<char>)>,
    statuses2: Seq<Status>,
    modes2: Seq<Seq<char>>,
    systems2: Seq<Seq<Seq<char>>>,
    ids2: Seq<u32>,
)
    requires
        fingerprint_input(kind1, org1, dates1, statuses1, modes1, systems1, ids1).len() < pow256(8),
        kind1 != kind2 || org1 != org2 || dates1.to_multiset() != dates2.to_multiset()
            || statuses1.to_multiset() != statuses2.to_multiset() || modes1.to_multiset() != modes2.to_multiset()
            || system_multisets(systems1).to_multiset() != system_multisets(systems2).to_multiset()
            || ids1.to_multiset() != ids2.to_multiset(),
    ensures
        fingerprint_input(kind1, org1, dates1, statuses1, modes1, systems1, ids1)
            != fingerprint_input(kind2, org2, dates2, statuses2, modes2, systems2, ids2),
{
    if fingerprint_input(kind1, org1, dates1, statuses1, modes1, systems1, ids1)
        == fingerprint_input(kind2, org2, dates2, statuses2, modes2, systems2, ids2) {
        lemma_fingerprint_input_determines_request(
            kind1, org1, dates1, statuses1, modes1, systems1, ids1,
            kind2, org2, dates2, statuses2, modes2, systems2, ids2,
        );
    }
}

/// Relies on md5::compute: the digest of the bytes given, 16 bytes long.
#[verifier::external_body]
fn md5_digest(data: &Vec<u8>) -> (r: Vec<u8>)
    ensures
        r@ == md5_of(data@),
        r@.len() == 16,
{
    md5::compute(data.as_slice()).0.to_vec()
}

fn hex_char(n: u8) -> (c: char)
    requires
        n < 16,
    ensures
        c == hex_digits()[n as int],
{
    match n {
        0 => '0',
        1 => '1',
        2 => '2',
        3 => '3',
        4 => '4',
        5 => '5',
        6 => '6',
        7 => '7',
        8 => '8',
        9 => '9',
        10 => 'a',
        11 => 'b',
        12 => 'c',
        13 => 'd',
        14 => 'e',
        _ => 'f',
    }
}

proof fn lemma_hex_len(b: Seq<u8>)
    ensures
        hex_of(b).len() == 2 * b.len(),
        forall|i: int| 0 <= i < hex_of(b).len() ==> hex_digits().contains(#[trigger] hex_of(b)[i]),
    decreases b.len(),
{
    if b.len() > 0 {
        lemma_hex_len(b.drop_first());
        let h = hex_of(b);
        assert forall|i: int| 0 <= i < h.len() implies hex_digits().contains(#[trigger] h[i]) by {
            if i == 0 {
                assert(hex_digits()[(b[0] / 16) as int] == h[0]);
            } else if i == 1 {
                assert(hex_digits()[(b[0] % 16) as int] == h[1]);
            } else {
                assert(h[i] == hex_of(b.drop_first())[i - 2]);
            }
        }
    }
}

proof fn lemma_hex_push(b: Seq<u8>, x: u8)
    ensures
        hex_of(b.push(x)) == hex_of(b) + seq![hex_digits()[(x / 16) as int], hex_digits()[(x % 16) as int]],
    decreases b.len(),
{
    if b.len() == 0 {
        assert(b.push(x).drop_first() =~= Seq::<u8>::empty());
        assert(b.push(x)[0] == x);
        assert(hex_of(Seq::<u8>::empty()) =~= Seq::<char>::empty());
        assert(hex_of(b.push(x)) =~= seq![hex_digits()[(x / 16) as int], hex_digits()[(x % 16) as int]]);
    } else {
        assert(b.push(x).drop_first() =~= b.drop_first().push(x));
        lemma_hex_push(b.drop_first(), x);
        assert(hex_of(b.push(x)) =~= hex_of(b) + seq![hex_digits()[(x / 16) as int], hex_digits()[(x % 16) as int]]);
    }
}

/// The fingerprint of a digest: lowercase hex of its first eight bytes.
pub fn fingerprint_from_digest(d: &Vec<u8>) -> (r: String)
    requires
        d@.len() >= 8,
    ensures
        r@ == hex_of(d@.take(8)),
        is_fingerprint(r@),
{
    let mut s = String::new();
    let mut i: usize = 0;
    while i < 8
        invariant
            i <= 8,
            d@.len() >= 8,
            s@ == hex_of(d@.take(i as int)),
        decreases 8 - i,
    {
        let b = d[i];
        push_char(&mut s, hex_char(b / 16));
        push_char(&mut s, hex_char(b % 16));
        proof {
            assert(d@.take(i + 1) =~= d@.take(i as int).push(b));
            lemma_hex_push(d@.take(i as int), b);
            assert(s@ =~= hex_of(d@.take(i + 1)));
        }
        i = i + 1;
    }
    proof {
        lemma_hex_len(d@.take(8));
    }
    s
}

fn text_bytes(s: &str) -> (r: Vec<u8>)
    ensures
        r@ == encode_utf8(s@),
{
    slice_to_vec(s.as_bytes())
}

fn report_type_byte(t: &ReportType) -> (r: u8)
    ensures
        r == report_type_code(*t),
{
    match t {
        ReportType::Agent => 0,
        ReportType::TaxiCompany => 1,
        ReportType::Merchant => 2,
        ReportType::Unknown => 3,
    }
}

fn status_byte(s: &Status) -> (r: u8)
    ensures
        r == status_code(*s),
{
    match s {
        Status::Completed => 0,
        Status::Mistake => 1,
        Status::Created => 2,
        Status::Cancel => 3,
        Status::Null => 4,
        Status::Unknown => 5,
    }
}

fn canonical_dates(from_to: &Vec<(String, String)>) -> (r: Vec<u8>)
    ensures
        r@ == dates_field(from_to.deep_view()),
{
    let ghost src = from_to.deep_view();
    let mut items: Vec<Vec<u8>> = Vec::new();
    let mut i: usize = 0;
    while i < from_to.len()
        invariant
            i <= from_to.len(),
            src == from_to.deep_view(),
            items.len() == i,
            forall|k: int| 0 <= k < i ==> #[trigger] items@[k]@ == date_range_bytes(src[k]),
        decreases from_to.len() - i,
    {
        let pair = vec![text_bytes(from_to[i].0.as_str()), text_bytes(from_to[i].1.as_str())];
        proof {
            assert(byte_views(pair@) =~= seq![encode_utf8(src[i as int].0), encode_utf8(src[i as int].1)]);
        }
        let framed = frame_list(&pair);
        items.push(framed);
        i = i + 1;
    }
    assert(byte_views(items@) =~= src.map_values(|d: (Seq<char>, Seq<char>)| date_range_bytes(d)));
    let sorted = sort_canonical(items);
    frame_list(&sorted)
}

fn canonical_statuses(status: &Vec<Status>) -> (r: Vec<u8>)
    ensures
        r@ == statuses_field(status@),
{
    let mut items: Vec<Vec<u8>> = Vec::new();
    let mut i: usize = 0;
    while i < status.len()
        invariant
            i <= status.len(),
            items.len() == i,
            forall|k: int| 0 <= k < i ==> #[trigger] items@[k]@ == status_bytes(status@[k]),
        decreases status.len() - i,
    {
        let code = vec![status_byte(&status[i])];
        assert(code@ =~= status_bytes(status@[i as int]));
        items.push(code);
        i = i + 1;
    }
    assert(byte_views(items@) =~= status@.map_values(|s: Status| status_bytes(s)));
    let sorted = sort_canonical(items);
    frame_list(&sorted)
}

fn canonical_texts(texts: &Vec<String>) -> (r: Vec<u8>)
    ensures
        r@ == texts_field(texts.deep_view()),
{
    let ghost src = texts.deep_view();
    let mut items: Vec<Vec<u8>> = Vec::new();
    let mut i: usize = 0;
    while i < texts.len()
        invariant
            i <= texts.len(),
            src == texts.deep_view(),
            items.len() == i,
            forall|k: int| 0 <= k < i ==> #[trigger] items@[k]@ == encode_utf8(src[k]),
        decreases texts.len() - i,
    {
        items.push(text_bytes(texts[i].as_str()));
        i = i + 1;
    }
    assert(byte_views(items@) =~= src.map_values(|m: Seq<char>| encode_utf8(m)));
    let sorted = sort_canonical(items);
    frame_list(&sorted)
}

fn canonical_systems(systems: &Vec<Vec<String>>) -> (r: Vec<u8>)
    ensures
        r@ == systems_field(systems.deep_view()),
{
    let ghost src = systems.deep_view();
    let mut items: Vec<Vec<u8>> = Vec::new();
    let mut i: usize = 0;
    while i < systems.len()
        invariant
            i <= systems.len(),
            src == systems.deep_view(),
            items.len() == i,
            forall|k: int| 0 <= k < i ==> #[trigger] items@[k]@ == texts_field(src[k]),
        decreases systems.len() - i,
    {
        items.push(canonical_texts(&systems[i]));
        i = i + 1;
    }
    assert(byte_views(items@) =~= src.map_values(|l: Seq<Seq<char>>| texts_field(l)));
    let sorted = sort_canonical(items);
    frame_list(&sorted)
}

fn canonical_ids(ids: &Vec<u32>) -> (r: Vec<u8>)
    ensures
        r@ == ids_field(ids@),
{
    let mut items: Vec<Vec<u8>> = Vec::new();
    let mut i: usize = 0;
    while i < ids.len()
        invariant
            i <= ids.len(),
            items.len() == i,
            forall|k: int| 0 <= k < i ==> #[trigger] items@[k]@ == id_bytes(ids@[k]),
        decreases ids.len() - i,
    {
        let mut b: Vec<u8> = Vec::new();
        push_le_bytes(&mut b, ids[i] as u64, 4);
        assert(b@ =~= id_bytes(ids@[i as int]));
        items.push(b);
        i = i + 1;
    }
    assert(byte_views(items@) =~= ids@.map_values(|i: u32| id_bytes(i)));
    let sorted = sort_canonical(items);
    frame_list(&sorted)
}

/// The bytes a request's fingerprint digests: every field, each list in
/// canonical order, each item framed by its length.
pub fn digest_input(
    report_type: &ReportType,
    organization_provider_id: &str,
    from_to: &Vec<(String, String)>,
    status: &Vec<Status>,
    modes: &Vec<String>,
    ids: &Vec<u32>,
    payments_system: &Vec<Vec<String>>,
) -> (r: Vec<u8>)
    ensures
        r@ == fingerprint_input(
            *report_type,
            organization_provider_id@,
            from_to.deep_view(),
            status@,
            modes.deep_view(),
            payments_system.deep_view(),
            ids@,
        ),
{
    let kind = vec![report_type_byte(report_type)];
    assert(kind@ =~= seq![report_type_code(*report_type)]);
    let org = text_bytes(organization_provider_id);
    let dates = canonical_dates(from_to);
    let statuses = canonical_statuses(status);
    let mode_list = canonical_texts(modes);
    let systems = canonical_systems(payments_system);
    let id_list = canonical_ids(ids);
    let fields = vec![kind, org, dates, statuses, mode_list, systems, id_list];
    proof {
        assert(byte_views(fields@) =~= seq![
            seq![report_type_code(*report_type)],
            encode_utf8(organization_provider_id@),
            dates_field(from_to.deep_view()),
            statuses_field(status@),
            texts_field(modes.deep_view()),
            systems_field(payments_system.deep_view()),
            ids_field(ids@),
        ]);
    }
    frame_list(&fields)
}

/// The cache key and artifact name of a report request: 16 lowercase hex
/// digits of the MD5 digest of the request's fields, each list put in
/// canonical order first so that the order of sub-filters does not matter.
pub fn create_file_name(
    report_type: &ReportType,
    organization_provider_id: &str,
    from_to: &Vec<(String, String)>,
    status: &Vec<Status>,
    modes: &Vec<String>,
    ids: &Vec<u32>,
    payments_system: &Vec<Vec<String>>,
) -> (r: String)
    ensures
        r@ == fingerprint_of(
            *report_type,
            organization_provider_id@,
            from_to.deep_view(),
            status@,
            modes.deep_view(),
            payments_system.deep_view(),
            ids@,
        ),
        is_fingerprint(r@),
{
    let input = digest_input(report_type, organization_provider_id, from_to, status, modes, ids, payments_system);
    let digest = md5_digest(&input);
    fingerprint_from_digest(&digest)
}

} // verus!
