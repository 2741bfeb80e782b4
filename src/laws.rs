//! Properties of the key layout: decoding inverts encoding, and byte order
//! of keys is the order of identities.
use vstd::prelude::*;
use crate::cell::Cell;
use vstd::utf8::{encode_utf8, encode_utf8_decode_utf8};
use crate::codec::{
    be_bytes, cell_key, encode_key, first_nul_from, is_cell_key, lemma_key_layout, lex_lt, no_nul,
    stored_ts, ts_tail, valid_fields,
};

verus! {

broadcast use vstd::seq::group_seq_axioms;

proof fn lemma_first_nul_unique(k: Seq<u8>, from: int, p: int, q: int)
    requires
        first_nul_from(k, from, p),
        first_nul_from(k, from, q),
    ensures
        p == q,
{
    if p < q {
        assert(k[p] == 0u8);
    } else if q < p {
        assert(k[q] == 0u8);
    }
}

proof fn lemma_be_bytes_injective(x: u64, y: u64)
    requires
        be_bytes(x) == be_bytes(y),
    ensures
        x == y,
{
    let a = be_bytes(x);
    let b = be_bytes(y);
    assert(a[0] == b[0] && a[1] == b[1] && a[2] == b[2] && a[3] == b[3]);
    assert(a[4] == b[4] && a[5] == b[5] && a[6] == b[6] && a[7] == b[7]);
    assert(
        ((x >> 56u64) & 0xffu64) < 256 && ((x >> 48u64) & 0xffu64) < 256 && ((x >> 40u64) & 0xffu64) < 256
            && ((x >> 32u64) & 0xffu64) < 256 && ((x >> 24u64) & 0xffu64) < 256 && ((x >> 16u64)
            & 0xffu64) < 256 && ((x >> 8u64) & 0xffu64) < 256 && ((x >> 0u64) & 0xffu64) < 256
    ) by (bit_vector);
    assert(
        ((y >> 56u64) & 0xffu64) < 256 && ((y >> 48u64) & 0xffu64) < 256 && ((y >> 40u64) & 0xffu64) < 256
            && ((y >> 32u64) & 0xffu64) < 256 && ((y >> 24u64) & 0xffu64) < 256 && ((y >> 16u64)
            & 0xffu64) < 256 && ((y >> 8u64) & 0xffu64) < 256 && ((y >> 0u64) & 0xffu64) < 256
    ) by (bit_vector);
    assert(x == y) by (bit_vector)
        requires
            (x >> 56u64) & 0xffu64 == (y >> 56u64) & 0xffu64,
            (x >> 48u64) & 0xffu64 == (y >> 48u64) & 0xffu64,
            (x >> 40u64) & 0xffu64 == (y >> 40u64) & 0xffu64,
            (x >> 32u64) & 0xffu64 == (y >> 32u64) & 0xffu64,
            (x >> 24u64) & 0xffu64 == (y >> 24u64) & 0xffu64,
            (x >> 16u64) & 0xffu64 == (y >> 16u64) & 0xffu64,
            (x >> 8u64) & 0xffu64 == (y >> 8u64) & 0xffu64,
            (x >> 0u64) & 0xffu64 == (y >> 0u64) & 0xffu64,
    ;
}

proof fn lemma_ts_tail_injective(s: u64, t: u64)
    requires
        ts_tail(s) == ts_tail(t),
    ensures
        s == t,
{
    lemma_be_bytes_injective(!s, !t);
    assert(s == t) by (bit_vector)
        requires
            !s == !t,
    ;
}

proof fn lemma_utf8_injective(a: Seq<char>, b: Seq<char>)
    requires
        encode_utf8(a) == encode_utf8(b),
    ensures
        a == b,
{
    encode_utf8_decode_utf8(a);
    encode_utf8_decode_utf8(b);
}

/// Two identities with valid fields have the same key exactly when they
/// are the same identity, an absent timestamp being the same as zero. So a
/// second write of an identity replaces the first and touches no other.
pub proof fn lemma_key_injective(
    row1: Seq<char>,
    family1: Seq<char>,
    qualifier1: Seq<char>,
    ts1: Option<u64>,
    row2: Seq<char>,
    family2: Seq<char>,
    qualifier2: Seq<char>,
    ts2: Option<u64>,
)
    requires
        valid_fields(row1, family1, qualifier1),
        valid_fields(row2, family2, qualifier2),
    ensures
        cell_key(row1, family1, qualifier1, ts1) == cell_key(row2, family2, qualifier2, ts2) <==> (
        row1 == row2 && family1 == family2 && qualifier1 == qualifier2 && stored_ts(ts1) == stored_ts(ts2)),
{
    let k = cell_key(row1, family1, qualifier1, ts1);
    if k == cell_key(row2, family2, qualifier2, ts2) {
        let (r1, f1, q1) = (encode_utf8(row1), encode_utf8(family1), encode_utf8(qualifier1));
        let (r2, f2, q2) = (encode_utf8(row2), encode_utf8(family2), encode_utf8(qualifier2));
        lemma_key_layout(r1, f1, q1, stored_ts(ts1));
        lemma_key_layout(r2, f2, q2, stored_ts(ts2));
        lemma_first_nul_unique(k, 0, r1.len() as int, r2.len() as int);
        let a = r1.len() as int;
        lemma_first_nul_unique(k, a + 1, a + 1 + f1.len(), a + 1 + f2.len());
        let b = a + 1 + f1.len();
        lemma_first_nul_unique(k, b + 1, b + 1 + q1.len(), b + 1 + q2.len());
        lemma_utf8_injective(row1, row2);
        lemma_utf8_injective(family1, family2);
        lemma_utf8_injective(qualifier1, qualifier2);
        lemma_ts_tail_injective(stored_ts(ts1), stored_ts(ts2));
    }
}

/// Round trip: the key of a valid identity is a cell key, and the only
/// identity it decodes to is the one it was made from, with an absent
/// timestamp read back as zero.
pub proof fn lemma_round_trip(
    row: Seq<char>,
    family: Seq<char>,
    qualifier: Seq<char>,
    ts: Option<u64>,
    row2: Seq<char>,
    family2: Seq<char>,
    qualifier2: Seq<char>,
    ts2: u64,
)
    requires
        valid_fields(row, family, qualifier),
    ensures
        is_cell_key(cell_key(row, family, qualifier, ts)),
        valid_fields(row2, family2, qualifier2) && cell_key(row2, family2, qualifier2, Some(ts2))
            == cell_key(row, family, qualifier, ts) ==> row2 == row && family2 == family && qualifier2
            == qualifier && ts2 == stored_ts(ts),
{
    assert(cell_key(row, family, qualifier, ts) == cell_key(row, family, qualifier, Some(stored_ts(ts))));
    if valid_fields(row2, family2, qualifier2) {
        lemma_key_injective(row, family, qualifier, ts, row2, family2, qualifier2, Some(ts2));
    }
}

proof fn lemma_lex_at(a: Seq<u8>, b: Seq<u8>, k: int)
    requires
        0 <= k < a.len(),
        k < b.len(),
        forall|j: int| 0 <= j < k ==> a[j] == b[j],
        a[k] < b[k],
    ensures
        lex_lt(a, b),
{
    assert(a.subrange(0, k) =~= b.subrange(0, k));
}

proof fn lemma_be_bytes_lt(x: u64, y: u64)
    requires
        x < y,
    ensures
        lex_lt(be_bytes(x), be_bytes(y)),
{
    let a = be_bytes(x);
    let b = be_bytes(y);
    let x0 = (x >> 56u64) & 0xffu64;
    let x1 = (x >> 48u64) & 0xffu64;
    let x2 = (x >> 40u64) & 0xffu64;
    let x3 = (x >> 32u64) & 0xffu64;
    let x4 = (x >> 24u64) & 0xffu64;
    let x5 = (x >> 16u64) & 0xffu64;
    let x6 = (x >> 8u64) & 0xffu64;
    let x7 = (x >> 0u64) & 0xffu64;
    let y0 = (y >> 56u64) & 0xffu64;
    let y1 = (y >> 48u64) & 0xffu64;
    let y2 = (y >> 40u64) & 0xffu64;
    let y3 = (y >> 32u64) & 0xffu64;
    let y4 = (y >> 24u64) & 0xffu64;
    let y5 = (y >> 16u64) & 0xffu64;
    let y6 = (y >> 8u64) & 0xffu64;
    let y7 = (y >> 0u64) & 0xffu64;
    assert(x0 < 256 && x1 < 256 && x2 < 256 && x3 < 256 && x4 < 256 && x5 < 256 && x6 < 256 && x7 < 256) by (bit_vector)
        requires
            x0 == (x >> 56u64) & 0xffu64, x1 == (x >> 48u64) & 0xffu64, x2 == (x >> 40u64) & 0xffu64,
            x3 == (x >> 32u64) & 0xffu64, x4 == (x >> 24u64) & 0xffu64, x5 == (x >> 16u64) & 0xffu64,
            x6 == (x >> 8u64) & 0xffu64, x7 == (x >> 0u64) & 0xffu64,
    ;
    assert(y0 < 256 && y1 < 256 && y2 < 256 && y3 < 256 && y4 < 256 && y5 < 256 && y6 < 256 && y7 < 256) by (bit_vector)
        requires
            y0 == (y >> 56u64) & 0xffu64, y1 == (y >> 48u64) & 0xffu64, y2 == (y >> 40u64) & 0xffu64,
            y3 == (y >> 32u64) & 0xffu64, y4 == (y >> 24u64) & 0xffu64, y5 == (y >> 16u64) & 0xffu64,
            y6 == (y >> 8u64) & 0xffu64, y7 == (y >> 0u64) & 0xffu64,
    ;
    assert(
        x0 < y0 || (x0 == y0 && x1 < y1) || (x0 == y0 && x1 == y1 && x2 < y2)
        || (x0 == y0 && x1 == y1 && x2 == y2 && x3 < y3)
        || (x0 == y0 && x1 == y1 && x2 == y2 && x3 == y3 && x4 < y4)
        || (x0 == y0 && x1 == y1 && x2 == y2 && x3 == y3 && x4 == y4 && x5 < y5)
        || (x0 == y0 && x1 == y1 && x2 == y2 && x3 == y3 && x4 == y4 && x5 == y5 && x6 < y6)
        || (x0 == y0 && x1 == y1 && x2 == y2 && x3 == y3 && x4 == y4 && x5 == y5 && x6 == y6 && x7 < y7)
    ) by (bit_vector)
        requires
            x < y,
            x0 == (x >> 56u64) & 0xffu64, x1 == (x >> 48u64) & 0xffu64, x2 == (x >> 40u64) & 0xffu64,
            x3 == (x >> 32u64) & 0xffu64, x4 == (x >> 24u64) & 0xffu64, x5 == (x >> 16u64) & 0xffu64,
            x6 == (x >> 8u64) & 0xffu64, x7 == (x >> 0u64) & 0xffu64,
            y0 == (y >> 56u64) & 0xffu64, y1 == (y >> 48u64) & 0xffu64, y2 == (y >> 40u64) & 0xffu64,
            y3 == (y >> 32u64) & 0xffu64, y4 == (y >> 24u64) & 0xffu64, y5 == (y >> 16u64) & 0xffu64,
            y6 == (y >> 8u64) & 0xffu64, y7 == (y >> 0u64) & 0xffu64,
    ;
    assert(a[0] == x0 as u8 && a[1] == x1 as u8 && a[2] == x2 as u8 && a[3] == x3 as u8);
    assert(a[4] == x4 as u8 && a[5] == x5 as u8 && a[6] == x6 as u8 && a[7] == x7 as u8);
    assert(b[0] == y0 as u8 && b[1] == y1 as u8 && b[2] == y2 as u8 && b[3] == y3 as u8);
    assert(b[4] == y4 as u8 && b[5] == y5 as u8 && b[6] == y6 as u8 && b[7] == y7 as u8);
    if x0 < y0 {
        lemma_lex_at(a, b, 0);
    } else if x1 < y1 {
        lemma_lex_at(a, b, 1);
    } else if x2 < y2 {
        lemma_lex_at(a, b, 2);
    } else if x3 < y3 {
        lemma_lex_at(a, b, 3);
    } else if x4 < y4 {
        lemma_lex_at(a, b, 4);
    } else if x5 < y5 {
        lemma_lex_at(a, b, 5);
    } else if x6 < y6 {
        lemma_lex_at(a, b, 6);
    } else {
        lemma_lex_at(a, b, 7);
    }
}

proof fn lemma_lex_common_prefix(p: Seq<u8>, a: Seq<u8>, b: Seq<u8>)
    requires
        lex_lt(a, b),
    ensures
        lex_lt(p + a, p + b),
{
    let i = choose|i: int|
        0 <= i <= a.len() && i <= b.len() && #[trigger] a.subrange(0, i) == b.subrange(0, i) && (
        (i < a.len() && i < b.len() && a[i] < b[i]) || (i == a.len() && i < b.len()));
    let k = p.len() + i;
    assert((p + a).subrange(0, k) =~= p + a.subrange(0, i));
    assert((p + b).subrange(0, k) =~= p + b.subrange(0, i));
}

/// Newer versions first: for one row, family and qualifier, a larger
/// timestamp gives a smaller key.
pub proof fn lemma_version_order(row: Seq<char>, family: Seq<char>, qualifier: Seq<char>, t1: u64, t2: u64)
    requires
        t1 > t2,
    ensures
        lex_lt(cell_key(row, family, qualifier, Some(t1)), cell_key(row, family, qualifier, Some(t2))),
{
    assert(!t1 < !t2) by (bit_vector)
        requires
            t1 > t2,
    ;
    lemma_be_bytes_lt(!t1, !t2);
    let p = encode_utf8(row) + seq![0u8] + encode_utf8(family) + seq![0u8] + encode_utf8(qualifier) + seq![0u8];
    lemma_lex_common_prefix(p, ts_tail(t1), ts_tail(t2));
}

/// A cell written without a timestamp sorts after every version of the same
/// row, family and qualifier that has a non-zero timestamp. (A timestamp of
/// zero is stored exactly as an absent one.)
pub proof fn lemma_absent_timestamp_last(row: Seq<char>, family: Seq<char>, qualifier: Seq<char>, t: u64)
    requires
        t > 0,
    ensures
        lex_lt(cell_key(row, family, qualifier, Some(t)), cell_key(row, family, qualifier, None)),
{
    lemma_version_order(row, family, qualifier, t, 0);
    assert(cell_key(row, family, qualifier, None) == cell_key(row, family, qualifier, Some(0u64)));
}

/// A NUL-terminated field decides the order of what it starts when its
/// bytes sort first, whatever follows.
proof fn lemma_delimited_order(fa: Seq<u8>, fb: Seq<u8>, sa: Seq<u8>, sb: Seq<u8>)
    requires
        no_nul(fb),
        lex_lt(fa, fb),
    ensures
        lex_lt(fa + seq![0u8] + sa, fb + seq![0u8] + sb),
{
    let ka = fa + seq![0u8] + sa;
    let kb = fb + seq![0u8] + sb;
    let i = choose|i: int|
        0 <= i <= fa.len() && i <= fb.len() && #[trigger] fa.subrange(0, i) == fb.subrange(0, i) && (
        (i < fa.len() && i < fb.len() && fa[i] < fb[i]) || (i == fa.len() && i < fb.len()));
    assert forall|j: int| 0 <= j < i implies ka[j] == kb[j] by {
        assert(fa.subrange(0, i)[j] == fb.subrange(0, i)[j]);
    }
    if i < fa.len() {
        lemma_lex_at(ka, kb, i);
    } else {
        assert(ka[i] == 0u8);
        assert(kb[i] == fb[i]);
        lemma_lex_at(ka, kb, i);
    }
}

/// Rows in order: when the bytes of row key `a` sort before those of `b`,
/// every key of `a` sorts before every key of `b`.
pub proof fn lemma_row_order(
    a: Seq<char>,
    family1: Seq<char>,
    qualifier1: Seq<char>,
    ts1: Option<u64>,
    b: Seq<char>,
    family2: Seq<char>,
    qualifier2: Seq<char>,
    ts2: Option<u64>,
)
    requires
        valid_fields(a, family1, qualifier1),
        valid_fields(b, family2, qualifier2),
        lex_lt(encode_utf8(a), encode_utf8(b)),
    ensures
        lex_lt(cell_key(a, family1, qualifier1, ts1), cell_key(b, family2, qualifier2, ts2)),
{
    let sa = encode_utf8(family1) + seq![0u8] + encode_utf8(qualifier1) + seq![0u8] + ts_tail(stored_ts(ts1));
    let sb = encode_utf8(family2) + seq![0u8] + encode_utf8(qualifier2) + seq![0u8] + ts_tail(stored_ts(ts2));
    assert(cell_key(a, family1, qualifier1, ts1) =~= encode_utf8(a) + seq![0u8] + sa);
    assert(cell_key(b, family2, qualifier2, ts2) =~= encode_utf8(b) + seq![0u8] + sb);
    lemma_delimited_order(encode_utf8(a), encode_utf8(b), sa, sb);
}

/// Families in order: within one row, when the bytes of family `f1` sort
/// before those of `f2`, every key of `f1` sorts before every key of `f2`.
pub proof fn lemma_family_order(
    row: Seq<char>,
    f1: Seq<char>,
    qualifier1: Seq<char>,
    ts1: Option<u64>,
    f2: Seq<char>,
    qualifier2: Seq<char>,
    ts2: Option<u64>,
)
    requires
        valid_fields(row, f1, qualifier1),
        valid_fields(row, f2, qualifier2),
        lex_lt(encode_utf8(f1), encode_utf8(f2)),
    ensures
        lex_lt(cell_key(row, f1, qualifier1, ts1), cell_key(row, f2, qualifier2, ts2)),
{
    let p = encode_utf8(row) + seq![0u8];
    let sa = encode_utf8(qualifier1) + seq![0u8] + ts_tail(stored_ts(ts1));
    let sb = encode_utf8(qualifier2) + seq![0u8] + ts_tail(stored_ts(ts2));
    lemma_delimited_order(encode_utf8(f1), encode_utf8(f2), sa, sb);
    lemma_lex_common_prefix(p, encode_utf8(f1) + seq![0u8] + sa, encode_utf8(f2) + seq![0u8] + sb);
    assert(cell_key(row, f1, qualifier1, ts1) =~= p + (encode_utf8(f1) + seq![0u8] + sa));
    assert(cell_key(row, f2, qualifier2, ts2) =~= p + (encode_utf8(f2) + seq![0u8] + sb));
}

/// Qualifiers in order: within one row and family, when the bytes of
/// qualifier `q1` sort before those of `q2`, every version of `q1` sorts
/// before every version of `q2`.
pub proof fn lemma_qualifier_order(
    row: Seq<char>,
    family: Seq<char>,
    q1: Seq<char>,
    ts1: Option<u64>,
    q2: Seq<char>,
    ts2: Option<u64>,
)
    requires
        valid_fields(row, family, q1),
        valid_fields(row, family, q2),
        lex_lt(encode_utf8(q1), encode_utf8(q2)),
    ensures
        lex_lt(cell_key(row, family, q1, ts1), cell_key(row, family, q2, ts2)),
{
    let p = encode_utf8(row) + seq![0u8] + encode_utf8(family) + seq![0u8];
    let sa = ts_tail(stored_ts(ts1));
    let sb = ts_tail(stored_ts(ts2));
    lemma_delimited_order(encode_utf8(q1), encode_utf8(q2), sa, sb);
    lemma_lex_common_prefix(p, encode_utf8(q1) + seq![0u8] + sa, encode_utf8(q2) + seq![0u8] + sb);
    assert(cell_key(row, family, q1, ts1) =~= p + (encode_utf8(q1) + seq![0u8] + sa));
    assert(cell_key(row, family, q2, ts2) =~= p + (encode_utf8(q2) + seq![0u8] + sb));
}

/// Row prefix: the keys that start with the bytes of `r` and a NUL are
/// exactly the keys of row `r`.
pub proof fn lemma_row_prefix(r: Seq<char>, row: Seq<char>, family: Seq<char>, qualifier: Seq<char>, ts: Option<u64>)
    requires
        no_nul(encode_utf8(r)),
        valid_fields(row, family, qualifier),
    ensures
        (encode_utf8(r) + seq![0u8]).is_prefix_of(cell_key(row, family, qualifier, ts)) <==> row == r,
{
    let p = encode_utf8(r) + seq![0u8];
    let k = cell_key(row, family, qualifier, ts);
    let rb = encode_utf8(row);
    lemma_key_layout(rb, encode_utf8(family), encode_utf8(qualifier), stored_ts(ts));
    if row == r {
        assert(k.subrange(0, p.len() as int) =~= p);
    }
    if p.is_prefix_of(k) {
        let n = encode_utf8(r).len() as int;
        assert(first_nul_from(k, 0, n)) by {
            assert(k[n] == p[n]);
            assert forall|j: int| 0 <= j < n implies k[j] != 0u8 by {
                assert(k[j] == p[j]);
            }
        }
        lemma_first_nul_unique(k, 0, n, rb.len() as int);
        assert(rb =~= encode_utf8(r)) by {
            assert forall|j: int| 0 <= j < n implies rb[j] == encode_utf8(r)[j] by {
                assert(k[j] == p[j]);
                assert(k.subrange(0, n)[j] == rb[j]);
            }
        }
        lemma_utf8_injective(row, r);
    }
}

/// Family prefix: the keys that start with the bytes of row `r`, a NUL,
/// the bytes of family `f` and a NUL are exactly keys of row `r` and
/// family `f`.
pub proof fn lemma_family_prefix(
    r: Seq<char>,
    f: Seq<char>,
    row: Seq<char>,
    family: Seq<char>,
    qualifier: Seq<char>,
    ts: Option<u64>,
)
    requires
        no_nul(encode_utf8(r)),
        no_nul(encode_utf8(f)),
        valid_fields(row, family, qualifier),
    ensures
        (encode_utf8(r) + seq![0u8] + encode_utf8(f) + seq![0u8]).is_prefix_of(cell_key(row, family, qualifier, ts))
            <==> row == r && family == f,
{
    let p0 = encode_utf8(r) + seq![0u8];
    let p = p0 + encode_utf8(f) + seq![0u8];
    let k = cell_key(row, family, qualifier, ts);
    let rb = encode_utf8(row);
    let fb = encode_utf8(family);
    lemma_key_layout(rb, fb, encode_utf8(qualifier), stored_ts(ts));
    lemma_row_prefix(r, row, family, qualifier, ts);
    if row == r && family == f {
        assert(k.subrange(0, p.len() as int) =~= p);
    }
    if p.is_prefix_of(k) {
        assert(p0.is_prefix_of(k)) by {
            assert(k.subrange(0, p0.len() as int) =~= p0) by {
                assert forall|j: int| 0 <= j < p0.len() implies k[j] == p0[j] by {
                    assert(k[j] == p[j]);
                }
            }
        }
        let n = encode_utf8(r).len() as int;
        let m = encode_utf8(f).len() as int;
        assert(first_nul_from(k, n + 1, n + 1 + m)) by {
            assert(k[n + 1 + m] == p[n + 1 + m]);
            assert forall|j: int| n + 1 <= j < n + 1 + m implies k[j] != 0u8 by {
                assert(k[j] == p[j]);
                assert(p[j] == encode_utf8(f)[j - n - 1]);
            }
        }
        lemma_first_nul_unique(k, n + 1, n + 1 + m, n + 1 + fb.len());
        assert(fb =~= encode_utf8(f)) by {
            assert forall|j: int| 0 <= j < m implies fb[j] == encode_utf8(f)[j] by {
                assert(k[n + 1 + j] == p[n + 1 + j]);
                assert(k.subrange(n + 1, n + 1 + fb.len())[j] == fb[j]);
            }
        }
        lemma_utf8_injective(family, f);
    }
}

/// Row scan: every cell of a read whose keys all start with the bytes of
/// `r` and a NUL belongs to row `r`.
pub proof fn lemma_row_scan(r: Seq<char>, cells: Seq<Cell>)
    requires
        no_nul(encode_utf8(r)),
        forall|i: int| 0 <= i < cells.len() ==> (encode_utf8(r) + seq![0u8]).is_prefix_of(#[trigger] cells[i].raw_key()),
        forall|i: int| 0 <= i < cells.len() ==> {
            &&& valid_fields(#[trigger] cells[i]@.row_key, cells[i]@.column_family, cells[i]@.column_qualifier)
            &&& cells[i].raw_key() == cell_key(cells[i]@.row_key, cells[i]@.column_family, cells[i]@.column_qualifier, Some(cells[i]@.timestamp))
        },
    ensures
        forall|i: int| 0 <= i < cells.len() ==> (#[trigger] cells[i])@.row_key == r,
{
    assert forall|i: int| 0 <= i < cells.len() implies (#[trigger] cells[i])@.row_key == r by {
        let c = cells[i]@;
        assert(valid_fields(c.row_key, c.column_family, c.column_qualifier));
        lemma_row_prefix(r, c.row_key, c.column_family, c.column_qualifier, Some(c.timestamp));
    }
}

} // verus!
