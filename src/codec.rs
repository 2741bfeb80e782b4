//! The physical key layout of a cell and its ordering properties.
//!
//! A key is `row 0x00 family 0x00 qualifier 0x00 tail`, where the tail is
//! the big-endian form of the bitwise complement of the timestamp. An
//! absent timestamp counts as zero.
use vstd::prelude::*;
use vstd::utf8::*;
use crate::error::CellError;

verus! {

broadcast use vstd::seq::group_seq_axioms;

/// `s` holds no NUL byte.
pub open spec fn no_nul(s: Seq<u8>) -> bool {
    forall|i: int| 0 <= i < s.len() ==> s[i] != 0u8
}

/// Byte `i` (0 = most significant) of the big-endian form of `x`.
pub open spec fn be_byte(x: u64, i: int) -> u8 {
    ((x >> ((7 - i) * 8) as u64) & 0xffu64) as u8
}

/// The eight big-endian bytes of `x`.
pub open spec fn be_bytes(x: u64) -> Seq<u8> {
    Seq::new(8, |i: int| be_byte(x, i))
}

/// The key tail of a timestamp: the complement of `ts`, big-endian.
pub open spec fn ts_tail(ts: u64) -> Seq<u8> {
    be_bytes(!ts)
}

/// The physical key of a cell, over the byte forms of its text fields.
pub open spec fn encode_key(row: Seq<u8>, family: Seq<u8>, qualifier: Seq<u8>, ts: u64) -> Seq<u8> {
    row + seq![0u8] + family + seq![0u8] + qualifier + seq![0u8] + ts_tail(ts)
}

/// The timestamp that is stored for an optional timestamp.
pub open spec fn stored_ts(ts: Option<u64>) -> u64 {
    match ts {
        Some(t) => t,
        None => 0,
    }
}

/// The physical key of a cell identity given as text.
pub open spec fn cell_key(row: Seq<char>, family: Seq<char>, qualifier: Seq<char>, ts: Option<u64>) -> Seq<u8> {
    encode_key(encode_utf8(row), encode_utf8(family), encode_utf8(qualifier), stored_ts(ts))
}

/// The three text fields of an identity may be used in a key.
pub open spec fn valid_fields(row: Seq<char>, family: Seq<char>, qualifier: Seq<char>) -> bool {
    no_nul(encode_utf8(row)) && no_nul(encode_utf8(family)) && no_nul(encode_utf8(qualifier))
}

/// `k` is the key of some valid identity.
pub open spec fn is_cell_key(k: Seq<u8>) -> bool {
    exists|row: Seq<char>, family: Seq<char>, qualifier: Seq<char>, ts: u64|
        valid_fields(row, family, qualifier) && k == #[trigger] cell_key(row, family, qualifier, Some(ts))
}

/// Strict lexicographic order on byte strings.
pub open spec fn lex_lt(a: Seq<u8>, b: Seq<u8>) -> bool {
    exists|i: int|
        0 <= i <= a.len() && i <= b.len() && #[trigger] a.subrange(0, i) == b.subrange(0, i) && (
        (i < a.len() && i < b.len() && a[i] < b[i]) || (i == a.len() && i < b.len()))
}


/// Appends `field` and a NUL delimiter to `buf`, unless `field` holds a NUL.
fn push_field(buf: &mut Vec<u8>, field: &[u8]) -> (ok: bool)
    ensures
        ok == no_nul(field@),
        ok ==> final(buf)@ == old(buf)@ + field@ + seq![0u8],
{
    let mut i: usize = 0;
    while i < field.len()
        invariant
            i <= field@.len(),
            forall|j: int| 0 <= j < i ==> field@[j] != 0u8,
            buf@ == old(buf)@ + field@.subrange(0, i as int),
        decreases field@.len() - i,
    {
        let b = field[i];
        if b == 0u8 {
            return false;
        }
        buf.push(b);
        i = i + 1;
        assert(buf@ =~= old(buf)@ + field@.subrange(0, i as int));
    }
    assert(field@.subrange(0, i as int) =~= field@);
    buf.push(0u8);
    assert(buf@ =~= old(buf)@ + field@ + seq![0u8]);
    true
}

/// Appends the key tail of `ts` to `buf`.
fn push_tail(buf: &mut Vec<u8>, ts: u64)
    ensures
        final(buf)@ == old(buf)@ + ts_tail(ts),
{
    let c: u64 = !ts;
    buf.push(((c >> 56u64) & 0xffu64) as u8);
    buf.push(((c >> 48u64) & 0xffu64) as u8);
    buf.push(((c >> 40u64) & 0xffu64) as u8);
    buf.push(((c >> 32u64) & 0xffu64) as u8);
    buf.push(((c >> 24u64) & 0xffu64) as u8);
    buf.push(((c >> 16u64) & 0xffu64) as u8);
    buf.push(((c >> 8u64) & 0xffu64) as u8);
    buf.push((c & 0xffu64) as u8);
    assert(c & 0xffu64 == (c >> 0u64) & 0xffu64) by (bit_vector);
    assert(buf@ =~= old(buf)@ + ts_tail(ts));
}

/// Builds the physical key of a cell identity.
///
/// Fails with [`CellError::Validation`] exactly when one of the three text
/// fields holds a NUL byte; an absent timestamp is stored as zero.
pub fn serialize_cell_key(row_key: &str, col_family: &str, col_qual: &str, ts: Option<u64>) -> (r: Result<Vec<u8>, CellError>)
    ensures
        r is Ok <==> valid_fields(row_key@, col_family@, col_qual@),
        r matches Ok(k) ==> k@ == cell_key(row_key@, col_family@, col_qual@, ts),
        r matches Err(e) ==> e is Validation,
{
    let size = row_key.len().saturating_add(col_family.len()).saturating_add(col_qual.len()).saturating_add(11);
    let mut key: Vec<u8> = Vec::with_capacity(size);
    if !push_field(&mut key, row_key.as_bytes()) {
        return Err(CellError::Validation);
    }
    if !push_field(&mut key, col_family.as_bytes()) {
        return Err(CellError::Validation);
    }
    if !push_field(&mut key, col_qual.as_bytes()) {
        return Err(CellError::Validation);
    }
    let t: u64 = match ts {
        Some(t) => t,
        None => 0,
    };
    push_tail(&mut key, t);
    Ok(key)
}


/// `p` is the first NUL at or after `from` in `k`, or `k.len()` if none.
pub open spec fn first_nul_from(k: Seq<u8>, from: int, p: int) -> bool {
    &&& from <= p <= k.len()
    &&& forall|j: int| from <= j < p ==> k[j] != 0u8
    &&& p < k.len() ==> k[p] == 0u8
}

/// Where the fields and delimiters of an encoded key stand.
pub proof fn lemma_key_layout(row: Seq<u8>, family: Seq<u8>, qualifier: Seq<u8>, ts: u64)
    requires
        no_nul(row),
        no_nul(family),
        no_nul(qualifier),
    ensures
        ({
            let k = encode_key(row, family, qualifier, ts);
            let a = row.len() as int;
            let b = a + 1 + family.len();
            let c = b + 1 + qualifier.len();
            &&& k.len() == c + 9
            &&& k.subrange(0, a) == row
            &&& k.subrange(a + 1, b) == family
            &&& k.subrange(b + 1, c) == qualifier
            &&& k.subrange(c + 1, c + 9) == ts_tail(ts)
            &&& first_nul_from(k, 0, a)
            &&& first_nul_from(k, a + 1, b)
            &&& first_nul_from(k, b + 1, c)
        }),
{
    let k = encode_key(row, family, qualifier, ts);
    let a = row.len() as int;
    let b = a + 1 + family.len();
    let c = b + 1 + qualifier.len();
    assert(k.subrange(0, a) =~= row);
    assert(k.subrange(a + 1, b) =~= family);
    assert(k.subrange(b + 1, c) =~= qualifier);
    assert(k.subrange(c + 1, c + 9) =~= ts_tail(ts));
    assert forall|j: int| 0 <= j < a implies k[j] != 0u8 by {
        assert(k[j] == row[j]);
    }
    assert forall|j: int| a + 1 <= j < b implies k[j] != 0u8 by {
        assert(k[j] == family[j - a - 1]);
    }
    assert forall|j: int| b + 1 <= j < c implies k[j] != 0u8 by {
        assert(k[j] == qualifier[j - b - 1]);
    }
}

/// Picks an identity whose key is `k`.
pub proof fn lemma_cell_key_witness(k: Seq<u8>) -> (parts: (Seq<char>, Seq<char>, Seq<char>, u64))
    requires
        is_cell_key(k),
    ensures
        valid_fields(parts.0, parts.1, parts.2),
        k == cell_key(parts.0, parts.1, parts.2, Some(parts.3)),
{
    choose|row: Seq<char>, family: Seq<char>, qualifier: Seq<char>, ts: u64|
        valid_fields(row, family, qualifier) && k == #[trigger] cell_key(row, family, qualifier, Some(ts))
}

/// In a cell key, the first three NULs end the three text fields, and
/// exactly the tail follows the third one.
pub proof fn lemma_cell_key_nuls(k: Seq<u8>, row_end: int, family_end: int, qualifier_end: int)
    requires
        is_cell_key(k),
        first_nul_from(k, 0, row_end),
        row_end < k.len() ==> first_nul_from(k, row_end + 1, family_end),
        row_end < k.len() && family_end < k.len() ==> first_nul_from(k, family_end + 1, qualifier_end),
    ensures
        row_end < k.len(),
        family_end < k.len(),
        qualifier_end + 9 == k.len(),
        valid_utf8(k.subrange(0, row_end)),
        valid_utf8(k.subrange(row_end + 1, family_end)),
        valid_utf8(k.subrange(family_end + 1, qualifier_end)),
{
    broadcast use encode_utf8_valid_utf8;
    let parts = lemma_cell_key_witness(k);
    let row = encode_utf8(parts.0);
    let family = encode_utf8(parts.1);
    let qualifier = encode_utf8(parts.2);
    lemma_key_layout(row, family, qualifier, parts.3);
}

} // verus!
