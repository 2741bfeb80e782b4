//! Read-only views of stored cells.
use vstd::prelude::*;
use vstd::utf8::*;
use vstd::slice::slice_subrange;
use crate::codec::{encode_key, first_nul_from, is_cell_key, cell_key, no_nul, ts_tail, valid_fields, lemma_cell_key_nuls};
use crate::error::CellError;
use crate::domain::{chars_of, string_of};

verus! {

broadcast use {vstd::seq::group_seq_axioms, vstd::utf8::encode_utf8_decode_utf8};

/// Relies on `std::str::from_utf8`: it accepts exactly the valid UTF-8
/// byte strings and returns a view of the same bytes.
#[verifier::external_body]
fn utf8_str<'a>(b: &'a [u8]) -> (r: Option<&'a str>)
    ensures
        r is Some <==> valid_utf8(b@),
        r matches Some(s) ==> encode_utf8(s@) == b@,
{
    std::str::from_utf8(b).ok()
}

/// An immutable, shared byte buffer of the store.
#[verifier::external_type_specification]
#[verifier::external_body]
pub struct ExSlice(fjall::Slice);

/// The bytes held by a store buffer.
pub uninterp spec fn slice_contents(s: fjall::Slice) -> Seq<u8>;

/// Relies on `fjall::Slice`'s `AsRef<[u8]>`: a view of the bytes it holds,
/// without a copy.
#[verifier::external_body]
pub(crate) fn slice_bytes(s: &fjall::Slice) -> (r: &[u8])
    ensures
        r@ == slice_contents(*s),
{
    s.as_ref()
}

/// What `String::from_utf8_lossy` returns for `b`.
pub uninterp spec fn lossy_of(b: Seq<u8>) -> Seq<char>;

/// Relies on `String::from_utf8_lossy`: `b` read as UTF-8, each invalid
/// sequence replaced by U+FFFD; valid UTF-8 is read as it is.
#[verifier::external_body]
fn lossy_text(b: &[u8]) -> (r: String)
    ensures
        r@ == lossy_of(b@),
        valid_utf8(b@) ==> r@ == decode_utf8(b@),
{
    String::from_utf8_lossy(b).into_owned()
}

/// What the `Debug` form of a `str` holding `s` is.
pub uninterp spec fn debug_quoted_of(s: Seq<char>) -> Seq<char>;

/// Relies on `<str as Debug>::fmt`: `s` in double quotes, with quotes,
/// backslashes and control characters escaped.
#[verifier::external_body]
fn debug_quoted(s: &str) -> (r: String)
    ensures
        r@ == debug_quoted_of(s@),
{
    format!("{:?}", s)
}

/// The decimal digit `d` as a character.
pub open spec fn digit_char(d: int) -> char {
    if d == 0 { '0' }
    else if d == 1 { '1' }
    else if d == 2 { '2' }
    else if d == 3 { '3' }
    else if d == 4 { '4' }
    else if d == 5 { '5' }
    else if d == 6 { '6' }
    else if d == 7 { '7' }
    else if d == 8 { '8' }
    else { '9' }
}

/// `n` written in decimal, without leading zeros.
pub open spec fn decimal_of(n: nat) -> Seq<char>
    decreases n,
{
    if n < 10 {
        seq![digit_char(n as int)]
    } else {
        decimal_of(n / 10).push(digit_char((n % 10) as int))
    }
}

fn digit(d: u64) -> (c: char)
    requires
        d < 10,
    ensures
        c == digit_char(d as int),
{
    if d == 0 { '0' }
    else if d == 1 { '1' }
    else if d == 2 { '2' }
    else if d == 3 { '3' }
    else if d == 4 { '4' }
    else if d == 5 { '5' }
    else if d == 6 { '6' }
    else if d == 7 { '7' }
    else if d == 8 { '8' }
    else { '9' }
}

/// Appends `n` in decimal to `out`.
fn push_decimal(out: &mut Vec<char>, n: u64)
    ensures
        final(out)@ == old(out)@ + decimal_of(n as nat),
    decreases n,
{
    if n >= 10 {
        push_decimal(out, n / 10);
    }
    out.push(digit(n % 10));
}

/// The one-line rendering of a cell: `row@family:qualifier?ts => "text"`,
/// where the text is the shown part of the value, read as UTF-8 with
/// invalid sequences replaced, and quoted as by `Debug`.
pub open spec fn cell_line(row: Seq<char>, family: Seq<char>, qualifier: Seq<char>, ts: u64, shown: Seq<u8>) -> Seq<char> {
    row + seq!['@'] + family + seq![':'] + qualifier + seq!['?'] + decimal_of(ts as nat) + seq![' ', '=', '>', ' ']
        + debug_quoted_of(lossy_of(shown))
}

/// The most value bytes that [`Cell::describe`] shows.
pub const SHOWN_VALUE_LEN: usize = 50;

/// The decoded content of a cell.
pub struct CellView {
    pub row_key: Seq<char>,
    pub column_family: Seq<char>,
    pub column_qualifier: Seq<char>,
    pub timestamp: u64,
    pub value: Seq<u8>,
}

/// One stored key/value pair, read as a cell.
///
/// The view keeps the store's own key and value buffers and hands out
/// slices of them, copying nothing; the positions of the three text fields
/// are found once, when it is made.
pub struct Cell {
    key: fjall::Slice,
    value: fjall::Slice,
    family_start: usize,
    qualifier_start: usize,
    tail_start: usize,
    timestamp: u64,
}

impl Cell {
    spec fn row_bytes(&self) -> Seq<u8> {
        slice_contents(self.key).subrange(0, self.family_start - 1)
    }

    spec fn family_bytes(&self) -> Seq<u8> {
        slice_contents(self.key).subrange(self.family_start as int, self.qualifier_start - 1)
    }

    spec fn qualifier_bytes(&self) -> Seq<u8> {
        slice_contents(self.key).subrange(self.qualifier_start as int, self.tail_start - 1)
    }

    #[verifier::type_invariant]
    spec fn inv(&self) -> bool {
        &&& 0 < self.family_start < self.qualifier_start < self.tail_start
        &&& self.tail_start + 8 == slice_contents(self.key).len()
        &&& no_nul(self.row_bytes())
        &&& no_nul(self.family_bytes())
        &&& no_nul(self.qualifier_bytes())
        &&& valid_utf8(self.row_bytes())
        &&& valid_utf8(self.family_bytes())
        &&& valid_utf8(self.qualifier_bytes())
        &&& slice_contents(self.key) == encode_key(
            self.row_bytes(),
            self.family_bytes(),
            self.qualifier_bytes(),
            self.timestamp,
        )
    }

    /// The stored key this cell was read from.
    pub closed spec fn raw_key(&self) -> Seq<u8> {
        slice_contents(self.key)
    }
}

impl View for Cell {
    type V = CellView;

    closed spec fn view(&self) -> CellView {
        CellView {
            row_key: decode_utf8(self.row_bytes()),
            column_family: decode_utf8(self.family_bytes()),
            column_qualifier: decode_utf8(self.qualifier_bytes()),
            timestamp: self.timestamp,
            value: slice_contents(self.value),
        }
    }
}

/// The position of the first NUL at or after `from` in `k`, or `k.len()`.
fn find_nul(k: &[u8], from: usize) -> (p: usize)
    requires
        from <= k@.len(),
    ensures
        first_nul_from(k@, from as int, p as int),
{
    let mut p: usize = from;
    while p < k.len()
        invariant
            from <= p <= k@.len(),
            forall|j: int| from <= j < p ==> k@[j] != 0u8,
        decreases k@.len() - p,
    {
        if k[p] == 0u8 {
            return p;
        }
        p = p + 1;
    }
    p
}

/// Reads the timestamp from the eight tail bytes that start at `at`.
fn read_tail(k: &[u8], at: usize) -> (t: u64)
    requires
        at + 8 == k@.len(),
    ensures
        ts_tail(t) == k@.subrange(at as int, k@.len() as int),
{
    let b0 = k[at] as u64;
    let b1 = k[at + 1] as u64;
    let b2 = k[at + 2] as u64;
    let b3 = k[at + 3] as u64;
    let b4 = k[at + 4] as u64;
    let b5 = k[at + 5] as u64;
    let b6 = k[at + 6] as u64;
    let b7 = k[at + 7] as u64;
    let c: u64 = (b0 << 56u64) | (b1 << 48u64) | (b2 << 40u64) | (b3 << 32u64) | (b4 << 24u64)
        | (b5 << 16u64) | (b6 << 8u64) | b7;
    let t: u64 = !c;
    assert(!t == c) by (bit_vector)
        requires
            t == !c,
    ;
    assert(
        (c >> 56u64) & 0xffu64 == b0 && (c >> 48u64) & 0xffu64 == b1 && (c >> 40u64) & 0xffu64 == b2
            && (c >> 32u64) & 0xffu64 == b3 && (c >> 24u64) & 0xffu64 == b4 && (c >> 16u64) & 0xffu64
            == b5 && (c >> 8u64) & 0xffu64 == b6 && (c >> 0u64) & 0xffu64 == b7
    ) by (bit_vector)
        requires
            c == (b0 << 56u64) | (b1 << 48u64) | (b2 << 40u64) | (b3 << 32u64) | (b4 << 24u64) | (b5
                << 16u64) | (b6 << 8u64) | b7,
            b0 < 256,
            b1 < 256,
            b2 < 256,
            b3 < 256,
            b4 < 256,
            b5 < 256,
            b6 < 256,
            b7 < 256,
    ;
    assert(ts_tail(t) =~= k@.subrange(at as int, k@.len() as int));
    t
}

impl Cell {
    /// Reads a stored key/value pair as a cell.
    ///
    /// Succeeds exactly when `key` is the key of a valid cell identity;
    /// otherwise the pair is reported as corrupt.
    #[verifier::rlimit(40)]
    pub fn decode(key: fjall::Slice, value: fjall::Slice) -> (r: Result<Cell, CellError>)
        ensures
            r is Ok <==> is_cell_key(slice_contents(key)),
            r matches Ok(c) ==> {
                &&& c.raw_key() == slice_contents(key)
                &&& c@.value == slice_contents(value)
                &&& valid_fields(c@.row_key, c@.column_family, c@.column_qualifier)
                &&& slice_contents(key) == cell_key(c@.row_key, c@.column_family, c@.column_qualifier, Some(c@.timestamp))
            },
            r matches Err(e) ==> e is Corruption,
    {
        let k = slice_bytes(&key);
        let ghost kv = slice_contents(key);
        let len = k.len();
        let row_end = find_nul(k, 0);
        if row_end == len {
            proof {
                if is_cell_key(kv) {
                    lemma_cell_key_nuls(kv, row_end as int, 0, 0);
                }
            }
            return Err(CellError::Corruption);
        }
        let family_end = find_nul(k, row_end + 1);
        if family_end == len {
            proof {
                if is_cell_key(kv) {
                    lemma_cell_key_nuls(kv, row_end as int, family_end as int, 0);
                }
            }
            return Err(CellError::Corruption);
        }
        let qualifier_end = find_nul(k, family_end + 1);
        if qualifier_end == len || len - qualifier_end != 9 {
            proof {
                if is_cell_key(kv) {
                    lemma_cell_key_nuls(kv, row_end as int, family_end as int, qualifier_end as int);
                }
            }
            return Err(CellError::Corruption);
        }
        let row_ok = utf8_str(slice_subrange(k, 0, row_end)).is_some();
        let family_ok = utf8_str(slice_subrange(k, row_end + 1, family_end)).is_some();
        let qualifier_ok = utf8_str(slice_subrange(k, family_end + 1, qualifier_end)).is_some();
        if !(row_ok && family_ok && qualifier_ok) {
            proof {
                if is_cell_key(kv) {
                    lemma_cell_key_nuls(kv, row_end as int, family_end as int, qualifier_end as int);
                }
            }
            return Err(CellError::Corruption);
        }
        let timestamp = read_tail(k, qualifier_end + 1);
        let ghost row = kv.subrange(0, row_end as int);
        let ghost family = kv.subrange(row_end + 1, family_end as int);
        let ghost qualifier = kv.subrange(family_end + 1, qualifier_end as int);
        proof {
            assert(kv =~= encode_key(row, family, qualifier, timestamp));
            decode_utf8_encode_utf8(row);
            decode_utf8_encode_utf8(family);
            decode_utf8_encode_utf8(qualifier);
            assert(valid_fields(decode_utf8(row), decode_utf8(family), decode_utf8(qualifier)));
            assert(kv == cell_key(decode_utf8(row), decode_utf8(family), decode_utf8(qualifier), Some(timestamp)));
        }
        let c = Cell {
            key,
            value,
            family_start: row_end + 1,
            qualifier_start: family_end + 1,
            tail_start: qualifier_end + 1,
            timestamp,
        };
        Ok(c)
    }

    /// A one-line rendering of the cell for display; of the value, only the
    /// first 50 bytes are shown.
    pub fn describe(&self) -> (r: String)
        ensures
            r@ == cell_line(
                self@.row_key,
                self@.column_family,
                self@.column_qualifier,
                self@.timestamp,
                self@.value.take(if self@.value.len() > SHOWN_VALUE_LEN { SHOWN_VALUE_LEN as int } else { self@.value.len() as int }),
            ),
    {
        let value = self.value();
        let n: usize = if value.len() > SHOWN_VALUE_LEN { SHOWN_VALUE_LEN } else { value.len() };
        let shown = slice_subrange(value, 0, n);
        assert(shown@ =~= self@.value.take(n as int));
        let text = lossy_text(shown);
        let quoted = debug_quoted(text.as_str());
        let mut out = chars_of(self.row_key());
        out.push('@');
        let mut part = chars_of(self.column_family());
        out.append(&mut part);
        out.push(':');
        let mut part = chars_of(self.column_qualifier());
        out.append(&mut part);
        out.push('?');
        push_decimal(&mut out, self.timestamp());
        out.push(' ');
        out.push('=');
        out.push('>');
        out.push(' ');
        let mut part = chars_of(quoted.as_str());
        out.append(&mut part);
        string_of(&out)
    }

    /// The value bytes of the cell.
    pub fn value(&self) -> (r: &[u8])
        ensures
            r@ == self@.value,
    {
        slice_bytes(&self.value)
    }

    /// The timestamp of the cell; one written without a timestamp reads as zero.
    pub fn timestamp(&self) -> (r: u64)
        ensures
            r == self@.timestamp,
    {
        self.timestamp
    }

    /// The column family of the cell.
    pub fn column_family(&self) -> (r: &str)
        ensures
            r@ == self@.column_family,
    {
        proof {
            use_type_invariant(self);
        }
        match utf8_str(slice_subrange(slice_bytes(&self.key), self.family_start, self.qualifier_start - 1)) {
            Some(s) => s,
            None => "",
        }
    }

    /// The column qualifier of the cell.
    pub fn column_qualifier(&self) -> (r: &str)
        ensures
            r@ == self@.column_qualifier,
    {
        proof {
            use_type_invariant(self);
        }
        match utf8_str(slice_subrange(slice_bytes(&self.key), self.qualifier_start, self.tail_start - 1)) {
            Some(s) => s,
            None => "",
        }
    }

    /// The row key of the cell.
    pub fn row_key(&self) -> (r: &str)
        ensures
            r@ == self@.row_key,
    {
        proof {
            use_type_invariant(self);
        }
        match utf8_str(slice_subrange(slice_bytes(&self.key), 0, self.family_start - 1)) {
            Some(s) => s,
            None => "",
        }
    }
}

} // verus!
