//! A wide-column table kept in one partition of the store.
use vstd::prelude::*;
use crate::cell::{slice_contents, Cell};
use crate::codec::{cell_key, is_cell_key, lex_lt, serialize_cell_key, valid_fields};
use crate::error::CellError;

verus! {

/// A handle to a keyspace of the store.
#[verifier::external_type_specification]
#[verifier::external_body]
pub struct ExKeyspace(fjall::Keyspace);

/// A handle to one partition of a keyspace.
#[verifier::external_type_specification]
#[verifier::external_body]
pub struct ExPartitionHandle(fjall::PartitionHandle);

/// A character that the store accepts in a partition name.
pub open spec fn partition_name_char(c: char) -> bool {
    ('a' <= c && c <= 'z') || ('A' <= c && c <= 'Z') || ('0' <= c && c <= '9') || c == '_' || c
        == '-' || c == '.' || c == '#' || c == '$'
}

/// A name that the store accepts for a partition: not empty, at most 255
/// bytes, and made of letters, digits and `_-.#$` (each one byte long).
pub open spec fn valid_partition_name(name: Seq<char>) -> bool {
    &&& name.len() > 0
    &&& name.len() <= 255
    &&& forall|i: int| 0 <= i < name.len() ==> partition_name_char(#[trigger] name[i])
}

/// Relies on `fjall::Keyspace::open_partition`, which opens or creates the
/// named partition with default options and panics on an invalid name.
#[verifier::external_body]
fn open_partition(keyspace: &fjall::Keyspace, name: &str) -> (r: Result<fjall::PartitionHandle, fjall::Error>)
    requires
        valid_partition_name(name@),
{
    keyspace.open_partition(name, fjall::PartitionCreateOptions::default())
}

/// A key/value pair that the store can hold: it asserts that a key has at
/// most 65535 bytes and a value at most `u32::MAX`.
pub open spec fn fits_store(key: Seq<u8>, value: Seq<u8>) -> bool {
    key.len() <= 65535 && value.len() <= u32::MAX
}

/// Relies on `fjall::PartitionHandle::insert`, which writes one key/value
/// pair, replacing any earlier value of the same key, and panics on an
/// empty key or a pair that does not fit.
#[verifier::external_body]
fn partition_insert(partition: &fjall::PartitionHandle, key: Vec<u8>, value: &[u8]) -> (r: Result<(), fjall::Error>)
    requires
        key@.len() > 0,
        fits_store(key@, value@),
{
    partition.insert(key, value)
}

/// Relies on `fjall::PartitionHandle::prefix`, which yields, in ascending
/// key order, the stored pairs whose key starts with `prefix`; it panics on
/// a prefix longer than `u32::MAX` bytes.
#[verifier::external_body]
fn partition_prefix(partition: &fjall::PartitionHandle, prefix: &[u8]) -> (r: Result<Vec<(fjall::Slice, fjall::Slice)>, fjall::Error>)
    requires
        prefix@.len() <= u32::MAX,
    ensures
        r matches Ok(pairs) ==> {
            &&& forall|i: int| 0 <= i < pairs.len() ==> prefix@.is_prefix_of(slice_contents(#[trigger] pairs[i].0))
            &&& forall|i: int, j: int| 0 <= i < j < pairs.len() ==> lex_lt(slice_contents(#[trigger] pairs[i].0), slice_contents(#[trigger] pairs[j].0))
        },
{
    partition.prefix(prefix).collect()
}

/// `c` is the cell read from the stored pair `pair`.
pub open spec fn decoded_from(c: Cell, pair: (fjall::Slice, fjall::Slice)) -> bool {
    &&& c.raw_key() == slice_contents(pair.0)
    &&& c@.value == slice_contents(pair.1)
    &&& valid_fields(c@.row_key, c@.column_family, c@.column_qualifier)
    &&& slice_contents(pair.0) == cell_key(c@.row_key, c@.column_family, c@.column_qualifier, Some(c@.timestamp))
}

/// Reads raw key/value pairs as cells, in the order given.
///
/// Succeeds exactly when every key is the key of a valid cell identity;
/// otherwise the whole read is reported as corrupt.
pub fn decode_pairs(pairs: Vec<(fjall::Slice, fjall::Slice)>) -> (r: Result<Vec<Cell>, CellError>)
    ensures
        r is Ok <==> forall|i: int| 0 <= i < pairs.len() ==> is_cell_key(slice_contents(#[trigger] pairs[i].0)),
        r matches Ok(cells) ==> {
            &&& cells.len() == pairs.len()
            &&& forall|i: int| 0 <= i < cells.len() ==> decoded_from(#[trigger] cells[i], pairs[i])
        },
        r matches Err(e) ==> e is Corruption,
{
    let ghost all = pairs@;
    let mut pending = pairs;
    let mut reversed: Vec<Cell> = Vec::new();
    while pending.len() > 0
        invariant
            all == pairs@,
            pending@.len() + reversed@.len() == all.len(),
            pending@ == all.subrange(0, pending@.len() as int),
            forall|j: int| pending@.len() <= j < all.len() ==> is_cell_key(slice_contents(#[trigger] all[j].0)),
            forall|j: int| 0 <= j < reversed@.len() ==> decoded_from(#[trigger] reversed@[j], all[all.len() - 1 - j]),
        decreases pending@.len(),
    {
        let ghost n = pending@.len();
        let (k, v) = pending.pop().unwrap();
        match Cell::decode(k, v) {
            Ok(c) => {
                reversed.push(c);
            },
            Err(e) => {
                assert(!is_cell_key(slice_contents(pairs[n - 1].0)));
                return Err(e);
            },
        }
        assert(pending@ =~= all.subrange(0, pending@.len() as int));
    }
    let ghost rev = reversed@;
    let mut cells: Vec<Cell> = Vec::new();
    while reversed.len() > 0
        invariant
            all == pairs@,
            rev.len() == all.len(),
            forall|j: int| 0 <= j < all.len() ==> is_cell_key(slice_contents(#[trigger] all[j].0)),
            forall|j: int| 0 <= j < rev.len() ==> decoded_from(#[trigger] rev[j], all[all.len() - 1 - j]),
            reversed@ == rev.subrange(0, reversed@.len() as int),
            cells@.len() + reversed@.len() == all.len(),
            forall|j: int| 0 <= j < cells@.len() ==> decoded_from(#[trigger] cells@[j], all[j]),
        decreases reversed@.len(),
    {
        let c = reversed.pop().unwrap();
        cells.push(c);
        assert(reversed@ =~= rev.subrange(0, reversed@.len() as int));
    }
    Ok(cells)
}

/// A wide-column table: the cells of one named partition of a keyspace.
pub struct WideColumnTable {
    keyspace: fjall::Keyspace,
    primary: fjall::PartitionHandle,
}

impl WideColumnTable {
    /// Opens the table kept in partition `name` of `keyspace`, creating the
    /// partition if it does not exist yet.
    pub fn new(keyspace: fjall::Keyspace, name: &str) -> (r: Result<WideColumnTable, CellError>)
        requires
            valid_partition_name(name@),
        ensures
            r matches Err(e) ==> e is Store,
    {
        match open_partition(&keyspace, name) {
            Ok(primary) => Ok(WideColumnTable { keyspace, primary }),
            Err(e) => Err(CellError::Store(e)),
        }
    }

    /// Writes one cell, replacing the value of a cell with the same identity
    /// and timestamp.
    ///
    /// A row key, column family or column qualifier that holds a NUL byte is
    /// rejected with [`CellError::Validation`], and a cell whose key or value
    /// is too long for the store with [`CellError::TooLarge`], both before
    /// anything is written.
    pub fn insert(
        &self,
        row_key: &str,
        col_family: &str,
        col_qual: &str,
        ts: Option<u64>,
        value: &[u8],
    ) -> (r: Result<(), CellError>)
        ensures
            !valid_fields(row_key@, col_family@, col_qual@) <==> r matches Err(CellError::Validation),
            valid_fields(row_key@, col_family@, col_qual@) && !fits_store(cell_key(row_key@, col_family@, col_qual@, ts), value@)
                <==> r matches Err(CellError::TooLarge),
            r matches Err(e) ==> e is Validation || e is TooLarge || e is Store,
    {
        let cell_key = match serialize_cell_key(row_key, col_family, col_qual, ts) {
            Ok(k) => k,
            Err(e) => {
                return Err(e);
            },
        };
        if cell_key.len() > 65535 || value.len() as u64 > 0xffff_ffffu64 {
            return Err(CellError::TooLarge);
        }
        match partition_insert(&self.primary, cell_key, value) {
            Ok(()) => Ok(()),
            Err(e) => Err(CellError::Store(e)),
        }
    }

    /// Reads, in ascending key order, the cells whose key starts with
    /// `prefix`. The store holds no key longer than 65535 bytes, so a longer
    /// prefix reads nothing.
    ///
    /// A stored key that is not the key of a valid identity makes the read
    /// fail with [`CellError::Corruption`].
    pub fn prefix(&self, prefix: &[u8]) -> (r: Result<Vec<Cell>, CellError>)
        ensures
            r matches Ok(cells) ==> {
                &&& forall|i: int| 0 <= i < cells.len() ==> prefix@.is_prefix_of(#[trigger] cells[i].raw_key())
                &&& forall|i: int, j: int| 0 <= i < j < cells.len() ==> lex_lt(#[trigger] cells[i].raw_key(), #[trigger] cells[j].raw_key())
                &&& forall|i: int| 0 <= i < cells.len() ==> {
                    &&& valid_fields(#[trigger] cells[i]@.row_key, cells[i]@.column_family, cells[i]@.column_qualifier)
                    &&& cells[i].raw_key() == cell_key(cells[i]@.row_key, cells[i]@.column_family, cells[i]@.column_qualifier, Some(cells[i]@.timestamp))
                }
            },
            r matches Err(e) ==> e is Corruption || e is Store,
            prefix@.len() > 65535 ==> r is Ok && r->Ok_0@.len() == 0,
    {
        if prefix.len() > 65535 {
            return Ok(Vec::new());
        }
        match partition_prefix(&self.primary, prefix) {
            Ok(pairs) => {
                let ghost raw = pairs@;
                let r = decode_pairs(pairs);
                proof {
                    if r is Ok {
                        let cells = r->Ok_0;
                        assert forall|i: int, j: int| 0 <= i < j < cells.len() implies lex_lt(#[trigger] cells[i].raw_key(), #[trigger] cells[j].raw_key()) by {
                            assert(decoded_from(cells[i], raw[i]));
                            assert(decoded_from(cells[j], raw[j]));
                        }
                        assert forall|i: int| 0 <= i < cells.len() implies prefix@.is_prefix_of(#[trigger] cells[i].raw_key()) by {
                            assert(decoded_from(cells[i], raw[i]));
                        }
                    }
                }
                r
            },
            Err(e) => Err(CellError::Store(e)),
        }
    }
}

} // verus!
