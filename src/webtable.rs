//! The scraping application's store: fetched pages, their metadata, and
//! the links between them, kept in three wide-column tables.
use vstd::prelude::*;
use vstd::utf8::{encode_utf8, is_ascii_chars_encode_utf8};
use crate::cell::Cell;
use crate::codec::{cell_key, lex_lt, no_nul, valid_fields};
use crate::laws::lemma_family_prefix;
use crate::domain::{anchor_key, anchor_row_key, page_row_key, reverse_labels, skipped_link, trim_prefix_all};
use crate::error::CellError;
use crate::table::{fits_store, WideColumnTable};
use vstd::slice::slice_to_vec;

verus! {

broadcast use vstd::seq::group_seq_axioms;

/// Another handle to the same keyspace.
pub assume_specification[ <fjall::Keyspace as Clone>::clone ](keyspace: &fjall::Keyspace) -> fjall::Keyspace;

/// What `md5::compute` returns for `data`.
pub uninterp spec fn md5_of(data: Seq<u8>) -> Seq<u8>;

/// Relies on `md5::compute`: the 16-byte MD5 digest of `data`.
#[verifier::external_body]
fn md5_digest(data: &[u8]) -> (r: Vec<u8>)
    ensures
        r@ == md5_of(data@),
        r@.len() == 16,
{
    md5::compute(data).0.to_vec()
}

/// What `str::to_uppercase` returns for `s`.
pub uninterp spec fn upper_of(s: Seq<char>) -> Seq<char>;

/// Relies on `str::to_uppercase`: the upper-case form of `s`.
#[verifier::external_body]
fn uppercase(s: &str) -> (r: String)
    ensures
        r@ == upper_of(s@),
{
    s.to_uppercase()
}

/// One link of a fetched page: its target as written, and its text.
pub struct Anchor {
    pub href: String,
    pub text: String,
}

/// The stored form of the links of page `url`: for each anchor that
/// leads to a page, in order, the row key of its target and its text.
pub open spec fn link_rows(url: Seq<char>, anchors: Seq<Anchor>) -> Seq<(Seq<char>, Seq<char>)>
    decreases anchors.len(),
{
    if anchors.len() == 0 {
        Seq::empty()
    } else {
        let rest = link_rows(url, anchors.drop_last());
        let a = anchors.last();
        if skipped_link(a.href@) {
            rest
        } else {
            rest.push((anchor_key(url, a.href@), a.text@))
        }
    }
}

/// The row keys and texts under which the links of page `url` are stored.
pub fn link_cells(url: &str, anchors: &Vec<Anchor>) -> (r: Vec<(String, String)>)
    ensures
        r@.len() == link_rows(url@, anchors@).len(),
        forall|i: int| 0 <= i < r@.len() ==> (#[trigger] r@[i]).0@ == link_rows(url@, anchors@)[i].0
            && r@[i].1@ == link_rows(url@, anchors@)[i].1,
{
    let mut out: Vec<(String, String)> = Vec::new();
    let mut i: usize = 0;
    while i < anchors.len()
        invariant
            i <= anchors@.len(),
            out@.len() == link_rows(url@, anchors@.take(i as int)).len(),
            forall|j: int| 0 <= j < out@.len() ==> (#[trigger] out@[j]).0@ == link_rows(url@, anchors@.take(i as int))[j].0
                && out@[j].1@ == link_rows(url@, anchors@.take(i as int))[j].1,
        decreases anchors@.len() - i,
    {
        let anchor = &anchors[i];
        assert(anchors@.take(i + 1).drop_last() =~= anchors@.take(i as int));
        assert(anchors@.take(i + 1).last() == anchors@[i as int]);
        if let Some(key) = anchor_row_key(url, anchor.href.as_str()) {
            out.push((key, anchor.text.clone()));
        }
        i = i + 1;
    }
    assert(anchors@.take(anchors@.len() as int) =~= anchors@);
    out
}

/// The table of the page store that a cell is written to.
#[derive(PartialEq, Eq, Structural, Clone, Copy, Debug)]
pub enum PageTable {
    /// Links between pages (partition `webtable`).
    Links,
    /// Language and checksum of pages (partition `lg_meta`).
    Meta,
    /// Page bodies (partition `lg_contents`).
    Contents,
}

/// One cell that storing a page writes.
pub struct PageWrite {
    pub table: PageTable,
    pub row_key: String,
    pub column_family: String,
    pub column_qualifier: String,
    pub timestamp: Option<u64>,
    pub value: Vec<u8>,
}

pub struct PageWriteView {
    pub table: PageTable,
    pub row_key: Seq<char>,
    pub column_family: Seq<char>,
    pub column_qualifier: Seq<char>,
    pub timestamp: Option<u64>,
    pub value: Seq<u8>,
}

impl View for PageWrite {
    type V = PageWriteView;

    open spec fn view(&self) -> PageWriteView {
        PageWriteView {
            table: self.table,
            row_key: self.row_key@,
            column_family: self.column_family@,
            column_qualifier: self.column_qualifier@,
            timestamp: self.timestamp,
            value: self.value@,
        }
    }
}

/// The text fields of a write have no NUL byte.
pub open spec fn valid_write(w: PageWriteView) -> bool {
    valid_fields(w.row_key, w.column_family, w.column_qualifier)
}

/// The key and value of a write fit the store.
pub open spec fn fits_write(w: PageWriteView) -> bool {
    fits_store(cell_key(w.row_key, w.column_family, w.column_qualifier, w.timestamp), w.value)
}

/// The characters of an optional text.
pub open spec fn lang_view(lang: Option<&str>) -> Option<Seq<char>> {
    match lang {
        Some(l) => Some(l@),
        None => None,
    }
}

/// The link cell for one of [`link_rows`]: under the row key of the
/// target, family `anchor`, qualifier `url` and time `t`, holding the text.
pub open spec fn link_write(url: Seq<char>, t: u64, row: (Seq<char>, Seq<char>)) -> PageWriteView {
    PageWriteView {
        table: PageTable::Links,
        row_key: row.0,
        column_family: "anchor"@,
        column_qualifier: url,
        timestamp: Some(t),
        value: encode_utf8(row.1),
    }
}

/// The cells written for page `url` with body `html`, fetched at time `t`,
/// in order. Under the row key of `url` without `https://`, labels
/// reversed: the language upper-cased, without a timestamp (only when the
/// page gives one); the body; its MD5 checksum. Then one link cell for each
/// anchor that leads to a page.
pub open spec fn page_writes_spec(
    url: Seq<char>,
    html: Seq<char>,
    t: u64,
    lang: Option<Seq<char>>,
    anchors: Seq<Anchor>,
) -> Seq<PageWriteView> {
    let rev = reverse_labels(trim_prefix_all(url, "https://"@));
    let language = match lang {
        Some(l) => seq![
            PageWriteView {
                table: PageTable::Meta,
                row_key: rev,
                column_family: "language"@,
                column_qualifier: ""@,
                timestamp: None,
                value: encode_utf8(upper_of(l)),
            },
        ],
        None => Seq::empty(),
    };
    let body = PageWriteView {
        table: PageTable::Contents,
        row_key: rev,
        column_family: "contents"@,
        column_qualifier: ""@,
        timestamp: Some(t),
        value: encode_utf8(html),
    };
    let checksum = PageWriteView {
        table: PageTable::Meta,
        row_key: rev,
        column_family: "checksum"@,
        column_qualifier: ""@,
        timestamp: Some(t),
        value: md5_of(encode_utf8(html)),
    };
    language + seq![body, checksum] + link_rows(url, anchors).map_values(|row: (Seq<char>, Seq<char>)| link_write(url, t, row))
}

/// The cells that storing page `url` writes, in order.
pub fn page_writes(url: &str, html: &str, t: u64, lang: Option<&str>, anchors: &Vec<Anchor>) -> (r: Vec<PageWrite>)
    ensures
        r@.len() == page_writes_spec(url@, html@, t, lang_view(lang), anchors@).len(),
        forall|i: int| 0 <= i < r@.len() ==> (#[trigger] r@[i])@ == page_writes_spec(url@, html@, t, lang_view(lang), anchors@)[i],
{
    let ghost spec = page_writes_spec(url@, html@, t, lang_view(lang), anchors@);
    let rev = page_row_key(url);
    let mut out: Vec<PageWrite> = Vec::new();
    if let Some(l) = lang {
        let up = uppercase(l);
        out.push(PageWrite {
            table: PageTable::Meta,
            row_key: rev.clone(),
            column_family: "language".to_owned(),
            column_qualifier: "".to_owned(),
            timestamp: None,
            value: slice_to_vec(up.as_str().as_bytes()),
        });
    }
    out.push(PageWrite {
        table: PageTable::Contents,
        row_key: rev.clone(),
        column_family: "contents".to_owned(),
        column_qualifier: "".to_owned(),
        timestamp: Some(t),
        value: slice_to_vec(html.as_bytes()),
    });
    out.push(PageWrite {
        table: PageTable::Meta,
        row_key: rev,
        column_family: "checksum".to_owned(),
        column_qualifier: "".to_owned(),
        timestamp: Some(t),
        value: md5_digest(html.as_bytes()),
    });
    let ghost head = out@.len();
    proof {
        let mapped = link_rows(url@, anchors@).map_values(|row: (Seq<char>, Seq<char>)| link_write(url@, t, row));
        assert(spec.len() == head + mapped.len());
        assert forall|j: int| 0 <= j < mapped.len() implies spec[head + j] == link_write(url@, t, link_rows(url@, anchors@)[j]) by {
            assert(spec[head + j] == mapped[j]);
        }
    }
    let links = link_cells(url, anchors);
    let ghost rows = link_rows(url@, anchors@);
    let mut i: usize = 0;
    while i < links.len()
        invariant
            i <= links@.len(),
            links@.len() == rows.len(),
            forall|j: int| 0 <= j < links@.len() ==> (#[trigger] links@[j]).0@ == rows[j].0 && links@[j].1@ == rows[j].1,
            head == spec.len() - rows.len(),
            forall|j: int| 0 <= j < rows.len() ==> spec[head + j] == #[trigger] link_write(url@, t, rows[j]),
            out@.len() == head + i,
            forall|j: int| 0 <= j < out@.len() ==> (#[trigger] out@[j])@ == spec[j],
        decreases links@.len() - i,
    {
        let (key, text) = &links[i];
        out.push(PageWrite {
            table: PageTable::Links,
            row_key: key.clone(),
            column_family: "anchor".to_owned(),
            column_qualifier: url.to_owned(),
            timestamp: Some(t),
            value: slice_to_vec(text.as_str().as_bytes()),
        });
        assert(spec[head + i] == link_write(url@, t, rows[i as int]));
        assert(out@[head + i]@ == spec[head + i]);
        i = i + 1;
    }
    out
}

/// The prefix of the keys of links to the page with row key `rev_domain`;
/// empty, so every link, when `rev_domain` is empty.
pub open spec fn anchors_prefix(rev_domain: Seq<char>) -> Seq<u8> {
    if rev_domain.len() == 0 {
        Seq::empty()
    } else {
        encode_utf8(rev_domain) + seq![0u8] + encode_utf8("anchor"@) + seq![0u8]
    }
}

/// Appends `b` to `out`.
fn push_bytes(out: &mut Vec<u8>, b: &[u8])
    ensures
        final(out)@ == old(out)@ + b@,
{
    let mut k: usize = 0;
    while k < b.len()
        invariant
            k <= b@.len(),
            out@ == old(out)@ + b@.subrange(0, k as int),
        decreases b@.len() - k,
    {
        out.push(b[k]);
        k = k + 1;
        assert(out@ =~= old(out)@ + b@.subrange(0, k as int));
    }
    assert(b@.subrange(0, k as int) =~= b@);
}

/// The store of the scraping application.
pub struct Webtable {
    keyspace: fjall::Keyspace,
    inner: WideColumnTable,
    lg_meta: WideColumnTable,
    lg_contents: WideColumnTable,
}

/// The cells of one read: in ascending key order, each read from the key
/// of its identity, and each key starting with `prefix`.
pub open spec fn scanned(cells: Seq<Cell>, prefix: Seq<u8>) -> bool {
    &&& forall|i: int| 0 <= i < cells.len() ==> {
        &&& valid_fields(#[trigger] cells[i]@.row_key, cells[i]@.column_family, cells[i]@.column_qualifier)
        &&& cells[i].raw_key() == cell_key(cells[i]@.row_key, cells[i]@.column_family, cells[i]@.column_qualifier, Some(cells[i]@.timestamp))
    }
    &&& forall|i: int| 0 <= i < cells.len() ==> prefix.is_prefix_of(#[trigger] cells[i].raw_key())
    &&& forall|i: int, j: int|
        0 <= i < j < cells.len() ==> lex_lt(#[trigger] cells[i].raw_key(), #[trigger] cells[j].raw_key())
}

impl Webtable {
    /// Opens the three tables `webtable` (links), `lg_meta` (language and
    /// checksum) and `lg_contents` (page bodies) in `keyspace`.
    pub fn new(keyspace: fjall::Keyspace) -> (r: Result<Webtable, CellError>)
        ensures
            r matches Err(e) ==> e is Store,
    {
        proof {
            reveal_strlit("webtable");
            reveal_strlit("lg_meta");
            reveal_strlit("lg_contents");
        }
        let inner = WideColumnTable::new(keyspace.clone(), "webtable")?;
        let lg_meta = WideColumnTable::new(keyspace.clone(), "lg_meta")?;
        let lg_contents = WideColumnTable::new(keyspace.clone(), "lg_contents")?;
        Ok(Webtable { keyspace, inner, lg_meta, lg_contents })
    }

    /// Every stored page body.
    pub fn iter_contents(&self) -> (r: Result<Vec<Cell>, CellError>)
        ensures
            r matches Ok(cells) ==> scanned(cells@, Seq::empty()),
            r matches Err(e) ==> e is Corruption || e is Store,
    {
        self.lg_contents.prefix(&[])
    }

    /// Every stored link.
    pub fn iter_primary(&self) -> (r: Result<Vec<Cell>, CellError>)
        ensures
            r matches Ok(cells) ==> scanned(cells@, Seq::empty()),
            r matches Err(e) ==> e is Corruption || e is Store,
    {
        self.inner.prefix(&[])
    }

    /// Every stored language and checksum.
    pub fn iter_metadata(&self) -> (r: Result<Vec<Cell>, CellError>)
        ensures
            r matches Ok(cells) ==> scanned(cells@, Seq::empty()),
            r matches Err(e) ==> e is Corruption || e is Store,
    {
        self.lg_meta.prefix(&[])
    }

    /// The links to the page with row key `rev_domain`, or every link when
    /// it is empty.
    pub fn iter_anchors_to_page(&self, rev_domain: &str) -> (r: Result<Vec<Cell>, CellError>)
        ensures
            r matches Ok(cells) ==> scanned(cells@, anchors_prefix(rev_domain@)),
            r matches Ok(cells) ==> (rev_domain@.len() > 0 && no_nul(encode_utf8(rev_domain@)) ==> forall|i: int|
                0 <= i < cells@.len() ==> (#[trigger] cells@[i])@.row_key == rev_domain@ && cells@[i]@.column_family == "anchor"@),
            r matches Err(e) ==> e is Corruption || e is Store,
    {
        let mut prefix: Vec<u8> = Vec::new();
        if !rev_domain.is_empty() {
            push_bytes(&mut prefix, rev_domain.as_bytes());
            prefix.push(0u8);
            push_bytes(&mut prefix, "anchor".as_bytes());
            prefix.push(0u8);
        }
        proof {
            assert(prefix@ =~= anchors_prefix(rev_domain@));
        }
        let r = self.inner.prefix(prefix.as_slice());
        proof {
            if r is Ok && rev_domain@.len() > 0 && no_nul(encode_utf8(rev_domain@)) {
                reveal_strlit("anchor");
                is_ascii_chars_encode_utf8("anchor"@);
                assert(no_nul(encode_utf8("anchor"@)));
                let cells = r->Ok_0@;
                assert forall|i: int| 0 <= i < cells.len() implies (#[trigger] cells[i])@.row_key == rev_domain@
                    && cells[i]@.column_family == "anchor"@ by {
                    let c = cells[i]@;
                    lemma_family_prefix(rev_domain@, "anchor"@, c.row_key, c.column_family, c.column_qualifier, Some(c.timestamp));
                }
            }
        }
        r
    }

    /// Stores one fetched page: hands each cell of [`page_writes`], in
    /// order, to its table, and stops at the first error.
    pub fn insert(
        &self,
        url: &str,
        html: &str,
        unix_timestamp: u64,
        lang: Option<&str>,
        anchors: &Vec<Anchor>,
    ) -> (r: Result<(), CellError>)
        ensures
            ({
                let ws = page_writes_spec(url@, html@, unix_timestamp, lang_view(lang), anchors@);
                &&& r matches Err(e) ==> e is Validation || e is TooLarge || e is Store
                &&& r matches Err(e) ==> (e is Validation ==> exists|i: int| 0 <= i < ws.len() && !valid_write(#[trigger] ws[i]))
                &&& r matches Err(e) ==> (e is TooLarge ==> exists|i: int| 0 <= i < ws.len() && !fits_write(#[trigger] ws[i]))
                &&& (forall|i: int| 0 <= i < ws.len() ==> valid_write(#[trigger] ws[i]) && fits_write(ws[i]))
                    ==> (r is Ok || r matches Err(CellError::Store(_)))
                &&& r is Ok ==> forall|i: int| 0 <= i < ws.len() ==> valid_write(#[trigger] ws[i]) && fits_write(ws[i])
                &&& ws.len() > 0 && !valid_write(ws[0]) ==> (r matches Err(CellError::Validation))
                &&& ws.len() > 0 && valid_write(ws[0]) && !fits_write(ws[0]) ==> (r matches Err(CellError::TooLarge))
            }),
    {
        let writes = page_writes(url, html, unix_timestamp, lang, anchors);
        let ghost ws = page_writes_spec(url@, html@, unix_timestamp, lang_view(lang), anchors@);
        let mut i: usize = 0;
        while i < writes.len()
            invariant
                i <= writes@.len(),
                ws == page_writes_spec(url@, html@, unix_timestamp, lang_view(lang), anchors@),
                writes@.len() == ws.len(),
                forall|j: int| 0 <= j < ws.len() ==> (#[trigger] writes@[j])@ == ws[j],
                forall|j: int| 0 <= j < i ==> valid_write(#[trigger] ws[j]) && fits_write(ws[j]),
            decreases writes@.len() - i,
        {
            let w = &writes[i];
            let table = match w.table {
                PageTable::Links => &self.inner,
                PageTable::Meta => &self.lg_meta,
                PageTable::Contents => &self.lg_contents,
            };
            let res = table.insert(
                w.row_key.as_str(),
                w.column_family.as_str(),
                w.column_qualifier.as_str(),
                w.timestamp,
                w.value.as_slice(),
            );
            if let Err(e) = res {
                assert(writes@[i as int]@ == ws[i as int]);
                proof {
                    if e is Validation {
                        assert(!valid_write(ws[i as int]));
                    }
                    if e is TooLarge {
                        assert(!fits_write(ws[i as int]));
                    }
                }
                return Err(e);
            }
            assert(writes@[i as int]@ == ws[i as int]);
            i = i + 1;
        }
        Ok(())
    }
}

} // verus!
