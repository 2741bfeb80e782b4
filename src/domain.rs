//! Row keys of the scraping application: domain names with their labels
//! in reverse order, so that pages of one site sort together.
use vstd::prelude::*;

verus! {

broadcast use vstd::seq::group_seq_axioms;

/// Relies on `str::chars`: the characters of `s`, in order.
#[verifier::external_body]
pub(crate) fn chars_of(s: &str) -> (r: Vec<char>)
    ensures
        r@ == s@,
{
    s.chars().collect()
}

/// Relies on `String: FromIterator<char>`: the string of these characters.
#[verifier::external_body]
pub(crate) fn string_of(chars: &Vec<char>) -> (r: String)
    ensures
        r@ == chars@,
{
    chars.iter().collect()
}

/// The labels of `s[0..n]` in reverse order, joined by `.`, followed by
/// `label`, the part of the current label already read from the right.
pub open spec fn reverse_labels_from(s: Seq<char>, n: int, label: Seq<char>) -> Seq<char>
    decreases n,
{
    if n <= 0 {
        label
    } else if s[n - 1] == '.' {
        label + seq!['.'] + reverse_labels_from(s, n - 1, Seq::empty())
    } else {
        reverse_labels_from(s, n - 1, seq![s[n - 1]] + label)
    }
}

/// `s` split at every `.`, the parts in reverse order, joined by `.` again.
pub open spec fn reverse_labels(s: Seq<char>) -> Seq<char> {
    reverse_labels_from(s, s.len() as int, Seq::empty())
}

/// Appends `s[lo..hi]` to `out`.
fn push_range(out: &mut Vec<char>, s: &Vec<char>, lo: usize, hi: usize)
    requires
        lo <= hi <= s@.len(),
    ensures
        final(out)@ == old(out)@ + s@.subrange(lo as int, hi as int),
{
    let mut k: usize = lo;
    while k < hi
        invariant
            lo <= k <= hi <= s@.len(),
            out@ == old(out)@ + s@.subrange(lo as int, k as int),
        decreases hi - k,
    {
        out.push(s[k]);
        k = k + 1;
        assert(out@ =~= old(out)@ + s@.subrange(lo as int, k as int));
    }
}

/// The labels of `s` in reverse order, as characters.
fn reverse_labels_vec(s: &Vec<char>) -> (r: Vec<char>)
    ensures
        r@ == reverse_labels(s@),
{
    let ghost sv = s@;
    let mut out: Vec<char> = Vec::new();
    let mut i: usize = s.len();
    let mut label_end: usize = s.len();
    while i > 0
        invariant
            sv == s@,
            i <= label_end <= s@.len(),
            forall|j: int| i <= j < label_end ==> sv[j] != '.',
            out@ + reverse_labels_from(sv, i as int, sv.subrange(i as int, label_end as int)) == reverse_labels(sv),
        decreases i,
    {
        if s[i - 1] == '.' {
            let ghost before = out@;
            push_range(&mut out, s, i, label_end);
            out.push('.');
            assert(out@ =~= before + sv.subrange(i as int, label_end as int) + seq!['.']);
            label_end = i - 1;
            i = i - 1;
            assert(sv.subrange(i as int, label_end as int) =~= Seq::<char>::empty());
            assert(out@ + reverse_labels_from(sv, i as int, sv.subrange(i as int, label_end as int)) =~= reverse_labels(sv));
        } else {
            i = i - 1;
            assert(sv.subrange(i as int, label_end as int) =~= seq![sv[i as int]] + sv.subrange(i + 1, label_end as int));
        }
    }
    push_range(&mut out, s, 0, label_end);
    out
}

/// Reverses the order of the dot-separated labels of `url`:
/// `www.example.com` becomes `com.example.www`.
pub fn reverse_domain_key(url: &str) -> (r: String)
    ensures
        r@ == reverse_labels(url@),
{
    let s = chars_of(url);
    string_of(&reverse_labels_vec(&s))
}

/// `s` with every leading repetition of `p` removed.
pub open spec fn trim_prefix_all(s: Seq<char>, p: Seq<char>) -> Seq<char>
    decreases s.len(),
{
    if p.len() > 0 && p.is_prefix_of(s) {
        trim_prefix_all(s.skip(p.len() as int), p)
    } else {
        s
    }
}

/// The index of the first `c` at or after `i` in `s`, or `s.len()`.
pub open spec fn index_of_from(s: Seq<char>, c: char, i: int) -> int
    decreases s.len() - i,
{
    if i >= s.len() {
        s.len() as int
    } else if s[i] == c {
        i
    } else {
        index_of_from(s, c, i + 1)
    }
}

/// A link that does not lead to a page: mail, telephone, or a fragment.
pub open spec fn skipped_link(href: Seq<char>) -> bool {
    "mailto:"@.is_prefix_of(href) || "tel:"@.is_prefix_of(href) || "#"@.is_prefix_of(href)
}

/// `href` made absolute against the page address `url`.
pub open spec fn absolute_link(url: Seq<char>, href: Seq<char>) -> Seq<char> {
    if "/"@.is_prefix_of(href) {
        url + href
    } else if "http"@.is_prefix_of(href) {
        href
    } else {
        url + seq!['/'] + href
    }
}

/// The row key of a linked page: its domain with the labels reversed,
/// then `/` and the path, without the scheme.
pub open spec fn anchor_key(url: Seq<char>, href: Seq<char>) -> Seq<char> {
    let full = trim_prefix_all(trim_prefix_all(absolute_link(url, href), "https://"@), "http://"@);
    let k = index_of_from(full, '/', 0);
    let path = if k < full.len() {
        full.skip(k + 1)
    } else {
        Seq::empty()
    };
    reverse_labels(full.take(k)) + seq!['/'] + path
}

/// Whether `p` occurs in `s` at `from`.
fn has_prefix_at(s: &Vec<char>, from: usize, p: &Vec<char>) -> (r: bool)
    requires
        from <= s@.len(),
    ensures
        r == p@.is_prefix_of(s@.skip(from as int)),
{
    if s.len() - from < p.len() {
        return false;
    }
    let n = s.len();
    let mut k: usize = 0;
    while k < p.len()
        invariant
            n == s@.len(),
            from + p@.len() <= s@.len(),
            k <= p@.len(),
            forall|j: int| 0 <= j < k ==> p@[j] == s@[from + j],
        decreases p@.len() - k,
    {
        if p[k] != s[from + k] {
            assert(s@.skip(from as int)[k as int] == s@[from + k]);
            return false;
        }
        k = k + 1;
    }
    assert(p@ =~= s@.skip(from as int).take(p@.len() as int));
    true
}

/// The index from which `s` reads as `s[from..]` with every leading
/// repetition of `p` removed.
fn trim_prefix_from(s: &Vec<char>, from: usize, p: &Vec<char>) -> (r: usize)
    requires
        from <= s@.len(),
    ensures
        from <= r <= s@.len(),
        s@.skip(r as int) == trim_prefix_all(s@.skip(from as int), p@),
{
    if p.len() == 0 {
        return from;
    }
    let n = s.len();
    let mut at: usize = from;
    while has_prefix_at(s, at, p)
        invariant
            n == s@.len(),
            from <= at <= s@.len(),
            p@.len() > 0,
            trim_prefix_all(s@.skip(at as int), p@) == trim_prefix_all(s@.skip(from as int), p@),
        decreases s@.len() - at,
    {
        assert(s@.skip(at as int).skip(p@.len() as int) =~= s@.skip(at + p@.len()));
        at = at + p.len();
    }
    at
}

/// The index of the first `c` at or after `i` in `s`, or `s.len()`.
fn index_of(s: &Vec<char>, c: char, i: usize) -> (r: usize)
    requires
        i <= s@.len(),
    ensures
        i <= r <= s@.len(),
        r as int == index_of_from(s@, c, i as int),
{
    let mut k: usize = i;
    while k < s.len()
        invariant
            i <= k <= s@.len(),
            index_of_from(s@, c, k as int) == index_of_from(s@, c, i as int),
        decreases s@.len() - k,
    {
        if s[k] == c {
            return k;
        }
        k = k + 1;
    }
    k
}

/// The row key under which a link from page `url` to `href` is stored, or
/// `None` for a mail, telephone or fragment link.
pub fn anchor_row_key(url: &str, href: &str) -> (r: Option<String>)
    ensures
        r is None <==> skipped_link(href@),
        r matches Some(k) ==> k@ == anchor_key(url@, href@),
{
    let h = chars_of(href);
    if has_prefix_at(&h, 0, &chars_of("mailto:")) || has_prefix_at(&h, 0, &chars_of("tel:"))
        || has_prefix_at(&h, 0, &chars_of("#")) {
        assert(h@.skip(0) =~= h@);
        return None;
    }
    assert(h@.skip(0) =~= h@);
    let u = chars_of(url);
    let mut full: Vec<char> = Vec::new();
    if has_prefix_at(&h, 0, &chars_of("/")) {
        push_range(&mut full, &u, 0, u.len());
        push_range(&mut full, &h, 0, h.len());
    } else if has_prefix_at(&h, 0, &chars_of("http")) {
        push_range(&mut full, &h, 0, h.len());
    } else {
        push_range(&mut full, &u, 0, u.len());
        full.push('/');
        push_range(&mut full, &h, 0, h.len());
    }
    assert(u@.subrange(0, u@.len() as int) =~= u@);
    assert(h@.subrange(0, h@.len() as int) =~= h@);
    assert(full@ =~= absolute_link(url@, href@));
    assert(full@.skip(0) =~= full@);
    let a = trim_prefix_from(&full, 0, &chars_of("https://"));
    let b = trim_prefix_from(&full, a, &chars_of("http://"));
    let ghost rest = full@.skip(b as int);
    let k = index_of(&full, '/', b);
    proof {
        assert forall|i: int| b <= i <= full@.len() implies index_of_from(full@, '/', i) == b + index_of_from(rest, '/', i - b) by {
            lemma_index_of_shift(full@, b as int, i);
        }
    }
    let mut domain: Vec<char> = Vec::new();
    push_range(&mut domain, &full, b, k);
    let mut key = reverse_labels_vec(&domain);
    key.push('/');
    if k < full.len() {
        push_range(&mut key, &full, k + 1, full.len());
    }
    proof {
        assert(domain@ =~= rest.take(k - b));
        if k < full.len() {
            assert(full@.subrange(k + 1, full@.len() as int) =~= rest.skip(k - b + 1));
        }
        assert(key@ =~= anchor_key(url@, href@));
    }
    Some(string_of(&key))
}

proof fn lemma_index_of_shift(s: Seq<char>, b: int, i: int)
    requires
        0 <= b <= i <= s.len(),
    ensures
        index_of_from(s, '/', i) == b + index_of_from(s.skip(b), '/', i - b),
    decreases s.len() - i,
{
    if i < s.len() {
        lemma_index_of_shift(s, b, i + 1);
    }
}

/// The row key of the page at `url`: the address without a leading
/// `https://`, its dot-separated labels reversed.
pub fn page_row_key(url: &str) -> (r: String)
    ensures
        r@ == reverse_labels(trim_prefix_all(url@, "https://"@)),
{
    let u = chars_of(url);
    let start = trim_prefix_from(&u, 0, &chars_of("https://"));
    let mut rest: Vec<char> = Vec::new();
    push_range(&mut rest, &u, start, u.len());
    assert(u@.skip(0) =~= u@);
    assert(rest@ =~= u@.skip(start as int));
    string_of(&reverse_labels_vec(&rest))
}

} // verus!
