//! The dataset manifest: a provider's object listing, scraped from the
//! paginated XML response.  The scanner extracts the contents of the
//! repeated `<Key>` and `<Size>` elements independently and pairs them
//! positionally in scan order, excluding directory placeholder keys
//! (those ending in the path separator).

use vstd::prelude::*;

use crate::text::{chars_to_string, parse_u64_or_zero, parse_u64_or_zero_exec, str_to_chars};

verus! {

/// One object of a dataset: its full provider key and its size in
/// bytes.
#[derive(Clone, Debug, PartialEq, Eq)]
pub struct ManifestEntry {
    pub key: String,
    pub size: u64,
}

impl View for ManifestEntry {
    type V = (Seq<char>, u64);

    open spec fn view(&self) -> (Seq<char>, u64) {
        (self.key@, self.size)
    }
}

/// The views of a sequence of entries.
pub open spec fn entries_view(s: Seq<ManifestEntry>) -> Seq<(Seq<char>, u64)> {
    s.map_values(|e: ManifestEntry| e@)
}

/// The opening form of an XML tag name.
pub open spec fn open_tag(name: Seq<char>) -> Seq<char> {
    seq!['<'] + name + seq!['>']
}

/// The closing form of an XML tag name.
pub open spec fn close_tag(name: Seq<char>) -> Seq<char> {
    seq!['<', '/'] + name + seq!['>']
}

/// The position of the first `<` at or after `j`, or the length when
/// there is none.
pub open spec fn next_lt(s: Seq<char>, j: int) -> int
    decreases s.len() - j,
{
    if 0 <= j < s.len() {
        if s[j] == '<' {
            j
        } else {
            next_lt(s, j + 1)
        }
    } else {
        s.len() as int
    }
}

/// Whether a complete element of the named tag starts at position `i`:
/// the opening tag, at least one character other than `<`, then the
/// closing tag.
pub open spec fn tag_match_at(s: Seq<char>, name: Seq<char>, i: int) -> bool {
    let o = open_tag(name);
    let c = close_tag(name);
    let p = next_lt(s, i + o.len());
    &&& 0 <= i
    &&& i + o.len() <= s.len()
    &&& s.subrange(i, i + o.len()) == o
    &&& p > i + o.len()
    &&& p + c.len() <= s.len()
    &&& s.subrange(p, p + c.len()) == c
}

/// The contents of every complete element of the named tag at or after
/// position `i`, leftmost first, matches not overlapping.
pub open spec fn scan_tags(s: Seq<char>, name: Seq<char>, i: int) -> Seq<Seq<char>>
    decreases s.len() - i,
{
    if i < 0 || i + open_tag(name).len() > s.len() {
        Seq::empty()
    } else if tag_match_at(s, name, i) {
        let o = open_tag(name);
        let p = next_lt(s, i + o.len());
        seq![s.subrange(i + o.len(), p)] + scan_tags(s, name, p + close_tag(name).len())
    } else {
        scan_tags(s, name, i + 1)
    }
}

/// The `<Key>` element contents of a listing document.
pub open spec fn keys_of(s: Seq<char>) -> Seq<Seq<char>> {
    scan_tags(s, seq!['K', 'e', 'y'], 0)
}

/// The `<Size>` element contents of a listing document, read as
/// numbers.
pub open spec fn sizes_of(s: Seq<char>) -> Seq<u64> {
    scan_tags(s, seq!['S', 'i', 'z', 'e'], 0).map_values(|t: Seq<char>| parse_u64_or_zero(t))
}

/// Pairs keys with sizes positionally, dropping directory placeholder
/// keys, and stopping at the shorter of the two lists.
pub open spec fn pair_entries(keys: Seq<Seq<char>>, sizes: Seq<u64>) -> Seq<(Seq<char>, u64)>
    decreases keys.len(),
{
    if keys.len() == 0 || sizes.len() == 0 {
        Seq::empty()
    } else {
        let rest = pair_entries(keys.drop_first(), sizes.drop_first());
        if keys.first().len() > 0 && keys.first().last() == '/' {
            rest
        } else {
            seq![(keys.first(), sizes.first())] + rest
        }
    }
}

/// What the listing scraper yields on a document.
pub open spec fn spec_parse_listing(s: Seq<char>) -> Seq<(Seq<char>, u64)> {
    pair_entries(keys_of(s), sizes_of(s))
}

proof fn lemma_next_lt_at(s: Seq<char>, j: int, p: int)
    requires
        0 <= j <= p <= s.len(),
        forall|k: int| j <= k < p ==> s[k] != '<',
        p < s.len() ==> s[p] == '<',
    ensures
        next_lt(s, j) == p,
    decreases p - j,
{
    if j < p {
        lemma_next_lt_at(s, j + 1, p);
    }
}

fn range_eq(s: &Vec<char>, at: usize, t: &Vec<char>) -> (r: bool)
    requires
        at + t@.len() <= s@.len(),
    ensures
        r == (s@.subrange(at as int, at + t@.len()) == t@),
{
    let n = s.len();
    let m = t.len();
    let mut k: usize = 0;
    while k < m
        invariant
            n == s@.len(),
            at + m <= s@.len(),
            m == t@.len(),
            k <= m,
            forall|q: int| 0 <= q < k ==> s@[at + q] == t@[q],
        decreases m - k,
    {
        if s[at + k] != t[k] {
            proof {
                assert(s@.subrange(at as int, at + t@.len())[k as int] != t@[k as int]);
            }
            return false;
        }
        k = k + 1;
    }
    proof {
        assert(s@.subrange(at as int, at + t@.len()) =~= t@);
    }
    true
}

/// All complete elements of the named tag in the document, in scan
/// order.
fn scan_tags_exec(s: &Vec<char>, name: &Vec<char>) -> (r: Vec<Vec<char>>)
    requires
        name@.len() >= 1,
    ensures
        r@.map_values(|t: Vec<char>| t@) == scan_tags(s@, name@, 0),
{
    let n = s.len();
    // The opening and closing forms of the tag.
    let mut otag: Vec<char> = Vec::new();
    otag.push('<');
    let mut q: usize = 0;
    while q < name.len()
        invariant
            q <= name@.len(),
            otag@ == seq!['<'] + name@.take(q as int),
        decreases name@.len() - q,
    {
        otag.push(name[q]);
        proof {
            assert(seq!['<'] + name@.take(q + 1) =~= (seq!['<'] + name@.take(q as int)).push(
                name@[q as int],
            ));
        }
        q = q + 1;
    }
    otag.push('>');
    let mut ctag: Vec<char> = Vec::new();
    ctag.push('<');
    ctag.push('/');
    let mut q2: usize = 0;
    while q2 < name.len()
        invariant
            q2 <= name@.len(),
            ctag@ == seq!['<', '/'] + name@.take(q2 as int),
        decreases name@.len() - q2,
    {
        ctag.push(name[q2]);
        proof {
            assert(seq!['<', '/'] + name@.take(q2 + 1) =~= (seq!['<', '/'] + name@.take(
                q2 as int,
            )).push(name@[q2 as int]));
        }
        q2 = q2 + 1;
    }
    ctag.push('>');
    proof {
        assert(name@.take(name@.len() as int) =~= name@);
        assert(otag@ =~= open_tag(name@));
        assert(ctag@ =~= close_tag(name@));
    }
    let olen = otag.len();
    let clen = ctag.len();

    let mut out: Vec<Vec<char>> = Vec::new();
    let mut i: usize = 0;
    while n >= olen && i <= n - olen
        invariant
            n == s@.len(),
            olen == open_tag(name@).len(),
            clen == close_tag(name@).len(),
            olen >= 3,
            clen >= 4,
            otag@ == open_tag(name@),
            ctag@ == close_tag(name@),
            i <= n || i == 0,
            scan_tags(s@, name@, 0) == out@.map_values(|t: Vec<char>| t@) + scan_tags(
                s@,
                name@,
                i as int,
            ),
        decreases n - i,
    {
        let ghost views = out@.map_values(|t: Vec<char>| t@);
        if range_eq(s, i, &otag) {
            // Find the first `<` after the opening tag.
            let mut p: usize = i + olen;
            while p < n && s[p] != '<'
                invariant
                    n == s@.len(),
                    i + olen <= p <= n,
                    forall|k: int| i + olen <= k < p ==> s@[k] != '<',
                decreases n - p,
            {
                p = p + 1;
            }
            proof {
                lemma_next_lt_at(s@, i + olen, p as int);
            }
            if p > i + olen && clen <= n && p <= n - clen && range_eq(s, p, &ctag) {
                proof {
                    assert(tag_match_at(s@, name@, i as int));
                }
                let mut piece: Vec<char> = Vec::new();
                let mut w: usize = i + olen;
                while w < p
                    invariant
                        i + olen <= w <= p <= n,
                        n == s@.len(),
                        piece@ == s@.subrange(i + olen, w as int),
                    decreases p - w,
                {
                    piece.push(s[w]);
                    proof {
                        assert(s@.subrange(i + olen, w + 1) =~= s@.subrange(
                            i + olen,
                            w as int,
                        ).push(s@[w as int]));
                    }
                    w = w + 1;
                }
                out.push(piece);
                proof {
                    assert(out@.map_values(|t: Vec<char>| t@) =~= views.push(
                        s@.subrange(i + olen, p as int),
                    ));
                    assert(scan_tags(s@, name@, i as int) =~= seq![
                        s@.subrange(i + olen, p as int),
                    ] + scan_tags(s@, name@, p + clen));
                    assert(views + scan_tags(s@, name@, i as int) =~= views.push(
                        s@.subrange(i + olen, p as int),
                    ) + scan_tags(s@, name@, p + clen));
                }
                i = p + clen;
                continue ;
            }
            proof {
                // One of the three conditions of a complete element
                // fails, so there is no match at `i`.
                assert(!tag_match_at(s@, name@, i as int));
            }
        } else {
            proof {
                assert(!tag_match_at(s@, name@, i as int));
            }
        }
        i = i + 1;
    }
    proof {
        assert(scan_tags(s@, name@, i as int) =~= Seq::<Seq<char>>::empty());
        assert(out@.map_values(|t: Vec<char>| t@) =~= scan_tags(s@, name@, 0));
    }
    out
}

/// Scrapes a listing document: extracts the `<Key>` and `<Size>`
/// element contents, pairs them in scan order, and drops directory
/// placeholder keys.
pub fn parse_s3_listing(xml: &str) -> (r: Vec<ManifestEntry>)
    ensures
        entries_view(r@) == spec_parse_listing(xml@),
{
    let chars = str_to_chars(xml);
    let mut key_name: Vec<char> = Vec::new();
    key_name.push('K');
    key_name.push('e');
    key_name.push('y');
    let mut size_name: Vec<char> = Vec::new();
    size_name.push('S');
    size_name.push('i');
    size_name.push('z');
    size_name.push('e');
    proof {
        assert(key_name@ =~= seq!['K', 'e', 'y']);
        assert(size_name@ =~= seq!['S', 'i', 'z', 'e']);
    }
    let keys = scan_tags_exec(&chars, &key_name);
    let size_texts = scan_tags_exec(&chars, &size_name);
    let mut sizes: Vec<u64> = Vec::new();
    let mut k: usize = 0;
    proof {
        let texts = size_texts@.map_values(|t: Vec<char>| t@);
        assert(texts.take(0) =~= Seq::<Seq<char>>::empty());
        assert(sizes@ =~= texts.take(0).map_values(|t: Seq<char>| parse_u64_or_zero(t)));
    }
    while k < size_texts.len()
        invariant
            k <= size_texts@.len(),
            sizes@ == size_texts@.map_values(|t: Vec<char>| t@).take(k as int).map_values(
                |t: Seq<char>| parse_u64_or_zero(t),
            ),
        decreases size_texts@.len() - k,
    {
        let v = parse_u64_or_zero_exec(&size_texts[k]);
        sizes.push(v);
        proof {
            let texts = size_texts@.map_values(|t: Vec<char>| t@);
            assert(texts.take(k + 1) =~= texts.take(k as int).push(texts[k as int]));
            assert(texts.take(k + 1).map_values(|t: Seq<char>| parse_u64_or_zero(t)) =~= texts.take(
                k as int,
            ).map_values(|t: Seq<char>| parse_u64_or_zero(t)).push(
                parse_u64_or_zero(texts[k as int]),
            ));
        }
        k = k + 1;
    }
    proof {
        let texts = size_texts@.map_values(|t: Vec<char>| t@);
        assert(texts.take(texts.len() as int) =~= texts);
        assert(sizes@ == sizes_of(xml@));
    }
    // Pair the two lists positionally, skipping directory keys.
    let count = if keys.len() < sizes.len() {
        keys.len()
    } else {
        sizes.len()
    };
    let mut out: Vec<ManifestEntry> = Vec::new();
    let mut j: usize = 0;
    proof {
        let kv = keys@.map_values(|t: Vec<char>| t@);
        assert(kv.skip(0) =~= kv);
        assert(sizes@.skip(0) =~= sizes@);
        assert(entries_view(out@) =~= Seq::<(Seq<char>, u64)>::empty());
    }
    while j < count
        invariant
            count <= keys@.len(),
            count <= sizes@.len(),
            count == if keys@.len() < sizes@.len() {
                keys@.len()
            } else {
                sizes@.len()
            },
            j <= count,
            pair_entries(keys@.map_values(|t: Vec<char>| t@), sizes@) == entries_view(out@)
                + pair_entries(
                keys@.map_values(|t: Vec<char>| t@).skip(j as int),
                sizes@.skip(j as int),
            ),
        decreases count - j,
    {
        let ghost kv = keys@.map_values(|t: Vec<char>| t@);
        let key_chars = &keys[j];
        let is_dir = key_chars.len() > 0 && key_chars[key_chars.len() - 1] == '/';
        proof {
            assert(kv.skip(j as int).first() == kv[j as int]);
            assert(kv.skip(j as int).drop_first() =~= kv.skip(j + 1));
            assert(sizes@.skip(j as int).first() == sizes@[j as int]);
            assert(sizes@.skip(j as int).drop_first() =~= sizes@.skip(j + 1));
            assert(kv.skip(j as int).len() > 0 && sizes@.skip(j as int).len() > 0);
        }
        if !is_dir {
            let key = chars_to_string(key_chars);
            let entry = ManifestEntry { key, size: sizes[j] };
            out.push(entry);
            proof {
                assert(entries_view(out@) =~= entries_view(out@.drop_last()).push(
                    (kv[j as int], sizes@[j as int]),
                ));
                assert(entries_view(out@.drop_last()) + pair_entries(
                    kv.skip(j as int),
                    sizes@.skip(j as int),
                ) =~= entries_view(out@) + pair_entries(kv.skip(j + 1), sizes@.skip(j + 1)));
            }
        } else {
            proof {
                assert(pair_entries(kv.skip(j as int), sizes@.skip(j as int)) == pair_entries(
                    kv.skip(j + 1),
                    sizes@.skip(j + 1),
                ));
            }
        }
        j = j + 1;
    }
    proof {
        let kv = keys@.map_values(|t: Vec<char>| t@);
        assert(pair_entries(kv.skip(count as int), sizes@.skip(count as int))
            =~= Seq::<(Seq<char>, u64)>::empty());
        assert(entries_view(out@) =~= spec_parse_listing(xml@));
    }
    out
}

/// Why a manifest could not be obtained: the listing request came back
/// with a non-success status, the response held none of the expected
/// tags, or it described zero objects.
#[derive(Clone, Copy, Debug, PartialEq, Eq, Structural)]
pub enum ManifestError {
    Fetch { status: u16 },
    Parse,
    Empty,
}

/// Classifies the listing endpoint's HTTP status: only a success
/// status yields a readable manifest body.
pub fn check_listing_status(status: u16) -> (r: Result<(), ManifestError>)
    ensures
        200 <= status < 300 ==> r is Ok,
        !(200 <= status < 300) ==> r == Result::<(), ManifestError>::Err(
            ManifestError::Fetch { status },
        ),
{
    if 200 <= status && status < 300 {
        Ok(())
    } else {
        Err(ManifestError::Fetch { status })
    }
}

/// Reads a listing document into manifest entries.  A document without
/// any complete `<Key>` element is malformed; one whose entries all
/// drop out (or whose sizes are missing) describes an empty dataset.
pub fn list_manifest_entries(xml: &str) -> (r: Result<Vec<ManifestEntry>, ManifestError>)
    ensures
        keys_of(xml@).len() == 0 ==> r == Result::<Vec<ManifestEntry>, ManifestError>::Err(
            ManifestError::Parse,
        ),
        keys_of(xml@).len() > 0 && spec_parse_listing(xml@).len() == 0 ==> r == Result::<
            Vec<ManifestEntry>,
            ManifestError,
        >::Err(ManifestError::Empty),
        spec_parse_listing(xml@).len() > 0 ==> r is Ok && entries_view(r->Ok_0@)
            == spec_parse_listing(xml@),
{
    let chars = str_to_chars(xml);
    let mut key_name: Vec<char> = Vec::new();
    key_name.push('K');
    key_name.push('e');
    key_name.push('y');
    proof {
        assert(key_name@ =~= seq!['K', 'e', 'y']);
    }
    let keys = scan_tags_exec(&chars, &key_name);
    if keys.len() == 0 {
        proof {
            assert(pair_entries(keys_of(xml@), sizes_of(xml@)).len() == 0);
        }
        return Err(ManifestError::Parse);
    }
    let entries = parse_s3_listing(xml);
    if entries.len() == 0 {
        proof {
            assert(entries_view(entries@).len() == 0);
        }
        return Err(ManifestError::Empty);
    }
    Ok(entries)
}

/// The provider's paginated listing endpoint for one accession.
pub fn manifest_url(accession: &str) -> (r: String)
    ensures
        r@ == "https://s3.amazonaws.com/openneuro.org?list-type=2&prefix="@ + accession@ + "/"@,
{
    let mut r = String::from_str("https://s3.amazonaws.com/openneuro.org?list-type=2&prefix=");
    r.append(accession);
    r.append("/");
    r
}

/// The provider URL a manifest entry is read from.
pub fn entry_source_url(key: &str) -> (r: String)
    ensures
        r@ == "https://s3.amazonaws.com/openneuro.org/"@ + key@,
{
    let mut r = String::from_str("https://s3.amazonaws.com/openneuro.org/");
    r.append(key);
    r
}

/// A key with its accession prefix (and the separator) stripped; a key
/// outside the accession passes through unchanged.
pub open spec fn spec_relative_path(key: Seq<char>, accession: Seq<char>) -> Seq<char> {
    let p = accession + seq!['/'];
    if p.len() <= key.len() && key.take(p.len() as int) == p {
        key.skip(p.len() as int)
    } else {
        key
    }
}

/// Strips the accession prefix from a manifest key to get the path of
/// the object inside the dataset.
pub fn relative_path(key: &str, accession: &str) -> (r: String)
    ensures
        r@ == spec_relative_path(key@, accession@),
{
    let kn: usize = key.unicode_len();
    let an: usize = accession.unicode_len();
    let ghost p = accession@ + seq!['/'];
    if an < kn && key.get_char(an) == '/' {
        let mut i: usize = 0;
        loop
            invariant
                an == accession@.len(),
                kn == key@.len(),
                an < kn,
                i <= an,
                p == accession@ + seq!['/'],
                key@[an as int] == '/',
                forall|q: int| 0 <= q < i ==> key@[q] == accession@[q],
            decreases an - i,
        {
            if i == an {
                proof {
                    assert forall|q: int| 0 <= q < p.len() implies key@.take(p.len() as int)[q]
                        == p[q] by {
                        if q < an {
                            assert(key@[q] == accession@[q]);
                            assert(p[q] == accession@[q]);
                        } else {
                            assert(p[q] == '/');
                        }
                    }
                    assert(key@.take(p.len() as int) =~= p);
                }
                let piece = key.substring_char(an + 1, kn);
                proof {
                    assert(key@.subrange(an + 1, kn as int) =~= key@.skip(p.len() as int));
                }
                return piece.to_owned();
            }
            if key.get_char(i) != accession.get_char(i) {
                proof {
                    if p.len() <= key@.len() && key@.take(p.len() as int) == p {
                        assert(key@.take(p.len() as int)[i as int] == p[i as int]);
                    }
                }
                return key.to_owned();
            }
            i = i + 1;
        }
    }
    proof {
        if p.len() <= key@.len() && key@.take(p.len() as int) == p {
            assert(an < kn);
            assert(key@.take(p.len() as int)[an as int] == p[an as int]);
        }
    }
    key.to_owned()
}

/// The total number of bytes a manifest describes.
pub open spec fn spec_total_size(entries: Seq<(Seq<char>, u64)>) -> int
    decreases entries.len(),
{
    if entries.len() == 0 {
        0
    } else {
        spec_total_size(entries.drop_last()) + entries.last().1
    }
}

/// Sums the sizes of all entries, saturating at the largest
/// representable value.
pub fn total_size(entries: &Vec<ManifestEntry>) -> (r: u64)
    ensures
        r == if spec_total_size(entries_view(entries@)) <= u64::MAX {
            spec_total_size(entries_view(entries@))
        } else {
            u64::MAX as int
        },
{
    let n = entries.len();
    let mut sum: u64 = 0;
    let mut i: usize = 0;
    proof {
        assert(entries_view(entries@).take(0) =~= Seq::<(Seq<char>, u64)>::empty());
    }
    let ghost ev = entries_view(entries@);
    while i < n
        invariant
            n == entries@.len(),
            ev == entries_view(entries@),
            ev.len() == n,
            i <= n,
            sum == if spec_total_size(ev.take(i as int)) <= u64::MAX {
                spec_total_size(ev.take(i as int))
            } else {
                u64::MAX as int
            },
        decreases n - i,
    {
        let s = entries[i].size;
        proof {
            assert(ev.take(i + 1).drop_last() =~= ev.take(i as int));
            assert(ev.take(i + 1).last() == ev[i as int]);
            assert(ev[i as int].1 == entries@[i as int].size);
            lemma_total_size_nonneg(ev.take(i as int));
        }
        sum = sum.saturating_add(s);
        i = i + 1;
    }
    proof {
        assert(ev.take(n as int) =~= ev);
    }
    sum
}

proof fn lemma_total_size_nonneg(entries: Seq<(Seq<char>, u64)>)
    ensures
        spec_total_size(entries) >= 0,
    decreases entries.len(),
{
    if entries.len() > 0 {
        lemma_total_size_nonneg(entries.drop_last());
    }
}

} // verus!
