//! The AWS Signature Version 4 signer.  From a request description and
//! credentials it produces the `Authorization` header value, byte for
//! byte: header names are lower-cased, headers are sorted by name,
//! the canonical request and the string to sign are assembled, and the
//! signature is four chained keyed hashes over them.  The hashes
//! themselves are named (see `crate::crypto`); everything assembled
//! around them is verified.

use vstd::prelude::*;

use crate::crypto::{hex_encode, hmac_sha256, sha256_hex, spec_hmac_sha256, spec_sha256};
use crate::text::{
    hex_of, lower_chars, lower_string, seq_le, str_le, trim_chars, trim_string,
};
use crate::timestamp::{
    basic_date, basic_timestamp, spec_basic_date, spec_basic_timestamp, UtcTime,
};
use crate::urlparse::{
    split_url, spec_url_ok, spec_url_path, spec_url_query,
};
use vstd::utf8::encode_utf8;

verus! {

/// The views of a list of header pairs.
pub open spec fn pair_views(hs: Seq<(String, String)>) -> Seq<(Seq<char>, Seq<char>)> {
    hs.map_values(|h: (String, String)| (h.0@, h.1@))
}

/// Header pairs with their names lower-cased.
pub open spec fn spec_lower_names(hs: Seq<(Seq<char>, Seq<char>)>) -> Seq<(Seq<char>, Seq<char>)> {
    hs.map_values(|h: (Seq<char>, Seq<char>)| (lower_chars(h.0), h.1))
}

/// Stable insertion of a header into a name-sorted list: the new pair
/// goes after every pair whose name compares at or below its own.
pub open spec fn spec_insert_header(
    h: (Seq<char>, Seq<char>),
    s: Seq<(Seq<char>, Seq<char>)>,
) -> Seq<(Seq<char>, Seq<char>)>
    decreases s.len(),
{
    if s.len() == 0 {
        seq![h]
    } else if seq_le(s.first().0, h.0) {
        seq![s.first()] + spec_insert_header(h, s.drop_first())
    } else {
        seq![h] + s
    }
}

/// Stable insertion sort of header pairs by name.
pub open spec fn spec_sort_headers(s: Seq<(Seq<char>, Seq<char>)>) -> Seq<(Seq<char>, Seq<char>)>
    decreases s.len(),
{
    if s.len() == 0 {
        Seq::empty()
    } else {
        spec_insert_header(s.last(), spec_sort_headers(s.drop_last()))
    }
}

/// One line of the canonical headers block: `name:trimmed-value`
/// followed by a line feed.
pub open spec fn spec_header_line(h: (Seq<char>, Seq<char>)) -> Seq<char> {
    h.0 + seq![':'] + trim_chars(h.1) + seq!['\n']
}

/// The canonical headers block: one line per pair, in order.
pub open spec fn spec_canonical_headers(hs: Seq<(Seq<char>, Seq<char>)>) -> Seq<char>
    decreases hs.len(),
{
    if hs.len() == 0 {
        Seq::empty()
    } else {
        spec_canonical_headers(hs.drop_last()) + spec_header_line(hs.last())
    }
}

/// The signed-header list: the names, in order, joined by semicolons.
pub open spec fn spec_signed_headers(hs: Seq<(Seq<char>, Seq<char>)>) -> Seq<char>
    decreases hs.len(),
{
    if hs.len() == 0 {
        Seq::empty()
    } else if hs.len() == 1 {
        hs.last().0
    } else {
        spec_signed_headers(hs.drop_last()) + seq![';'] + hs.last().0
    }
}

/// The canonical request over already-sorted headers.
pub open spec fn spec_canonical_request(
    method: Seq<char>,
    path: Seq<char>,
    query: Seq<char>,
    sorted: Seq<(Seq<char>, Seq<char>)>,
    payload_hash: Seq<char>,
) -> Seq<char> {
    method + seq!['\n'] + path + seq!['\n'] + query + seq!['\n'] + spec_canonical_headers(sorted)
        + seq!['\n'] + spec_signed_headers(sorted) + seq!['\n'] + payload_hash
}

/// The credential scope: `date/region/s3/aws4_request`.
pub open spec fn spec_credential_scope(date: Seq<char>, region: Seq<char>) -> Seq<char> {
    date + seq!['/'] + region + "/s3/aws4_request"@
}

/// The string to sign: algorithm tag, timestamp, scope, and the hex
/// digest of the canonical request.
pub open spec fn spec_string_to_sign(
    timestamp: Seq<char>,
    scope: Seq<char>,
    canonical_request: Seq<char>,
) -> Seq<char> {
    "AWS4-HMAC-SHA256\n"@ + timestamp + seq!['\n'] + scope + seq!['\n'] + hex_of(
        spec_sha256(encode_utf8(canonical_request)),
    )
}

/// The signing key: four chained keyed hashes seeded with the secret.
pub open spec fn spec_signing_key(secret: Seq<char>, date: Seq<char>, region: Seq<char>) -> Seq<
    u8,
> {
    spec_hmac_sha256(
        spec_hmac_sha256(
            spec_hmac_sha256(
                spec_hmac_sha256(encode_utf8("AWS4"@ + secret), encode_utf8(date)),
                encode_utf8(region),
            ),
            encode_utf8("s3"@),
        ),
        encode_utf8("aws4_request"@),
    )
}

/// The final Authorization header value.
pub open spec fn spec_authorization_value(
    access: Seq<char>,
    scope: Seq<char>,
    signed_headers: Seq<char>,
    signature_hex: Seq<char>,
) -> Seq<char> {
    "AWS4-HMAC-SHA256 Credential="@ + access + seq!['/'] + scope + ", SignedHeaders="@
        + signed_headers + ", Signature="@ + signature_hex
}

/// The whole signature computation, from the request description down
/// to the Authorization header value.
pub open spec fn spec_sigv4_authorization(
    method: Seq<char>,
    path: Seq<char>,
    query: Seq<char>,
    headers: Seq<(Seq<char>, Seq<char>)>,
    access: Seq<char>,
    secret: Seq<char>,
    region: Seq<char>,
    t: UtcTime,
    payload_hash: Seq<char>,
) -> Seq<char> {
    let sorted = spec_sort_headers(spec_lower_names(headers));
    let date = spec_basic_date(t);
    let scope = spec_credential_scope(date, region);
    let creq = spec_canonical_request(method, path, query, sorted, payload_hash);
    let sts = spec_string_to_sign(spec_basic_timestamp(t), scope, creq);
    let signature = spec_hmac_sha256(spec_signing_key(secret, date, region), encode_utf8(sts));
    spec_authorization_value(access, scope, spec_signed_headers(sorted), hex_of(signature))
}

proof fn lemma_insert_at(
    h: (Seq<char>, Seq<char>),
    s: Seq<(Seq<char>, Seq<char>)>,
    j: int,
)
    requires
        0 <= j <= s.len(),
        forall|k: int| 0 <= k < j ==> seq_le(#[trigger] s[k].0, h.0),
        j < s.len() ==> !seq_le(s[j].0, h.0),
    ensures
        spec_insert_header(h, s) == s.take(j) + seq![h] + s.skip(j),
    decreases j,
{
    if j == 0 {
        if s.len() == 0 {
            assert(spec_insert_header(h, s) =~= s.take(0) + seq![h] + s.skip(0));
        } else {
            assert(spec_insert_header(h, s) =~= s.take(0) + seq![h] + s.skip(0));
        }
    } else {
        assert(seq_le(s[0].0, h.0));
        lemma_insert_at(h, s.drop_first(), j - 1);
        assert(s.drop_first().take(j - 1) =~= s.take(j).drop_first());
        assert(s.drop_first().skip(j - 1) =~= s.skip(j));
        assert(seq![s.first()] + (s.drop_first().take(j - 1) + seq![h] + s.drop_first().skip(j - 1))
            =~= s.take(j) + seq![h] + s.skip(j));
    }
}

fn insert_header(out: &mut Vec<(String, String)>, h: (String, String))
    ensures
        pair_views(final(out)@) == spec_insert_header((h.0@, h.1@), pair_views(old(out)@)),
{
    let n = out.len();
    let mut j: usize = 0;
    while j < n && str_le(out[j].0.as_str(), h.0.as_str())
        invariant
            n == out@.len(),
            out@ == old(out)@,
            j <= n,
            forall|k: int| 0 <= k < j ==> seq_le(#[trigger] pair_views(out@)[k].0, h.0@),
        decreases n - j,
    {
        j = j + 1;
    }
    proof {
        lemma_insert_at((h.0@, h.1@), pair_views(out@), j as int);
    }
    let ghost before = pair_views(out@);
    out.insert(j, h);
    proof {
        assert(pair_views(out@) =~= before.take(j as int) + seq![(h.0@, h.1@)] + before.skip(
            j as int,
        ));
    }
}

/// Sorts header pairs by name, stably.
fn sort_headers(hs: Vec<(String, String)>) -> (r: Vec<(String, String)>)
    ensures
        pair_views(r@) == spec_sort_headers(pair_views(hs@)),
{
    let n = hs.len();
    let mut out: Vec<(String, String)> = Vec::new();
    let mut i: usize = 0;
    proof {
        assert(pair_views(hs@).take(0) =~= Seq::<(Seq<char>, Seq<char>)>::empty());
        assert(pair_views(out@) =~= spec_sort_headers(pair_views(hs@).take(0)));
    }
    let mut rest = hs;
    let ghost all = pair_views(rest@);
    proof {
        assert(all.skip(0) =~= all);
    }
    while i < n
        invariant
            all.len() == n,
            i <= n,
            pair_views(rest@) == all.skip(i as int),
            pair_views(out@) == spec_sort_headers(all.take(i as int)),
        decreases n - i,
    {
        proof {
            assert(pair_views(rest@).len() == n - i);
            assert(rest@.len() == n - i);
        }
        let ghost prev = rest@;
        let h = rest.remove(0);
        proof {
            assert(rest@ == prev.remove(0));
            assert(h == prev[0]);
            assert((h.0@, h.1@) == pair_views(prev)[0]);
            assert((h.0@, h.1@) == all[i as int]) by {
                assert(pair_views(prev)[0] == all.skip(i as int)[0]);
            }
            assert forall|k: int| 0 <= k < rest@.len() implies pair_views(rest@)[k] == all.skip(
                i + 1,
            )[k] by {
                assert(rest@[k] == prev[k + 1]);
                assert(pair_views(prev)[k + 1] == all.skip(i as int)[k + 1]);
            }
            assert(pair_views(rest@) =~= all.skip(i + 1));
        }
        insert_header(&mut out, h);
        proof {
            assert(all.take(i + 1).drop_last() =~= all.take(i as int));
            assert(all.take(i + 1).last() == all[i as int]);
        }
        i = i + 1;
    }
    proof {
        assert(all.take(n as int) =~= all);
    }
    out
}

/// Whether a pair list is ordered by name.
pub open spec fn headers_sorted(s: Seq<(Seq<char>, Seq<char>)>) -> bool {
    forall|i: int, j: int| 0 <= i < j < s.len() ==> seq_le(#[trigger] s[i].0, #[trigger] s[j].0)
}

/// Every element of an insertion is the inserted pair or one of the
/// old ones, and exactly one slot was added.
proof fn lemma_insert_header_elements(h: (Seq<char>, Seq<char>), s: Seq<(Seq<char>, Seq<char>)>)
    ensures
        spec_insert_header(h, s).len() == s.len() + 1,
        forall|k: int|
            0 <= k < spec_insert_header(h, s).len() ==> #[trigger] spec_insert_header(h, s)[k] == h
                || exists|m: int| 0 <= m < s.len() && s[m] == spec_insert_header(h, s)[k],
    decreases s.len(),
{
    let r = spec_insert_header(h, s);
    if s.len() == 0 {
    } else if seq_le(s.first().0, h.0) {
        lemma_insert_header_elements(h, s.drop_first());
        let rest = spec_insert_header(h, s.drop_first());
        assert forall|k: int| 0 <= k < r.len() implies #[trigger] r[k] == h || exists|m: int|
            0 <= m < s.len() && s[m] == r[k] by {
            if k == 0 {
                assert(r[0] == s[0]);
            } else {
                assert(r[k] == rest[k - 1]);
                if rest[k - 1] != h {
                    let m = choose|m: int| 0 <= m < s.drop_first().len() && s.drop_first()[m]
                        == rest[k - 1];
                    assert(s[m + 1] == r[k]);
                }
            }
        }
    } else {
        assert forall|k: int| 0 <= k < r.len() implies #[trigger] r[k] == h || exists|m: int|
            0 <= m < s.len() && s[m] == r[k] by {
            if k > 0 {
                assert(s[k - 1] == r[k]);
            }
        }
    }
}

/// Inserting into an ordered list keeps it ordered.
proof fn lemma_insert_header_sorted(h: (Seq<char>, Seq<char>), s: Seq<(Seq<char>, Seq<char>)>)
    requires
        headers_sorted(s),
    ensures
        headers_sorted(spec_insert_header(h, s)),
    decreases s.len(),
{
    let r = spec_insert_header(h, s);
    if s.len() == 0 {
    } else if seq_le(s.first().0, h.0) {
        let tail = s.drop_first();
        assert(headers_sorted(tail)) by {
            assert(forall|i: int, j: int|
                0 <= i < j < tail.len() ==> tail[i] == s[i + 1] && tail[j] == s[j + 1]);
        }
        lemma_insert_header_sorted(h, tail);
        lemma_insert_header_elements(h, tail);
        let rest = spec_insert_header(h, tail);
        assert forall|i: int, j: int| 0 <= i < j < r.len() implies seq_le(
            #[trigger] r[i].0,
            #[trigger] r[j].0,
        ) by {
            if i == 0 {
                assert(r[j] == rest[j - 1]);
                if rest[j - 1] == h {
                    assert(seq_le(s[0].0, h.0));
                } else {
                    let m = choose|m: int| 0 <= m < tail.len() && tail[m] == rest[j - 1];
                    assert(tail[m] == s[m + 1]);
                    assert(seq_le(s[0].0, s[m + 1].0));
                }
            } else {
                assert(r[i] == rest[i - 1] && r[j] == rest[j - 1]);
            }
        }
    } else {
        crate::text::lemma_seq_le_total(s.first().0, h.0);
        assert(seq_le(h.0, s.first().0));
        assert forall|i: int, j: int| 0 <= i < j < r.len() implies seq_le(
            #[trigger] r[i].0,
            #[trigger] r[j].0,
        ) by {
            if i == 0 {
                assert(r[j] == s[j - 1]);
                if j > 1 {
                    assert(seq_le(s[0].0, s[j - 1].0));
                    crate::text::lemma_seq_le_trans(h.0, s[0].0, s[j - 1].0);
                }
            } else {
                assert(r[i] == s[i - 1] && r[j] == s[j - 1]);
            }
        }
    }
}

/// Inserting a pair adds exactly it to the contents.
proof fn lemma_insert_header_multiset(h: (Seq<char>, Seq<char>), s: Seq<(Seq<char>, Seq<char>)>)
    ensures
        spec_insert_header(h, s).to_multiset() == s.to_multiset().insert(h),
    decreases s.len(),
{
    broadcast use vstd::seq_lib::group_seq_properties;
    broadcast use vstd::multiset::group_multiset_axioms;

    let r = spec_insert_header(h, s);
    if s.len() == 0 {
        assert(r =~= Seq::<(Seq<char>, Seq<char>)>::empty().push(h));
        assert(Seq::<(Seq<char>, Seq<char>)>::empty().push(h).to_multiset() =~= Seq::<
            (Seq<char>, Seq<char>),
        >::empty().to_multiset().insert(h));
        assert(s.to_multiset() =~= Seq::<(Seq<char>, Seq<char>)>::empty().to_multiset());
    } else if seq_le(s.first().0, h.0) {
        lemma_insert_header_multiset(h, s.drop_first());
        let rest = spec_insert_header(h, s.drop_first());
        assert(r =~= seq![s.first()] + rest);
        vstd::seq_lib::lemma_multiset_commutative(seq![s.first()], rest);
        assert(s =~= seq![s.first()] + s.drop_first());
        vstd::seq_lib::lemma_multiset_commutative(seq![s.first()], s.drop_first());
        assert(r.to_multiset() =~= s.to_multiset().insert(h));
    } else {
        assert(r =~= seq![h] + s);
        vstd::seq_lib::lemma_multiset_commutative(seq![h], s);
        assert(seq![h] =~= Seq::<(Seq<char>, Seq<char>)>::empty().push(h));
        assert(seq![h].to_multiset() =~= vstd::multiset::Multiset::<
            (Seq<char>, Seq<char>),
        >::empty().insert(h));
        assert(r.to_multiset() =~= s.to_multiset().insert(h));
    }
}

/// The header sort really sorts: its result is ordered by name and
/// holds exactly the pairs it was given.
pub proof fn lemma_sort_headers_ensures(s: Seq<(Seq<char>, Seq<char>)>)
    ensures
        headers_sorted(spec_sort_headers(s)),
        spec_sort_headers(s).to_multiset() == s.to_multiset(),
    decreases s.len(),
{
    broadcast use vstd::seq_lib::group_seq_properties;
    broadcast use vstd::multiset::group_multiset_axioms;

    if s.len() == 0 {
    } else {
        lemma_sort_headers_ensures(s.drop_last());
        lemma_insert_header_sorted(s.last(), spec_sort_headers(s.drop_last()));
        lemma_insert_header_multiset(s.last(), spec_sort_headers(s.drop_last()));
        assert(s =~= s.drop_last().push(s.last()));
        assert(s.drop_last().push(s.last()).to_multiset() =~= s.drop_last().to_multiset().insert(
            s.last(),
        ));
    }
}

/// The signature is a function of the request description alone: two
/// calls whose method, URL parts, headers, credentials, region,
/// timestamp and payload hash agree produce the same Authorization
/// value, in every process and on every machine.
pub proof fn lemma_authorization_deterministic(
    method1: Seq<char>,
    path1: Seq<char>,
    query1: Seq<char>,
    headers1: Seq<(Seq<char>, Seq<char>)>,
    access1: Seq<char>,
    secret1: Seq<char>,
    region1: Seq<char>,
    t1: UtcTime,
    payload1: Seq<char>,
    method2: Seq<char>,
    path2: Seq<char>,
    query2: Seq<char>,
    headers2: Seq<(Seq<char>, Seq<char>)>,
    access2: Seq<char>,
    secret2: Seq<char>,
    region2: Seq<char>,
    t2: UtcTime,
    payload2: Seq<char>,
)
    requires
        method1 == method2,
        path1 == path2,
        query1 == query2,
        headers1 == headers2,
        access1 == access2,
        secret1 == secret2,
        region1 == region2,
        t1 == t2,
        payload1 == payload2,
    ensures
        spec_sigv4_authorization(
            method1,
            path1,
            query1,
            headers1,
            access1,
            secret1,
            region1,
            t1,
            payload1,
        ) == spec_sigv4_authorization(
            method2,
            path2,
            query2,
            headers2,
            access2,
            secret2,
            region2,
            t2,
            payload2,
        ),
{
}

/// Why a request could not be signed.
#[derive(Clone, Copy, Debug, PartialEq, Eq, Structural)]
pub enum SigningError {
    /// The request URL was not an absolute URL with a host.
    InvalidUrl,
}

/// Builds the canonical headers block and the signed-header list from
/// already-sorted, already-lower-cased pairs.
fn canonical_header_strings(sorted: &Vec<(String, String)>) -> (r: (String, String))
    ensures
        r.0@ == spec_canonical_headers(pair_views(sorted@)),
        r.1@ == spec_signed_headers(pair_views(sorted@)),
{
    let n = sorted.len();
    let ghost views = pair_views(sorted@);
    let mut block = String::new();
    let mut names = String::new();
    let mut k: usize = 0;
    proof {
        assert(views.take(0) =~= Seq::<(Seq<char>, Seq<char>)>::empty());
    }
    while k < n
        invariant
            n == sorted@.len(),
            views == pair_views(sorted@),
            k <= n,
            block@ == spec_canonical_headers(views.take(k as int)),
            names@ == spec_signed_headers(views.take(k as int)),
        decreases n - k,
    {
        proof {
            assert(views.take(k + 1).drop_last() =~= views.take(k as int));
            assert(views.take(k + 1).last() == views[k as int]);
        }
        let value_trimmed = trim_string(sorted[k].1.as_str());
        block.append(sorted[k].0.as_str());
        crate::text::push_char(&mut block, ':');
        block.append(value_trimmed.as_str());
        crate::text::push_char(&mut block, '\n');
        proof {
            assert(block@ =~= spec_canonical_headers(views.take(k as int)) + spec_header_line(
                views[k as int],
            ));
        }
        if k > 0 {
            crate::text::push_char(&mut names, ';');
        }
        names.append(sorted[k].0.as_str());
        proof {
            if k == 0 {
                assert(names@ =~= views[0].0);
                assert(views.take(1).len() == 1);
            } else {
                assert(names@ =~= spec_signed_headers(views.take(k as int)) + seq![';']
                    + views[k as int].0);
            }
        }
        k = k + 1;
    }
    proof {
        assert(views.take(n as int) =~= views);
    }
    (block, names)
}

/// Computes the `Authorization` header value for one request under the
/// published AWS Signature Version 4 scheme, for the `s3` service.  The
/// payload hash argument is either the hex digest of the body or the
/// `UNSIGNED-PAYLOAD` sentinel, and is signed verbatim.  Fails exactly
/// when the URL cannot be split into host, path and query.
pub fn generate_aws_signature_v4(
    method: &str,
    url: &str,
    headers: &Vec<(String, String)>,
    access_key: &str,
    secret_key: &str,
    region: &str,
    t: &UtcTime,
    payload_hash: &str,
) -> (r: Result<String, SigningError>)
    requires
        t.wf(),
    ensures
        r is Ok <==> spec_url_ok(url@),
        r matches Ok(auth) ==> auth@ == spec_sigv4_authorization(
            method@,
            spec_url_path(url@),
            spec_url_query(url@),
            pair_views(headers@),
            access_key@,
            secret_key@,
            region@,
            *t,
            payload_hash@,
        ),
{
    let parts = match split_url(url) {
        Some(p) => p,
        None => {
            return Err(SigningError::InvalidUrl);
        },
    };
    // Lower-case every header name.
    let n = headers.len();
    let mut lowered: Vec<(String, String)> = Vec::new();
    let mut i: usize = 0;
    proof {
        assert(pair_views(headers@).take(0) =~= Seq::<(Seq<char>, Seq<char>)>::empty());
        assert(pair_views(lowered@) =~= spec_lower_names(pair_views(headers@).take(0)));
    }
    while i < n
        invariant
            n == headers@.len(),
            i <= n,
            pair_views(lowered@) == spec_lower_names(pair_views(headers@).take(i as int)),
        decreases n - i,
    {
        let name = lower_string(headers[i].0.as_str());
        let value = headers[i].1.clone();
        lowered.push((name, value));
        proof {
            let hv = pair_views(headers@);
            assert(hv.take(i + 1).drop_last() =~= hv.take(i as int));
            assert(hv.take(i + 1).last() == hv[i as int]);
            assert(pair_views(lowered@) =~= spec_lower_names(hv.take(i as int)).push(
                (lower_chars(hv[i as int].0), hv[i as int].1),
            ));
            assert(spec_lower_names(hv.take(i + 1)) =~= spec_lower_names(hv.take(i as int)).push(
                (lower_chars(hv[i as int].0), hv[i as int].1),
            ));
        }
        i = i + 1;
    }
    proof {
        assert(pair_views(headers@).take(n as int) =~= pair_views(headers@));
    }
    let sorted = sort_headers(lowered);
    let ghost sorted_views = spec_sort_headers(spec_lower_names(pair_views(headers@)));
    let (canonical_headers, signed_headers) = canonical_header_strings(&sorted);

    // The canonical request.
    let mut creq = String::from_str(method);
    crate::text::push_char(&mut creq, '\n');
    creq.append(parts.path.as_str());
    crate::text::push_char(&mut creq, '\n');
    creq.append(parts.query.as_str());
    crate::text::push_char(&mut creq, '\n');
    creq.append(canonical_headers.as_str());
    crate::text::push_char(&mut creq, '\n');
    creq.append(signed_headers.as_str());
    crate::text::push_char(&mut creq, '\n');
    creq.append(payload_hash);
    proof {
        assert(creq@ =~= spec_canonical_request(
            method@,
            spec_url_path(url@),
            spec_url_query(url@),
            sorted_views,
            payload_hash@,
        ));
    }

    // The string to sign.
    let date = basic_date(t);
    let ts = basic_timestamp(t);
    let mut scope = date.clone();
    crate::text::push_char(&mut scope, '/');
    scope.append(region);
    scope.append("/s3/aws4_request");
    proof {
        assert(scope@ =~= spec_credential_scope(spec_basic_date(*t), region@));
    }
    let creq_hash = sha256_hex(creq.as_str().as_bytes());
    let mut sts = String::from_str("AWS4-HMAC-SHA256\n");
    sts.append(ts.as_str());
    crate::text::push_char(&mut sts, '\n');
    sts.append(scope.as_str());
    crate::text::push_char(&mut sts, '\n');
    sts.append(creq_hash.as_str());
    proof {
        assert(sts@ =~= spec_string_to_sign(spec_basic_timestamp(*t), scope@, creq@));
    }

    // The signing key and the signature.
    let mut seed = String::from_str("AWS4");
    seed.append(secret_key);
    let k_date = hmac_sha256(seed.as_str().as_bytes(), date.as_str().as_bytes());
    let k_region = hmac_sha256(k_date.as_slice(), region.as_bytes());
    let k_service = hmac_sha256(k_region.as_slice(), "s3".as_bytes());
    let k_signing = hmac_sha256(k_service.as_slice(), "aws4_request".as_bytes());
    let signature = hmac_sha256(k_signing.as_slice(), sts.as_str().as_bytes());
    let signature_hex = hex_encode(signature.as_slice());
    proof {
        assert(k_signing@ == spec_signing_key(secret_key@, spec_basic_date(*t), region@));
    }

    // The Authorization header value.
    let mut auth = String::from_str("AWS4-HMAC-SHA256 Credential=");
    auth.append(access_key);
    crate::text::push_char(&mut auth, '/');
    auth.append(scope.as_str());
    auth.append(", SignedHeaders=");
    auth.append(signed_headers.as_str());
    auth.append(", Signature=");
    auth.append(signature_hex.as_str());
    proof {
        assert(auth@ =~= spec_authorization_value(
            access_key@,
            scope@,
            spec_signed_headers(sorted_views),
            hex_of(signature@),
        ));
    }
    Ok(auth)
}

} // verus!
