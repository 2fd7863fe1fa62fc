//! Accession normalization.  A canonical accession is `ds` followed by
//! decimal digits.  Free-form input such as a DOI-derived path is
//! searched for the first `ds<digits>` substring; input without one
//! passes through unchanged.

use vstd::prelude::*;

use crate::text::{is_dec_digit, is_dec_digit_exec, str_to_chars};

verus! {

/// Whether a sequence is a whole canonical accession: `ds` then one or
/// more decimal digits.
pub open spec fn is_canonical_accession(s: Seq<char>) -> bool {
    s.len() >= 3 && s[0] == 'd' && s[1] == 's' && (forall|k: int|
        2 <= k < s.len() ==> is_dec_digit(#[trigger] s[k]))
}

/// Whether `ds` followed by at least one digit starts at position `i`.
pub open spec fn ds_match_at(s: Seq<char>, i: int) -> bool {
    0 <= i && i + 3 <= s.len() && s[i] == 'd' && s[i + 1] == 's' && is_dec_digit(s[i + 2])
}

/// The first match position at or after `i`, or -1 when there is none.
pub open spec fn first_ds_from(s: Seq<char>, i: int) -> int
    decreases s.len() - i,
{
    if i < 0 || i + 3 > s.len() {
        -1
    } else if ds_match_at(s, i) {
        i
    } else {
        first_ds_from(s, i + 1)
    }
}

/// The position of the leftmost `ds<digits>` substring, or -1.
pub open spec fn first_ds(s: Seq<char>) -> int {
    first_ds_from(s, 0)
}

/// The end of the run of digits that starts at position `j`.
pub open spec fn digit_run_end(s: Seq<char>, j: int) -> int
    decreases s.len() - j,
{
    if 0 <= j < s.len() && is_dec_digit(s[j]) {
        digit_run_end(s, j + 1)
    } else {
        j
    }
}

/// The normalized accession: canonical input is returned as it is (its
/// letters are already lower case), otherwise the first `ds<digits>`
/// substring is extracted, otherwise the input passes through.
pub open spec fn normalize_accession(s: Seq<char>) -> Seq<char> {
    if is_canonical_accession(s) {
        s
    } else if first_ds(s) >= 0 {
        let i = first_ds(s);
        seq!['d', 's'] + s.subrange(i + 2, digit_run_end(s, i + 2))
    } else {
        s
    }
}

proof fn lemma_first_ds_prefix(s: Seq<char>, i: int)
    requires
        0 <= i,
        forall|k: int| 0 <= k < i ==> !ds_match_at(s, k),
    ensures
        first_ds(s) == first_ds_from(s, i),
    decreases i,
{
    if i > 0 {
        lemma_first_ds_prefix(s, i - 1);
        if (i - 1) + 3 > s.len() {
            assert(first_ds_from(s, i - 1) == -1);
            assert(first_ds_from(s, i) == -1);
        }
    }
}

proof fn lemma_digit_run(s: Seq<char>, j: int, e: int)
    requires
        0 <= j <= e <= s.len(),
        forall|k: int| j <= k < e ==> is_dec_digit(#[trigger] s[k]),
        e < s.len() ==> !is_dec_digit(s[e]),
    ensures
        digit_run_end(s, j) == e,
    decreases e - j,
{
    if j < e {
        lemma_digit_run(s, j + 1, e);
    }
}

/// Everything inside a digit run is a digit.
proof fn lemma_digit_run_digits(s: Seq<char>, j: int, k: int)
    requires
        0 <= j <= k < digit_run_end(s, j),
    ensures
        is_dec_digit(s[k]),
        digit_run_end(s, j) <= s.len(),
    decreases s.len() - j,
{
    if j < s.len() && is_dec_digit(s[j]) {
        lemma_digit_run_upper(s, j + 1);
        if k > j {
            lemma_digit_run_digits(s, j + 1, k);
        }
    }
}

proof fn lemma_digit_run_upper(s: Seq<char>, j: int)
    requires
        0 <= j <= s.len(),
    ensures
        j <= digit_run_end(s, j) <= s.len(),
    decreases s.len() - j,
{
    if j < s.len() && is_dec_digit(s[j]) {
        lemma_digit_run_upper(s, j + 1);
    }
}

/// Extracts the accession from a free-form dataset path: canonical
/// input is returned unchanged, otherwise the first `ds<digits>`
/// substring is returned, otherwise the input itself.
pub fn extract_openneuro_accession(path: &str) -> (r: String)
    ensures
        r@ == normalize_accession(path@),
{
    let chars = str_to_chars(path);
    let n = chars.len();
    // A whole-string canonical accession.
    if n >= 3 && chars[0] == 'd' && chars[1] == 's' {
        let mut k: usize = 2;
        while k < n && is_dec_digit_exec(chars[k])
            invariant
                n == chars@.len(),
                2 <= k <= n,
                forall|t: int| 2 <= t < k ==> is_dec_digit(#[trigger] chars@[t]),
            decreases n - k,
        {
            k = k + 1;
        }
        if k == n {
            assert(is_canonical_accession(path@));
            return path.to_owned();
        }
    }
    // The leftmost `ds<digits>` substring.
    assert(!is_canonical_accession(path@));
    let mut i: usize = 0;
    while n >= 3 && i <= n - 3
        invariant
            n == chars@.len(),
            chars@ == path@,
            i <= n,
            !is_canonical_accession(path@),
            forall|k: int| 0 <= k < i ==> !ds_match_at(path@, k),
        decreases n - i,
    {
        if chars[i] == 'd' && chars[i + 1] == 's' && is_dec_digit_exec(chars[i + 2]) {
            proof {
                lemma_first_ds_prefix(path@, i as int);
                assert(ds_match_at(path@, i as int));
                assert(first_ds(path@) == i);
            }
            let mut j: usize = i + 2;
            while j < n && is_dec_digit_exec(chars[j])
                invariant
                    n == chars@.len(),
                    chars@ == path@,
                    i + 2 <= j <= n,
                    forall|t: int| i + 2 <= t < j ==> is_dec_digit(#[trigger] chars@[t]),
                decreases n - j,
            {
                j = j + 1;
            }
            proof {
                lemma_digit_run(path@, i + 2, j as int);
            }
            let digits = path.substring_char(i + 2, j);
            let mut r = String::new();
            crate::text::push_char(&mut r, 'd');
            crate::text::push_char(&mut r, 's');
            let out = r.concat(digits);
            proof {
                assert(out@ =~= seq!['d', 's'] + path@.subrange(i + 2, j as int));
                assert(!is_canonical_accession(path@));
            }
            return out;
        }
        i = i + 1;
    }
    proof {
        lemma_first_ds_prefix(path@, i as int);
        assert(first_ds(path@) == -1);
        if is_canonical_accession(path@) {
            assert(ds_match_at(path@, 0));
        }
    }
    path.to_owned()
}

/// Normalization is idempotent: applying it to its own result changes
/// nothing.  In particular a canonical accession is a fixed point.
pub proof fn lemma_normalize_idempotent(s: Seq<char>)
    ensures
        normalize_accession(normalize_accession(s)) == normalize_accession(s),
{
    if is_canonical_accession(s) {
    } else if first_ds(s) >= 0 {
        let i = first_ds(s);
        lemma_first_ds_match(s, 0);
        let e = digit_run_end(s, i + 2);
        lemma_digit_run_upper(s, i + 2);
        assert(is_dec_digit(s[i + 2]));
        assert(e >= i + 3) by {
            assert(digit_run_end(s, i + 2) == digit_run_end(s, i + 3));
            lemma_digit_run_upper(s, i + 3);
        }
        let r = seq!['d', 's'] + s.subrange(i + 2, e);
        assert(r.len() >= 3);
        assert(r[0] == 'd' && r[1] == 's');
        assert forall|k: int| 2 <= k < r.len() implies is_dec_digit(#[trigger] r[k]) by {
            assert(r[k] == s.subrange(i + 2, e)[k - 2]);
            assert(r[k] == s[i + k]);
            lemma_digit_run_digits(s, i + 2, i + k);
        }
        assert(is_canonical_accession(r));
    } else {
    }
}

/// A `ds<digits>` match found by the search really is one.
proof fn lemma_first_ds_match(s: Seq<char>, i: int)
    requires
        0 <= i,
        first_ds_from(s, i) >= 0,
    ensures
        ds_match_at(s, first_ds_from(s, i)),
    decreases s.len() - i,
{
    if i + 3 <= s.len() && !ds_match_at(s, i) {
        lemma_first_ds_match(s, i + 1);
    }
}

/// Input without any `ds<digits>` substring passes through unchanged.
pub proof fn lemma_no_accession_unchanged(s: Seq<char>)
    requires
        forall|i: int| !ds_match_at(s, i),
    ensures
        normalize_accession(s) == s,
{
    if is_canonical_accession(s) {
        assert(ds_match_at(s, 0));
    }
    if first_ds(s) >= 0 {
        lemma_first_ds_match(s, 0);
    }
}

} // verus!
