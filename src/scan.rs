//! Byte-scanning primitives used by the parsers: delimiter search, CRLF
//! search, whitespace skipping, token validation and ASCII case folding.
use vstd::prelude::*;
use vstd::slice::slice_subrange;

verus! {

/// `r` is the position of the first `d` in `s`, or `None` when `s` holds no `d`.
pub open spec fn first_byte_result(s: Seq<u8>, d: u8, r: Option<usize>) -> bool {
    match r {
        Some(i) => i < s.len() && s[i as int] == d && forall|j: int| 0 <= j < i ==> s[j] != d,
        None => forall|j: int| 0 <= j < s.len() ==> s[j] != d,
    }
}

/// A `\r\n` pair starts at position `i` of `s`.
pub open spec fn crlf_at(s: Seq<u8>, i: int) -> bool {
    0 <= i && i + 1 < s.len() && s[i] == 13u8 && s[i + 1] == 10u8
}

/// `r` is the start of the first `\r\n` in `s`, or `None` when there is none.
pub open spec fn first_crlf_result(s: Seq<u8>, r: Option<usize>) -> bool {
    match r {
        Some(i) => crlf_at(s, i as int) && forall|j: int| 0 <= j < i ==> !crlf_at(s, j),
        None => forall|j: int| 0 <= j < s.len() ==> !crlf_at(s, j),
    }
}

/// Space or horizontal tab.
pub open spec fn is_ws(b: u8) -> bool {
    b == 32u8 || b == 9u8
}

/// The characters allowed in an HTTP token.
pub open spec fn is_tchar(b: u8) -> bool {
    (65u8 <= b <= 90u8) || (97u8 <= b <= 122u8) || (48u8 <= b <= 57u8) || b == 33u8 || b == 35u8
        || b == 36u8 || b == 37u8 || b == 38u8 || b == 39u8 || b == 42u8 || b == 43u8 || b
        == 45u8 || b == 46u8 || b == 94u8 || b == 95u8 || b == 96u8 || b == 124u8 || b == 126u8
}

/// A non-empty sequence of token characters.
pub open spec fn is_token(s: Seq<u8>) -> bool {
    s.len() > 0 && forall|i: int| 0 <= i < s.len() ==> is_tchar(s[i])
}

/// The number of leading spaces and tabs of `s`.
pub open spec fn leading_ws(s: Seq<u8>) -> nat
    decreases s.len(),
{
    if s.len() > 0 && is_ws(s[0]) {
        1 + leading_ws(s.drop_first())
    } else {
        0
    }
}

/// ASCII lowercase letters mapped to uppercase; every other byte kept.
pub open spec fn upper_byte(b: u8) -> u8 {
    if 97u8 <= b <= 122u8 {
        (b - 32) as u8
    } else {
        b
    }
}

pub open spec fn upper_seq(s: Seq<u8>) -> Seq<u8> {
    Seq::new(s.len(), |i: int| upper_byte(s[i]))
}


/// The first position at or after `i` where a `\r\n` starts.
pub open spec fn find_crlf_from(s: Seq<u8>, i: int) -> Option<int>
    decreases s.len() - i,
{
    if i < 0 || i + 1 >= s.len() {
        None
    } else if crlf_at(s, i) {
        Some(i)
    } else {
        find_crlf_from(s, i + 1)
    }
}

/// The first position at or after `i` that holds `d`.
pub open spec fn find_byte_from(s: Seq<u8>, d: u8, i: int) -> Option<int>
    decreases s.len() - i,
{
    if i < 0 || i >= s.len() {
        None
    } else if s[i] == d {
        Some(i)
    } else {
        find_byte_from(s, d, i + 1)
    }
}

pub proof fn lemma_find_crlf_from(s: Seq<u8>, i: int)
    requires
        0 <= i,
    ensures
        match find_crlf_from(s, i) {
            Some(k) => i <= k && crlf_at(s, k) && forall|j: int| i <= j < k ==> !crlf_at(s, j),
            None => forall|j: int| i <= j < s.len() ==> !crlf_at(s, j),
        },
    decreases s.len() - i,
{
    if i + 1 < s.len() && !crlf_at(s, i) {
        lemma_find_crlf_from(s, i + 1);
    }
}

pub proof fn lemma_find_byte_from(s: Seq<u8>, d: u8, i: int)
    requires
        0 <= i,
    ensures
        match find_byte_from(s, d, i) {
            Some(k) => i <= k < s.len() && s[k] == d && forall|j: int| i <= j < k ==> s[j] != d,
            None => forall|j: int| i <= j < s.len() ==> s[j] != d,
        },
    decreases s.len() - i,
{
    if i < s.len() && s[i] != d {
        lemma_find_byte_from(s, d, i + 1);
    }
}

/// A CRLF search on the tail of `s` that starts at `i` agrees with `find_crlf_from`.
pub proof fn lemma_crlf_on_tail(s: Seq<u8>, i: int, r: Option<usize>)
    requires
        0 <= i <= s.len(),
        first_crlf_result(s.subrange(i, s.len() as int), r),
    ensures
        find_crlf_from(s, i) == match r {
            Some(k) => Some(i + k),
            None => None::<int>,
        },
{
    let t = s.subrange(i, s.len() as int);
    lemma_find_crlf_from(s, i);
    assert forall|j: int| 0 <= j < t.len() implies crlf_at(t, j) == crlf_at(s, i + j) by {}
    match r {
        Some(k) => {
            assert(crlf_at(s, i + k));
            match find_crlf_from(s, i) {
                Some(m) => {
                    if m < i + k {
                        assert(crlf_at(t, m - i));
                    }
                },
                None => {},
            }
        },
        None => {
            match find_crlf_from(s, i) {
                Some(m) => {
                    assert(crlf_at(t, m - i));
                },
                None => {},
            }
        },
    }
}

/// A byte search on the tail of `s` that starts at `i` agrees with `find_byte_from`.
pub proof fn lemma_byte_on_tail(s: Seq<u8>, d: u8, i: int, r: Option<usize>)
    requires
        0 <= i <= s.len(),
        first_byte_result(s.subrange(i, s.len() as int), d, r),
    ensures
        find_byte_from(s, d, i) == match r {
            Some(k) => Some(i + k),
            None => None::<int>,
        },
{
    let t = s.subrange(i, s.len() as int);
    lemma_find_byte_from(s, d, i);
    match r {
        Some(k) => {
            assert(s[i + k] == t[k as int]);
            match find_byte_from(s, d, i) {
                Some(m) => {
                    if m < i + k {
                        assert(t[m - i] == s[m]);
                    }
                },
                None => {},
            }
        },
        None => {
            match find_byte_from(s, d, i) {
                Some(m) => {
                    assert(t[m - i] == s[m]);
                },
                None => {},
            }
        },
    }
}

/// The delimiter and CRLF search results are each determined by the input
/// alone: two results that both meet a scanner's contract are the same value.
pub proof fn lemma_scan_results_unique(
    s: Seq<u8>,
    d: u8,
    a: Option<usize>,
    b: Option<usize>,
    c: Option<usize>,
    e: Option<usize>,
)
    requires
        first_byte_result(s, d, a),
        first_byte_result(s, d, b),
        first_crlf_result(s, c),
        first_crlf_result(s, e),
    ensures
        a == b,
        c == e,
{
    match (a, b) {
        (Some(i), Some(j)) => {
            if i < j {
                assert(s[i as int] == d);
            } else if j < i {
                assert(s[j as int] == d);
            }
        },
        (Some(i), None) => {
            assert(s[i as int] == d);
        },
        (None, Some(j)) => {
            assert(s[j as int] == d);
        },
        (None, None) => {},
    }
    match (c, e) {
        (Some(i), Some(j)) => {
            if i < j {
                assert(crlf_at(s, i as int));
            } else if j < i {
                assert(crlf_at(s, j as int));
            }
        },
        (Some(i), None) => {
            assert(crlf_at(s, i as int));
        },
        (None, Some(j)) => {
            assert(crlf_at(s, j as int));
        },
        (None, None) => {},
    }
}

/// Relies on memchr::memchr: the index of the first byte of `haystack` equal
/// to `needle`, or `None` when no byte is.
#[verifier::external_body]
fn memchr_first(needle: u8, haystack: &[u8]) -> (r: Option<usize>)
    ensures
        first_byte_result(haystack@, needle, r),
{
    memchr::memchr(needle, haystack)
}

/// Finds the first occurrence of one configured byte.
#[derive(Debug, Clone, Copy)]
pub struct SimdDelimiterFinder {
    delimiter: u8,
}

impl SimdDelimiterFinder {
    pub closed spec fn delim(&self) -> u8 {
        self.delimiter
    }

    pub fn new(delimiter: u8) -> (r: Self)
        ensures
            r.delim() == delimiter,
    {
        SimdDelimiterFinder { delimiter }
    }

    pub fn find_in(&self, haystack: &[u8]) -> (r: Option<usize>)
        ensures
            first_byte_result(haystack@, self.delim(), r),
    {
        memchr_first(self.delimiter, haystack)
    }
}

/// Finds the first `\r\n`.
#[derive(Debug, Clone, Copy)]
pub struct SimdCrlfFinder {}

impl SimdCrlfFinder {
    pub fn new() -> (r: Self) {
        SimdCrlfFinder {  }
    }

    pub fn find_crlf(&self, haystack: &[u8]) -> (r: Option<usize>)
        ensures
            first_crlf_result(haystack@, r),
    {
        let len = haystack.len();
        if len < 2 {
            return None;
        }
        let mut i: usize = 0;
        while i < len - 1
            invariant
                len == haystack@.len(),
                len >= 2,
                i <= len,
                forall|j: int| 0 <= j < i ==> !crlf_at(haystack@, j),
            decreases len - i,
        {
            if haystack[i] == 13u8 && haystack[i + 1] == 10u8 {
                return Some(i);
            }
            i = i + 1;
        }
        None
    }
}

/// Folds ASCII lowercase letters to uppercase in place.
pub struct SimdUppercaseConverter;

impl SimdUppercaseConverter {
    pub fn convert(input: &mut Vec<u8>)
        ensures
            final(input)@ == upper_seq(old(input)@),
    {
        let len = input.len();
        let mut i: usize = 0;
        while i < len
            invariant
                len == old(input)@.len(),
                input@.len() == len,
                i <= len,
                forall|j: int| 0 <= j < i ==> input@[j] == upper_byte(old(input)@[j]),
                forall|j: int| i <= j < len ==> input@[j] == old(input)@[j],
            decreases len - i,
        {
            let b = input[i];
            if b >= 97u8 && b <= 122u8 {
                input.set(i, b - 32);
            }
            i = i + 1;
        }
        assert(input@ =~= upper_seq(old(input)@));
    }
}

/// Checks that a byte string is a non-empty HTTP token.
pub struct SimdTokenValidator;

impl SimdTokenValidator {
    pub fn is_tchar(b: u8) -> (r: bool)
        ensures
            r == is_tchar(b),
    {
        (b >= 65 && b <= 90) || (b >= 97 && b <= 122) || (b >= 48 && b <= 57) || b == 33 || b
            == 35 || b == 36 || b == 37 || b == 38 || b == 39 || b == 42 || b == 43 || b == 45
            || b == 46 || b == 94 || b == 95 || b == 96 || b == 124 || b == 126
    }

    pub fn is_valid_token(input: &[u8]) -> (r: bool)
        ensures
            r == is_token(input@),
    {
        let len = input.len();
        if len == 0 {
            return false;
        }
        let mut i: usize = 0;
        while i < len
            invariant
                len == input@.len(),
                i <= len,
                forall|j: int| 0 <= j < i ==> is_tchar(input@[j]),
            decreases len - i,
        {
            if !Self::is_tchar(input[i]) {
                return false;
            }
            i = i + 1;
        }
        true
    }
}

/// Skips leading spaces and tabs.
pub struct SimdWhitespaceSkipper;

proof fn lemma_leading_ws_bound(s: Seq<u8>)
    ensures
        leading_ws(s) <= s.len(),
        leading_ws(s) < s.len() ==> !is_ws(s[leading_ws(s) as int]),
        forall|j: int| 0 <= j < leading_ws(s) ==> is_ws(s[j]),
    decreases s.len(),
{
    if s.len() > 0 && is_ws(s[0]) {
        lemma_leading_ws_bound(s.drop_first());
        assert forall|j: int| 0 <= j < leading_ws(s) implies is_ws(s[j]) by {
            if j > 0 {
                assert(s[j] == s.drop_first()[j - 1]);
            }
        }
    }
}

/// Where the first byte that is no space or tab stands, `leading_ws` ends.
proof fn lemma_leading_ws_at(s: Seq<u8>, k: int)
    requires
        0 <= k <= s.len(),
        forall|j: int| 0 <= j < k ==> is_ws(s[j]),
        k == s.len() || !is_ws(s[k]),
    ensures
        leading_ws(s) == k,
    decreases s.len(),
{
    if s.len() > 0 && is_ws(s[0]) {
        let t = s.drop_first();
        assert forall|j: int| 0 <= j < k - 1 implies is_ws(t[j]) by {
            assert(t[j] == s[j + 1]);
        }
        if k - 1 < t.len() {
            assert(t[k - 1] == s[k]);
        }
        lemma_leading_ws_at(t, k - 1);
    }
}

impl SimdWhitespaceSkipper {
    pub fn skip_whitespace(input: &[u8]) -> (r: &[u8])
        ensures
            leading_ws(input@) <= input@.len(),
            r@ == input@.subrange(leading_ws(input@) as int, input@.len() as int),
    {
        let len = input.len();
        let mut i: usize = 0;
        while i < len && (input[i] == 32u8 || input[i] == 9u8)
            invariant
                len == input@.len(),
                i <= len,
                forall|j: int| 0 <= j < i ==> is_ws(input@[j]),
            decreases len - i,
        {
            i = i + 1;
        }
        proof {
            lemma_leading_ws_at(input@, i as int);
        }
        slice_subrange(input, i, len)
    }
}

} // verus!
