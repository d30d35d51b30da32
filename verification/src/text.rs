//! Byte-string helpers for the handshake: searching, trimming and comparing
//! without regard to ASCII case.

use vstd::prelude::*;

verus! {

/// Space or horizontal tab, the optional whitespace around a header value.
pub open spec fn is_space(b: u8) -> bool {
    b == 0x20 || b == 0x09
}

/// The lower-case form of an ASCII letter; every other byte unchanged.
pub open spec fn lower(b: u8) -> u8 {
    if 0x41 <= b <= 0x5a {
        (b + 0x20) as u8
    } else {
        b
    }
}

/// Equality of byte strings up to the case of ASCII letters.
pub open spec fn eq_ignore_case(a: Seq<u8>, b: Seq<u8>) -> bool {
    &&& a.len() == b.len()
    &&& forall|i: int| 0 <= i < a.len() ==> lower(#[trigger] a[i]) == lower(b[i])
}

/// Whether `pat` stands in `s` at index `i`.
pub open spec fn occurs_at(s: Seq<u8>, pat: Seq<u8>, i: int) -> bool {
    &&& 0 <= i
    &&& i + pat.len() <= s.len()
    &&& s.subrange(i, i + pat.len()) == pat
}

/// Whether `i` is the first index at which `pat` stands in `s`.
pub open spec fn first_occurrence(s: Seq<u8>, pat: Seq<u8>, i: int) -> bool {
    &&& occurs_at(s, pat, i)
    &&& forall|j: int| 0 <= j < i ==> !occurs_at(s, pat, j)
}

/// The first index at which `pat` stands in `s`, if it stands anywhere.
pub open spec fn find(s: Seq<u8>, pat: Seq<u8>) -> Option<int> {
    if exists|i: int| occurs_at(s, pat, i) {
        Some(choose|i: int| first_occurrence(s, pat, i))
    } else {
        None
    }
}

/// Whether `s` begins with `prefix`.
pub open spec fn starts_with(s: Seq<u8>, prefix: Seq<u8>) -> bool {
    occurs_at(s, prefix, 0)
}

/// `s` without the spaces and tabs at its front.
pub open spec fn trim_start(s: Seq<u8>) -> Seq<u8>
    decreases s.len(),
{
    if s.len() > 0 && is_space(s[0]) {
        trim_start(s.skip(1))
    } else {
        s
    }
}

/// `s` without the spaces and tabs at its end.
pub open spec fn trim_end(s: Seq<u8>) -> Seq<u8>
    decreases s.len(),
{
    if s.len() > 0 && is_space(s.last()) {
        trim_end(s.drop_last())
    } else {
        s
    }
}

/// `s` without the spaces and tabs at either end.
pub open spec fn trim(s: Seq<u8>) -> Seq<u8> {
    trim_end(trim_start(s))
}

/// The first occurrence is unique, so `find` names it.
pub proof fn lemma_find_is_first(s: Seq<u8>, pat: Seq<u8>, i: int)
    requires
        first_occurrence(s, pat, i),
    ensures
        find(s, pat) == Some(i),
{
    assert(occurs_at(s, pat, i));
    let j = choose|j: int| first_occurrence(s, pat, j);
    assert(first_occurrence(s, pat, j));
    if j < i {
        assert(!occurs_at(s, pat, j));
    } else if i < j {
        assert(!occurs_at(s, pat, i));
    }
}

/// A string in which the byte does not occur holds no occurrence of the
/// one-byte pattern.
pub proof fn lemma_byte_absent(s: Seq<u8>, b: u8)
    requires
        forall|i: int| 0 <= i < s.len() ==> s[i] != b,
    ensures
        find(s, seq![b]) is None,
{
    assert forall|i: int| !occurs_at(s, seq![b], i) by {
        if occurs_at(s, seq![b], i) {
            assert(s.subrange(i, i + 1)[0] == seq![b][0]);
        }
    }
}

/// Where the byte stands at `at` and nowhere before, the one-byte pattern
/// is first found at `at`.
pub proof fn lemma_byte_first_at(s: Seq<u8>, b: u8, at: int)
    requires
        0 <= at < s.len(),
        s[at] == b,
        forall|i: int| 0 <= i < at ==> s[i] != b,
    ensures
        find(s, seq![b]) == Some(at),
{
    assert(s.subrange(at, at + 1) =~= seq![b]);
    assert forall|i: int| 0 <= i < at implies !occurs_at(s, seq![b], i) by {
        if occurs_at(s, seq![b], i) {
            assert(s.subrange(i, i + 1)[0] == seq![b][0]);
        }
    }
    lemma_find_is_first(s, seq![b], at);
}

/// Returns the lower-case form of an ASCII letter, and any other byte as it
/// is.
pub fn to_lower(b: u8) -> (out: u8)
    ensures
        out == lower(b),
{
    if 0x41 <= b && b <= 0x5a {
        b + 0x20
    } else {
        b
    }
}

/// Compares two byte strings for equality.
pub fn bytes_eq(a: &[u8], b: &[u8]) -> (same: bool)
    ensures
        same == (a@ == b@),
{
    if a.len() != b.len() {
        return false;
    }
    let mut i: usize = 0;
    while i < a.len()
        invariant
            a@.len() == b@.len(),
            i <= a@.len(),
            forall|j: int| 0 <= j < i ==> a@[j] == b@[j],
        decreases a@.len() - i,
    {
        if a[i] != b[i] {
            return false;
        }
        i += 1;
    }
    assert(a@ =~= b@);
    true
}

/// Compares two byte strings up to the case of ASCII letters.
pub fn bytes_eq_ignore_case(a: &[u8], b: &[u8]) -> (same: bool)
    ensures
        same == eq_ignore_case(a@, b@),
{
    if a.len() != b.len() {
        return false;
    }
    let mut i: usize = 0;
    while i < a.len()
        invariant
            a@.len() == b@.len(),
            i <= a@.len(),
            forall|j: int| 0 <= j < i ==> lower(#[trigger] a@[j]) == lower(b@[j]),
        decreases a@.len() - i,
    {
        if to_lower(a[i]) != to_lower(b[i]) {
            return false;
        }
        i += 1;
    }
    true
}

/// Tests whether `pat` stands in `s` at index `at`.
pub fn matches_at(s: &[u8], pat: &[u8], at: usize) -> (hit: bool)
    ensures
        hit == occurs_at(s@, pat@, at as int),
{
    if at > s.len() || pat.len() > s.len() - at {
        return false;
    }
    let mut k: usize = 0;
    while k < pat.len()
        invariant
            at + pat@.len() <= s@.len() <= usize::MAX,
            k <= pat@.len(),
            forall|j: int| 0 <= j < k ==> s@[at + j] == pat@[j],
        decreases pat@.len() - k,
    {
        if s[at + k] != pat[k] {
            assert(s@.subrange(at as int, at + pat@.len())[k as int] != pat@[k as int]);
            return false;
        }
        k += 1;
    }
    assert(s@.subrange(at as int, at + pat@.len()) =~= pat@);
    true
}

/// Finds the first index at or after which `pat` stands in `s`.
pub fn find_bytes(s: &[u8], pat: &[u8]) -> (found: Option<usize>)
    ensures
        found matches Some(i) ==> first_occurrence(s@, pat@, i as int),
        found is None ==> forall|i: int| !occurs_at(s@, pat@, i),
        match found {
            Some(i) => find(s@, pat@) == Some(i as int),
            None => find(s@, pat@) is None,
        },
{
    if pat.len() > s.len() {
        return None;
    }
    let last: usize = s.len() - pat.len();
    let mut i: usize = 0;
    loop
        invariant
            last == s@.len() - pat@.len(),
            i <= last,
            forall|j: int| 0 <= j < i ==> !occurs_at(s@, pat@, j),
        decreases last - i,
    {
        if matches_at(s, pat, i) {
            proof {
                lemma_find_is_first(s@, pat@, i as int);
            }
            return Some(i);
        }
        if i == last {
            return None;
        }
        i += 1;
    }
}

/// Tests whether `s` begins with `prefix`.
pub fn has_prefix(s: &[u8], prefix: &[u8]) -> (hit: bool)
    ensures
        hit == starts_with(s@, prefix@),
{
    matches_at(s, prefix, 0)
}

/// The number of spaces and tabs at the front of `s`.
pub open spec fn leading_spaces(s: Seq<u8>) -> int
    decreases s.len(),
{
    if s.len() > 0 && is_space(s[0]) {
        1 + leading_spaces(s.skip(1))
    } else {
        0
    }
}

/// The number of spaces and tabs at the end of `s`.
pub open spec fn trailing_spaces(s: Seq<u8>) -> int
    decreases s.len(),
{
    if s.len() > 0 && is_space(s.last()) {
        1 + trailing_spaces(s.drop_last())
    } else {
        0
    }
}

/// Trimming the front removes exactly the leading run of spaces and tabs.
pub proof fn lemma_trim_start(s: Seq<u8>)
    ensures
        0 <= leading_spaces(s) <= s.len(),
        trim_start(s) == s.skip(leading_spaces(s)),
        forall|j: int| 0 <= j < leading_spaces(s) ==> is_space(#[trigger] s[j]),
        leading_spaces(s) < s.len() ==> !is_space(s[leading_spaces(s)]),
    decreases s.len(),
{
    if s.len() > 0 && is_space(s[0]) {
        let rest = s.skip(1);
        lemma_trim_start(rest);
        assert(rest.skip(leading_spaces(rest)) =~= s.skip(leading_spaces(s)));
        assert forall|j: int| 0 <= j < leading_spaces(s) implies is_space(#[trigger] s[j]) by {
            if j > 0 {
                assert(s[j] == rest[j - 1]);
            }
        }
        if leading_spaces(s) < s.len() {
            assert(s[leading_spaces(s)] == rest[leading_spaces(rest)]);
        }
    } else {
        assert(s.skip(0) =~= s);
    }
}

/// Trimming the end removes exactly the trailing run of spaces and tabs.
pub proof fn lemma_trim_end(s: Seq<u8>)
    ensures
        0 <= trailing_spaces(s) <= s.len(),
        trim_end(s) == s.take(s.len() - trailing_spaces(s)),
        forall|j: int| s.len() - trailing_spaces(s) <= j < s.len() ==> is_space(#[trigger] s[j]),
        trailing_spaces(s) < s.len() ==> !is_space(s[s.len() - trailing_spaces(s) - 1]),
    decreases s.len(),
{
    if s.len() > 0 && is_space(s.last()) {
        let rest = s.drop_last();
        lemma_trim_end(rest);
        assert(rest.take(rest.len() - trailing_spaces(rest)) =~= s.take(
            s.len() - trailing_spaces(s),
        ));
        assert forall|j: int| s.len() - trailing_spaces(s) <= j < s.len() implies is_space(
            #[trigger] s[j],
        ) by {
            if j < s.len() - 1 {
                assert(s[j] == rest[j]);
            }
        }
        if trailing_spaces(s) < s.len() {
            assert(s[s.len() - trailing_spaces(s) - 1] == rest[rest.len() - trailing_spaces(rest)
                - 1]);
        }
    } else {
        assert(s.take(s.len() as int) =~= s);
    }
}

/// A run of spaces and tabs at the front that ends at a byte of another kind,
/// or at the end of the string, is the whole leading run.
pub proof fn lemma_leading_spaces_is(s: Seq<u8>, n: int)
    requires
        0 <= n <= s.len(),
        forall|j: int| 0 <= j < n ==> is_space(#[trigger] s[j]),
        n < s.len() ==> !is_space(s[n]),
    ensures
        leading_spaces(s) == n,
    decreases s.len(),
{
    if n > 0 {
        assert(is_space(s[0]));
        let rest = s.skip(1);
        assert forall|j: int| 0 <= j < n - 1 implies is_space(#[trigger] rest[j]) by {
            assert(rest[j] == s[j + 1]);
        }
        lemma_leading_spaces_is(rest, n - 1);
    }
}

/// A run of spaces and tabs at the end that begins behind a byte of another
/// kind, or at the front of the string, is the whole trailing run.
pub proof fn lemma_trailing_spaces_is(s: Seq<u8>, n: int)
    requires
        0 <= n <= s.len(),
        forall|j: int| s.len() - n <= j < s.len() ==> is_space(#[trigger] s[j]),
        n < s.len() ==> !is_space(s[s.len() - n - 1]),
    ensures
        trailing_spaces(s) == n,
    decreases s.len(),
{
    if n > 0 {
        assert(is_space(s[s.len() - 1]));
        let rest = s.drop_last();
        assert forall|j: int| rest.len() - (n - 1) <= j < rest.len() implies is_space(
            #[trigger] rest[j],
        ) by {
            assert(rest[j] == s[j]);
        }
        lemma_trailing_spaces_is(rest, n - 1);
    }
}

/// Copies the part of `s` between `from` and `to`, without the spaces and
/// tabs at either end of that part.
pub fn trimmed(s: &[u8], from: usize, to: usize) -> (out: Vec<u8>)
    requires
        from <= to <= s@.len(),
    ensures
        out@ == trim(s@.subrange(from as int, to as int)),
{
    let ghost part = s@.subrange(from as int, to as int);
    let mut a: usize = from;
    while a < to && (s[a] == 0x20 || s[a] == 0x09)
        invariant
            from <= a <= to <= s@.len(),
            part == s@.subrange(from as int, to as int),
            forall|j: int| 0 <= j < a - from ==> is_space(#[trigger] part[j]),
        decreases to - a,
    {
        a += 1;
    }
    proof {
        lemma_leading_spaces_is(part, a - from);
        lemma_trim_start(part);
    }
    let ghost middle = trim_start(part);
    assert(middle =~= s@.subrange(a as int, to as int));
    let mut b: usize = to;
    while b > a && (s[b - 1] == 0x20 || s[b - 1] == 0x09)
        invariant
            a <= b <= to <= s@.len(),
            middle == s@.subrange(a as int, to as int),
            forall|j: int| b - a <= j < to - a ==> is_space(#[trigger] middle[j]),
        decreases b,
    {
        b -= 1;
    }
    proof {
        lemma_trailing_spaces_is(middle, to - b);
        lemma_trim_end(middle);
    }
    let out = vstd::slice::slice_to_vec(vstd::slice::slice_subrange(s, a, b));
    assert(out@ =~= trim(part));
    out
}

} // verus!
