//! Byte-level scanning helpers shared by the line parsers: finding a byte,
//! finding whitespace, and trimming, each with a spec-level counterpart.

use vstd::prelude::*;

verus! {

/// ASCII whitespace, as the line parsers understand it.
pub open spec fn is_space(b: u8) -> bool {
    b == 32 || b == 9 || b == 10 || b == 13 || b == 12 || b == 11
}

/// Runtime counterpart of `is_space`.
pub fn byte_is_space(b: u8) -> (r: bool)
    ensures
        r == is_space(b),
{
    b == 32 || b == 9 || b == 10 || b == 13 || b == 12 || b == 11
}

/// Index of the first occurrence of `b` in `s` at or after `i`, or `s.len()`.
pub open spec fn first_byte_from(s: Seq<u8>, b: u8, i: int) -> int
    decreases s.len() - i,
{
    if i < 0 || i >= s.len() {
        s.len() as int
    } else if s[i] == b {
        i
    } else {
        first_byte_from(s, b, i + 1)
    }
}

pub proof fn lemma_first_byte_from(s: Seq<u8>, b: u8, i: int)
    requires
        0 <= i <= s.len(),
    ensures
        i <= first_byte_from(s, b, i) <= s.len(),
        first_byte_from(s, b, i) < s.len() ==> s[first_byte_from(s, b, i)] == b,
        forall|j: int| i <= j < first_byte_from(s, b, i) ==> s[j] != b,
    decreases s.len() - i,
{
    if i < s.len() && s[i] != b {
        lemma_first_byte_from(s, b, i + 1);
    }
}

/// Runtime search for the first occurrence of `b` at or after `from`.
#[verifier::loop_isolation(false)]
pub fn find_byte(s: &[u8], b: u8, from: usize) -> (r: usize)
    requires
        from <= s@.len(),
    ensures
        r == first_byte_from(s@, b, from as int),
        from <= r <= s@.len(),
        r < s@.len() ==> s@[r as int] == b,
        forall|j: int| from <= j < r ==> s@[j] != b,
{
    proof {
        lemma_first_byte_from(s@, b, from as int);
    }
    let mut i = from;
    while i < s.len()
        invariant
            from <= i <= s@.len(),
            first_byte_from(s@, b, from as int) == first_byte_from(s@, b, i as int),
        decreases s@.len() - i,
    {
        if s[i] == b {
            return i;
        }
        i = i + 1;
    }
    i
}

/// Index of the first non-whitespace byte in `s` at or after `i`, or `s.len()`.
pub open spec fn first_nonspace_from(s: Seq<u8>, i: int) -> int
    decreases s.len() - i,
{
    if i < 0 || i >= s.len() {
        s.len() as int
    } else if !is_space(s[i]) {
        i
    } else {
        first_nonspace_from(s, i + 1)
    }
}

pub proof fn lemma_first_nonspace_from(s: Seq<u8>, i: int)
    requires
        0 <= i <= s.len(),
    ensures
        i <= first_nonspace_from(s, i) <= s.len(),
        first_nonspace_from(s, i) < s.len() ==> !is_space(s[first_nonspace_from(s, i)]),
        forall|j: int| i <= j < first_nonspace_from(s, i) ==> is_space(s[j]),
    decreases s.len() - i,
{
    if i < s.len() && is_space(s[i]) {
        lemma_first_nonspace_from(s, i + 1);
    }
}

/// Runtime search for the first non-whitespace byte at or after `from`.
#[verifier::loop_isolation(false)]
pub fn find_nonspace(s: &[u8], from: usize) -> (r: usize)
    requires
        from <= s@.len(),
    ensures
        r == first_nonspace_from(s@, from as int),
        from <= r <= s@.len(),
{
    let mut i = from;
    while i < s.len()
        invariant
            from <= i <= s@.len(),
            first_nonspace_from(s@, from as int) == first_nonspace_from(s@, i as int),
        decreases s@.len() - i,
    {
        if !byte_is_space(s[i]) {
            return i;
        }
        i = i + 1;
    }
    i
}

/// Index of the first whitespace byte in `s` at or after `i`, or `s.len()`.
pub open spec fn first_space_from(s: Seq<u8>, i: int) -> int
    decreases s.len() - i,
{
    if i < 0 || i >= s.len() {
        s.len() as int
    } else if is_space(s[i]) {
        i
    } else {
        first_space_from(s, i + 1)
    }
}

/// Runtime search for the first whitespace byte at or after `from`.
#[verifier::loop_isolation(false)]
pub fn find_space(s: &[u8], from: usize) -> (r: usize)
    requires
        from <= s@.len(),
    ensures
        r == first_space_from(s@, from as int),
        from <= r <= s@.len(),
{
    let mut i = from;
    while i < s.len()
        invariant
            from <= i <= s@.len(),
            first_space_from(s@, from as int) == first_space_from(s@, i as int),
        decreases s@.len() - i,
    {
        if byte_is_space(s[i]) {
            return i;
        }
        i = i + 1;
    }
    i
}

/// Index of the last non-whitespace byte in `s` at or before `i`, or `-1`.
pub open spec fn last_nonspace_at_or_before(s: Seq<u8>, i: int) -> int
    decreases i + 1,
{
    if i < 0 {
        -1
    } else if 0 <= i < s.len() && !is_space(s[i]) {
        i
    } else {
        last_nonspace_at_or_before(s, i - 1)
    }
}

pub proof fn lemma_last_nonspace_at_or_before(s: Seq<u8>, i: int)
    requires
        -1 <= i < s.len(),
    ensures
        -1 <= last_nonspace_at_or_before(s, i) <= i,
        last_nonspace_at_or_before(s, i) >= 0 ==> !is_space(s[last_nonspace_at_or_before(s, i)]),
        forall|j: int|
            last_nonspace_at_or_before(s, i) < j <= i && 0 <= j ==> is_space(s[j]),
    decreases i + 1,
{
    if i >= 0 && !(0 <= i < s.len() && !is_space(s[i])) {
        lemma_last_nonspace_at_or_before(s, i - 1);
    }
}

/// One past the last non-whitespace byte of `s`, i.e. the length of `s`
/// with trailing whitespace removed.
pub open spec fn trimmed_end(s: Seq<u8>) -> int {
    last_nonspace_at_or_before(s, s.len() - 1) + 1
}

/// Runtime computation of `trimmed_end`.
#[verifier::loop_isolation(false)]
pub fn find_trimmed_end(s: &[u8]) -> (r: usize)
    ensures
        r == trimmed_end(s@),
        r <= s@.len(),
{
    proof {
        lemma_last_nonspace_at_or_before(s@, s@.len() - 1);
    }
    let mut e = s.len();
    while e > 0
        invariant
            e <= s@.len(),
            last_nonspace_at_or_before(s@, s@.len() - 1) == last_nonspace_at_or_before(
                s@,
                e - 1,
            ),
        decreases e,
    {
        if !byte_is_space(s[e - 1]) {
            return e;
        }
        e = e - 1;
    }
    e
}

/// Index of the last whitespace byte in `s` at or before `i`, or `-1`.
pub open spec fn last_space_at_or_before(s: Seq<u8>, i: int) -> int
    decreases i + 1,
{
    if i < 0 {
        -1
    } else if 0 <= i < s.len() && is_space(s[i]) {
        i
    } else {
        last_space_at_or_before(s, i - 1)
    }
}

pub proof fn lemma_last_space_at_or_before(s: Seq<u8>, i: int)
    requires
        -1 <= i < s.len(),
    ensures
        -1 <= last_space_at_or_before(s, i) <= i,
        last_space_at_or_before(s, i) >= 0 ==> is_space(s[last_space_at_or_before(s, i)]),
        forall|j: int| last_space_at_or_before(s, i) < j <= i && 0 <= j ==> !is_space(s[j]),
    decreases i + 1,
{
    if i >= 0 && !(0 <= i < s.len() && is_space(s[i])) {
        lemma_last_space_at_or_before(s, i - 1);
    }
}

/// Runtime search for the last whitespace byte at or before `upto - 1`.
/// Returns the successor index, i.e. `last_space_at_or_before(s, upto - 1) + 1`.
#[verifier::loop_isolation(false)]
pub fn find_token_start(s: &[u8], upto: usize) -> (r: usize)
    requires
        upto <= s@.len(),
    ensures
        r == last_space_at_or_before(s@, upto - 1) + 1,
        r <= upto,
{
    proof {
        lemma_last_space_at_or_before(s@, upto - 1);
    }
    let mut j = upto;
    while j > 0
        invariant
            j <= upto <= s@.len(),
            last_space_at_or_before(s@, upto - 1) == last_space_at_or_before(s@, j - 1),
        decreases j,
    {
        if byte_is_space(s[j - 1]) {
            return j;
        }
        j = j - 1;
    }
    j
}

/// Index of the last occurrence of `b` in `s` at or before `i`, or `-1`.
pub open spec fn last_byte_at_or_before(s: Seq<u8>, b: u8, i: int) -> int
    decreases i + 1,
{
    if i < 0 {
        -1
    } else if 0 <= i < s.len() && s[i] == b {
        i
    } else {
        last_byte_at_or_before(s, b, i - 1)
    }
}

/// Runtime search for the last occurrence of `b` at or before `upto - 1`.
/// Returns the successor index.
#[verifier::loop_isolation(false)]
pub fn find_after_last_byte(s: &[u8], b: u8, upto: usize) -> (r: usize)
    requires
        upto <= s@.len(),
    ensures
        r == last_byte_at_or_before(s@, b, upto - 1) + 1,
        r <= upto,
{
    let mut j = upto;
    while j > 0
        invariant
            j <= upto <= s@.len(),
            last_byte_at_or_before(s@, b, upto - 1) == last_byte_at_or_before(s@, b, j - 1),
        decreases j,
    {
        if s[j - 1] == b {
            return j;
        }
        j = j - 1;
    }
    j
}

/// Equality of two byte slices.
#[verifier::loop_isolation(false)]
pub fn bytes_eq(a: &[u8], b: &[u8]) -> (r: bool)
    ensures
        r == (a@ == b@),
{
    if a.len() != b.len() {
        return false;
    }
    let mut i: usize = 0;
    while i < a.len()
        invariant
            i <= a@.len(),
            a@.len() == b@.len(),
            forall|j: int| 0 <= j < i ==> a@[j] == b@[j],
        decreases a@.len() - i,
    {
        if a[i] != b[i] {
            return false;
        }
        i = i + 1;
    }
    proof {
        assert(a@ =~= b@);
    }
    true
}

} // verus!
