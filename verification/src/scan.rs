//! Searching a frame's text: where a key first stands, where a value ends, and
//! the blanks around it.

use vstd::prelude::*;

verus! {

/// `needle` stands in `hay` at position `at`.
pub open spec fn matches_at(hay: Seq<u8>, needle: Seq<u8>, at: int) -> bool {
    0 <= at && at + needle.len() <= hay.len() && hay.subrange(at, at + needle.len()) == needle
}

/// The least position from `from` on at which `needle` stands in `hay`.
pub open spec fn find_from(hay: Seq<u8>, needle: Seq<u8>, from: int) -> Option<int>
    decreases hay.len() + 1 - from,
{
    if from < 0 || from + needle.len() > hay.len() {
        None
    } else if matches_at(hay, needle, from) {
        Some(from)
    } else {
        find_from(hay, needle, from + 1)
    }
}

/// The first position at which `needle` stands in `hay`.
pub open spec fn first_match(hay: Seq<u8>, needle: Seq<u8>) -> Option<int> {
    find_from(hay, needle, 0)
}

/// The least position from `from` on that holds the byte `a` or the byte `b`.
pub open spec fn first_of(hay: Seq<u8>, from: int, a: u8, b: u8) -> Option<int>
    decreases hay.len() - from,
{
    if from < 0 || from >= hay.len() {
        None
    } else if hay[from] == a || hay[from] == b {
        Some(from)
    } else {
        first_of(hay, from + 1, a, b)
    }
}

/// A blank between the tokens of a frame: space, tab, line feed, carriage return.
pub open spec fn is_blank(b: u8) -> bool {
    b == 0x20 || b == 0x09 || b == 0x0a || b == 0x0d
}

/// The first position from `lo` on, below `hi`, that holds no blank; `hi` if
/// there is none.
pub open spec fn after_blanks(hay: Seq<u8>, lo: int, hi: int) -> int
    decreases hi - lo,
{
    if 0 <= lo < hi <= hay.len() && is_blank(hay[lo]) {
        after_blanks(hay, lo + 1, hi)
    } else {
        lo
    }
}

/// The end of the text between `lo` and `hi` once the blanks at its end are
/// taken off; `lo` if it holds blanks only.
pub open spec fn before_blanks(hay: Seq<u8>, lo: int, hi: int) -> int
    decreases hi - lo,
{
    if 0 <= lo < hi <= hay.len() && is_blank(hay[hi - 1]) {
        before_blanks(hay, lo, hi - 1)
    } else {
        hi
    }
}

/// A position found by an executable search, as the specifications count it.
pub open spec fn position(r: Option<usize>) -> Option<int> {
    match r {
        Some(i) => Some(i as int),
        None => None,
    }
}

/// What `find_from` finds is an occurrence, and the first one from `from` on;
/// where it finds nothing there is none.
pub proof fn lemma_find_from_is_least(hay: Seq<u8>, needle: Seq<u8>, from: int)
    requires
        0 <= from,
    ensures
        match find_from(hay, needle, from) {
            Some(at) => from <= at && matches_at(hay, needle, at) && forall|j: int|
                from <= j < at ==> !matches_at(hay, needle, j),
            None => forall|j: int| from <= j ==> !matches_at(hay, needle, j),
        },
    decreases hay.len() + 1 - from,
{
    if from + needle.len() > hay.len() {
    } else if matches_at(hay, needle, from) {
    } else {
        lemma_find_from_is_least(hay, needle, from + 1);
    }
}

/// What `first_of` finds holds one of the two bytes, and no earlier position
/// from `from` on does; where it finds nothing none does.
pub proof fn lemma_first_of_is_least(hay: Seq<u8>, from: int, a: u8, b: u8)
    requires
        0 <= from,
    ensures
        match first_of(hay, from, a, b) {
            Some(at) => from <= at < hay.len() && (hay[at] == a || hay[at] == b) && forall|j: int|
                from <= j < at ==> hay[j] != a && hay[j] != b,
            None => forall|j: int| from <= j < hay.len() ==> hay[j] != a && hay[j] != b,
        },
    decreases hay.len() - from,
{
    if from >= hay.len() {
    } else if hay[from] == a || hay[from] == b {
    } else {
        lemma_first_of_is_least(hay, from + 1, a, b);
    }
}

/// An occurrence before which, from `from` on, there is none is what
/// `find_from` finds.
pub proof fn lemma_find_from_finds(hay: Seq<u8>, needle: Seq<u8>, from: int, at: int)
    requires
        0 <= from <= at,
        matches_at(hay, needle, at),
        forall|j: int| from <= j < at ==> !matches_at(hay, needle, j),
    ensures
        find_from(hay, needle, from) == Some(at),
    decreases at - from,
{
    if from < at {
        lemma_find_from_finds(hay, needle, from + 1, at);
    }
}

/// A position that holds one of the two bytes, and before which, from `from`
/// on, none does, is what `first_of` finds.
pub proof fn lemma_first_of_finds(hay: Seq<u8>, from: int, a: u8, b: u8, at: int)
    requires
        0 <= from <= at < hay.len(),
        hay[at] == a || hay[at] == b,
        forall|j: int| from <= j < at ==> hay[j] != a && hay[j] != b,
    ensures
        first_of(hay, from, a, b) == Some(at),
    decreases at - from,
{
    if from < at {
        lemma_first_of_finds(hay, from + 1, a, b, at);
    }
}

/// What `after_blanks` gives lies between `lo` and `hi`, only blanks stand
/// before it, and none stands at it unless it is `hi`.
pub proof fn lemma_after_blanks(hay: Seq<u8>, lo: int, hi: int)
    requires
        0 <= lo <= hi <= hay.len(),
    ensures
        lo <= after_blanks(hay, lo, hi) <= hi,
        forall|j: int| lo <= j < after_blanks(hay, lo, hi) ==> is_blank(hay[j]),
        after_blanks(hay, lo, hi) < hi ==> !is_blank(hay[after_blanks(hay, lo, hi)]),
    decreases hi - lo,
{
    if lo < hi && is_blank(hay[lo]) {
        lemma_after_blanks(hay, lo + 1, hi);
    }
}

/// The position before which only blanks stand and at which none stands is
/// what `after_blanks` gives.
pub proof fn lemma_after_blanks_is(hay: Seq<u8>, lo: int, hi: int, r: int)
    requires
        0 <= lo <= r <= hi <= hay.len(),
        forall|j: int| lo <= j < r ==> is_blank(hay[j]),
        r < hi ==> !is_blank(hay[r]),
    ensures
        after_blanks(hay, lo, hi) == r,
    decreases r - lo,
{
    if lo < r {
        lemma_after_blanks_is(hay, lo + 1, hi, r);
    }
}

/// What `before_blanks` gives lies between `lo` and `hi`, only blanks stand
/// from it on, and none stands just before it unless it is `lo`.
pub proof fn lemma_before_blanks(hay: Seq<u8>, lo: int, hi: int)
    requires
        0 <= lo <= hi <= hay.len(),
    ensures
        lo <= before_blanks(hay, lo, hi) <= hi,
        forall|j: int| before_blanks(hay, lo, hi) <= j < hi ==> is_blank(hay[j]),
        lo < before_blanks(hay, lo, hi) ==> !is_blank(hay[before_blanks(hay, lo, hi) - 1]),
    decreases hi - lo,
{
    if lo < hi && is_blank(hay[hi - 1]) {
        lemma_before_blanks(hay, lo, hi - 1);
    }
}

/// The position from which on only blanks stand and just before which none
/// stands is what `before_blanks` gives.
pub proof fn lemma_before_blanks_is(hay: Seq<u8>, lo: int, hi: int, r: int)
    requires
        0 <= lo <= r <= hi <= hay.len(),
        forall|j: int| r <= j < hi ==> is_blank(hay[j]),
        lo < r ==> !is_blank(hay[r - 1]),
    ensures
        before_blanks(hay, lo, hi) == r,
    decreases hi - r,
{
    if r < hi {
        lemma_before_blanks_is(hay, lo, hi - 1, r);
    }
}

/// Whether `needle` stands in `hay` at `at`.
pub fn occurs_at(hay: &[u8], needle: &[u8], at: usize) -> (r: bool)
    requires
        at + needle@.len() <= hay@.len(),
    ensures
        r == matches_at(hay@, needle@, at as int),
{
    let n = needle.len();
    let total = hay.len();
    let ghost window = hay@.subrange(at as int, at + n);
    let mut j: usize = 0;
    while j < n
        invariant
            j <= n,
            n == needle@.len(),
            total == hay@.len(),
            at + n <= total,
            window == hay@.subrange(at as int, at + n),
            forall|k: int| 0 <= k < j ==> hay@[at + k] == needle@[k],
        decreases n - j,
    {
        if hay[at + j] != needle[j] {
            assert(window[j as int] != needle@[j as int]);
            return false;
        }
        j = j + 1;
    }
    assert(window =~= needle@);
    true
}

/// The first position at which `needle` stands in `hay`.
pub fn find(hay: &[u8], needle: &[u8]) -> (r: Option<usize>)
    ensures
        position(r) == first_match(hay@, needle@),
{
    let n = needle.len();
    if n > hay.len() {
        return None;
    }
    if n == 0 {
        assert(hay@.subrange(0, 0) =~= needle@);
        return Some(0);
    }
    let total = hay.len();
    let last = total - n;
    let mut i: usize = 0;
    while i <= last
        invariant
            0 < n == needle@.len(),
            total == hay@.len(),
            last + n == total,
            i <= last + 1,
            first_match(hay@, needle@) == find_from(hay@, needle@, i as int),
        decreases last + 1 - i,
    {
        if occurs_at(hay, needle, i) {
            return Some(i);
        }
        i = i + 1;
    }
    None
}

/// The first position from `from` on that holds the byte `a` or the byte `b`.
pub fn find_either(hay: &[u8], from: usize, a: u8, b: u8) -> (r: Option<usize>)
    ensures
        position(r) == first_of(hay@, from as int, a, b),
        r matches Some(at) ==> from <= at < hay@.len(),
{
    let mut i: usize = from;
    while i < hay.len()
        invariant
            from <= i,
            first_of(hay@, from as int, a, b) == first_of(hay@, i as int, a, b),
        decreases hay@.len() - i,
    {
        if hay[i] == a || hay[i] == b {
            return Some(i);
        }
        i = i + 1;
    }
    None
}

/// Whether `b` is a blank.
pub fn blank(b: u8) -> (r: bool)
    ensures
        r == is_blank(b),
{
    b == 0x20 || b == 0x09 || b == 0x0a || b == 0x0d
}

/// Steps over the blanks that start at `lo`, no further than `hi`.
pub fn skip_blanks(hay: &[u8], lo: usize, hi: usize) -> (r: usize)
    requires
        lo <= hi <= hay@.len(),
    ensures
        r == after_blanks(hay@, lo as int, hi as int),
        lo <= r <= hi,
{
    let mut i: usize = lo;
    while i < hi
        invariant
            lo <= i <= hi <= hay@.len(),
            after_blanks(hay@, lo as int, hi as int) == after_blanks(hay@, i as int, hi as int),
        decreases hi - i,
    {
        if !blank(hay[i]) {
            return i;
        }
        i = i + 1;
    }
    i
}

/// Steps back over the blanks that end at `hi`, no further than `lo`.
pub fn skip_blanks_back(hay: &[u8], lo: usize, hi: usize) -> (r: usize)
    requires
        lo <= hi <= hay@.len(),
    ensures
        r == before_blanks(hay@, lo as int, hi as int),
        lo <= r <= hi,
{
    let mut i: usize = hi;
    while lo < i
        invariant
            lo <= i <= hi <= hay@.len(),
            before_blanks(hay@, lo as int, hi as int) == before_blanks(hay@, lo as int, i as int),
        decreases i - lo,
    {
        if !blank(hay[i - 1]) {
            return i;
        }
        i = i - 1;
    }
    i
}

/// Whether two runs of bytes are the same.
pub fn same_bytes(a: &[u8], b: &[u8]) -> (r: bool)
    ensures
        r == (a@ == b@),
{
    if a.len() != b.len() {
        return false;
    }
    let r = occurs_at(a, b, 0);
    assert(a@.subrange(0, a@.len() as int) =~= a@);
    r
}

/// Appends `src` to `out`.
pub fn append(out: &mut Vec<u8>, src: &[u8])
    ensures
        final(out)@ == old(out)@ + src@,
{
    let mut i: usize = 0;
    while i < src.len()
        invariant
            i <= src@.len(),
            out@ == old(out)@ + src@.take(i as int),
        decreases src@.len() - i,
    {
        out.push(src[i]);
        assert(src@.take(i + 1) =~= src@.take(i as int).push(src@[i as int]));
        i = i + 1;
    }
    assert(src@.take(i as int) =~= src@);
}

} // verus!
