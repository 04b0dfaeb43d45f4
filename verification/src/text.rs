//! Character-sequence primitives the protocol is built on: substring
//! search with a "first match" specification, ASCII whitespace trimming,
//! and small copy/append helpers over `Vec<char>`.

use vstd::prelude::*;

verus! {

/// The needle `n` occurs in `h` starting at position `i`.
pub open spec fn match_at(h: Seq<char>, n: Seq<char>, i: int) -> bool {
    0 <= i && i + n.len() <= h.len() && h.subrange(i, i + n.len() as int) == n
}

/// Position of the first occurrence of `n` in `h` at or after `from`,
/// if any.
pub open spec fn spec_find(h: Seq<char>, n: Seq<char>, from: int) -> Option<int>
    decreases h.len() - from + 1 when 0 <= from <= h.len() + 1
{
    if from < 0 || from + n.len() > h.len() {
        None
    } else if h.subrange(from, from + n.len() as int) == n {
        Some(from)
    } else {
        spec_find(h, n, from + 1)
    }
}

/// What `spec_find` returns is the first match, and `None` means no
/// match exists.
pub proof fn lemma_find_some(h: Seq<char>, n: Seq<char>, from: int)
    requires
        0 <= from <= h.len() + 1,
    ensures
        spec_find(h, n, from) matches Some(i) ==> from <= i && match_at(h, n, i)
            && (forall|j: int| from <= j < i ==> !match_at(h, n, j)),
        spec_find(h, n, from) is None ==> forall|j: int| from <= j ==> !match_at(h, n, j),
    decreases h.len() - from + 1,
{
    if from + n.len() > h.len() {
        assert forall|j: int| from <= j implies !match_at(h, n, j) by {
            assert(j + n.len() > h.len());
        }
    } else if h.subrange(from, from + n.len() as int) == n {
    } else {
        lemma_find_some(h, n, from + 1);
    }
}

/// If the needle matches right at `from`, the search stops there.
pub proof fn lemma_find_at(h: Seq<char>, n: Seq<char>, from: int)
    requires
        match_at(h, n, from),
    ensures
        spec_find(h, n, from) == Some(from),
{
}

/// If `p` is a match and nothing before it is, the search finds `p`.
pub proof fn lemma_find_first_match(h: Seq<char>, n: Seq<char>, from: int, p: int)
    requires
        0 <= from <= p,
        match_at(h, n, p),
        forall|j: int| from <= j < p ==> !match_at(h, n, j),
    ensures
        spec_find(h, n, from) == Some(p),
    decreases p - from,
{
    if from == p {
        lemma_find_at(h, n, from);
    } else {
        assert(!match_at(h, n, from));
        lemma_find_first_match(h, n, from + 1, p);
    }
}

/// If nothing at or after `from` matches, the search finds nothing.
pub proof fn lemma_find_none(h: Seq<char>, n: Seq<char>, from: int)
    requires
        0 <= from <= h.len(),
        forall|j: int| from <= j ==> !match_at(h, n, j),
    ensures
        spec_find(h, n, from) is None,
{
    lemma_find_some(h, n, from);
    match spec_find(h, n, from) {
        Some(i) => {
            assert(match_at(h, n, i));
            assert(false);
        },
        None => {},
    }
}

/// Whether `h[i..i+n.len()]` equals `n`, executably.
fn is_match(h: &Vec<char>, n: &Vec<char>, i: usize) -> (r: bool)
    requires
        i + n@.len() <= h@.len(),
    ensures
        r == match_at(h@, n@, i as int),
{
    let hlen = h.len();
    let mut k: usize = 0;
    while k < n.len()
        invariant
            0 <= k <= n@.len(),
            i + n@.len() <= h@.len(),
            h@.len() == hlen,
            forall|j: int| 0 <= j < k ==> h@[i + j] == n@[j],
        decreases n@.len() - k,
    {
        if h[i + k] != n[k] {
            assert(h@.subrange(i as int, i + n@.len()) != n@) by {
                assert(h@.subrange(i as int, i + n@.len())[k as int] != n@[k as int]);
            }
            return false;
        }
        k += 1;
    }
    assert(h@.subrange(i as int, i + n@.len()) =~= n@);
    true
}

/// First occurrence of `n` in `h` at or after `from`.
pub fn find_sub(h: &Vec<char>, n: &Vec<char>, from: usize) -> (r: Option<usize>)
    requires
        from <= h@.len(),
    ensures
        r matches Some(i) ==> spec_find(h@, n@, from as int) == Some(i as int),
        r is None ==> spec_find(h@, n@, from as int) is None,
{
    let hlen = h.len();
    let nlen = n.len();
    if nlen > hlen - from {
        return None;
    }
    if nlen == 0 {
        proof {
            assert(h@.subrange(from as int, from as int) =~= n@);
            lemma_find_at(h@, n@, from as int);
        }
        return Some(from);
    }
    let mut i: usize = from;
    while i <= hlen - nlen
        invariant
            from <= i <= hlen - nlen + 1,
            1 <= nlen == n@.len() <= h@.len() == hlen,
            spec_find(h@, n@, from as int) == spec_find(h@, n@, i as int),
        decreases hlen - i,
    {
        if is_match(h, n, i) {
            return Some(i);
        }
        i += 1;
    }
    None
}

/// The characters with Unicode's White_Space property — the set that
/// `char::is_whitespace` accepts and that trimming strips around a
/// parsed segment.
pub open spec fn is_space(c: char) -> bool {
    let v = c as u32;
    v == 0x20 || (0x09 <= v && v <= 0x0D) || v == 0x85 || v == 0xA0 || v == 0x1680 || (0x2000 <= v
        && v <= 0x200A) || v == 0x2028 || v == 0x2029 || v == 0x202F || v == 0x205F || v == 0x3000
}

/// `s` with trailing whitespace removed.
pub open spec fn trim_end(s: Seq<char>) -> Seq<char>
    decreases s.len()
{
    if s.len() > 0 && is_space(s[s.len() - 1]) {
        trim_end(s.drop_last())
    } else {
        s
    }
}

/// `s` with leading whitespace removed.
pub open spec fn trim_start(s: Seq<char>) -> Seq<char>
    decreases s.len()
{
    if s.len() > 0 && is_space(s[0]) {
        trim_start(s.drop_first())
    } else {
        s
    }
}

/// `s` with whitespace removed at both ends.
pub open spec fn trim(s: Seq<char>) -> Seq<char> {
    trim_start(trim_end(s))
}

/// Copy of `v`.
pub fn copy_chars(v: &Vec<char>) -> (r: Vec<char>)
    ensures
        r@ == v@,
{
    let mut r: Vec<char> = Vec::new();
    assert(r@ =~= v@.subrange(0, 0));
    let mut i: usize = 0;
    while i < v.len()
        invariant
            0 <= i <= v@.len(),
            r@ == v@.subrange(0, i as int),
        decreases v@.len() - i,
    {
        r.push(v[i]);
        i += 1;
        assert(r@ =~= v@.subrange(0, i as int));
    }
    assert(r@ =~= v@);
    r
}

/// Copy of `v[from..to]`.
pub fn subvec(v: &Vec<char>, from: usize, to: usize) -> (r: Vec<char>)
    requires
        from <= to <= v@.len(),
    ensures
        r@ == v@.subrange(from as int, to as int),
{
    let mut r: Vec<char> = Vec::new();
    assert(r@ =~= v@.subrange(from as int, from as int));
    let mut i: usize = from;
    while i < to
        invariant
            from <= i <= to <= v@.len(),
            r@ == v@.subrange(from as int, i as int),
        decreases to - i,
    {
        r.push(v[i]);
        i += 1;
        assert(r@ =~= v@.subrange(from as int, i as int));
    }
    r
}

/// Appends the characters of the string slice `s` to `out`.
pub fn push_str(out: &mut Vec<char>, s: &str)
    ensures
        final(out)@ == old(out)@ + s@,
{
    let n = s.unicode_len();
    assert(out@ =~= old(out)@ + s@.subrange(0, 0));
    let mut i: usize = 0;
    while i < n
        invariant
            0 <= i <= n == s@.len(),
            out@ == old(out)@ + s@.subrange(0, i as int),
        decreases n - i,
    {
        out.push(s.get_char(i));
        i += 1;
        assert(out@ =~= old(out)@ + s@.subrange(0, i as int));
    }
    assert(out@ =~= old(out)@ + s@);
}

/// Appends all of `s` to `out`.
pub fn push_chars(out: &mut Vec<char>, s: &Vec<char>)
    ensures
        final(out)@ == old(out)@ + s@,
{
    assert(out@ =~= old(out)@ + s@.subrange(0, 0));
    let mut i: usize = 0;
    while i < s.len()
        invariant
            0 <= i <= s@.len(),
            out@ == old(out)@ + s@.subrange(0, i as int),
        decreases s@.len() - i,
    {
        out.push(s[i]);
        i += 1;
        assert(out@ =~= old(out)@ + s@.subrange(0, i as int));
    }
    assert(out@ =~= old(out)@ + s@);
}

/// Executable form of `is_space`.
pub fn is_space_exec(c: char) -> (r: bool)
    ensures
        r == is_space(c),
{
    let v = c as u32;
    v == 0x20 || (0x09 <= v && v <= 0x0D) || v == 0x85 || v == 0xA0 || v == 0x1680 || (0x2000 <= v
        && v <= 0x200A) || v == 0x2028 || v == 0x2029 || v == 0x202F || v == 0x205F || v == 0x3000
}

/// Copy of `s` with whitespace removed at both ends.
pub fn trim_chars(s: &Vec<char>) -> (r: Vec<char>)
    ensures
        r@ == trim(s@),
{
    assert(s@.subrange(0, s@.len() as int) =~= s@);
    let mut hi: usize = s.len();
    while hi > 0 && is_space_exec(s[hi - 1])
        invariant
            0 <= hi <= s@.len(),
            trim_end(s@) == trim_end(s@.subrange(0, hi as int)),
        decreases hi,
    {
        proof {
            let cur = s@.subrange(0, hi as int);
            assert(cur[hi - 1] == s@[hi - 1]);
            assert(cur.drop_last() =~= s@.subrange(0, hi - 1));
        }
        hi -= 1;
    }
    proof {
        let cur = s@.subrange(0, hi as int);
        if hi > 0 {
            assert(cur[hi - 1] == s@[hi - 1]);
        }
        assert(trim_end(cur) == cur);
    }
    let mut lo: usize = 0;
    while lo < hi && is_space_exec(s[lo])
        invariant
            0 <= lo <= hi <= s@.len(),
            trim_end(s@) == s@.subrange(0, hi as int),
            trim_start(s@.subrange(0, hi as int)) == trim_start(s@.subrange(lo as int, hi as int)),
        decreases hi - lo,
    {
        proof {
            let cur = s@.subrange(lo as int, hi as int);
            assert(cur[0] == s@[lo as int]);
            assert(cur.drop_first() =~= s@.subrange(lo + 1, hi as int));
        }
        lo += 1;
    }
    proof {
        let cur = s@.subrange(lo as int, hi as int);
        if lo < hi {
            assert(cur[0] == s@[lo as int]);
        }
        assert(trim_start(cur) == cur);
    }
    subvec(s, lo, hi)
}

} // verus!
