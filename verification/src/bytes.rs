//! Small byte-sequence helpers shared by the transcript modules: appending,
//! substring search, suffix tests, whitespace trimming and line splitting.

use vstd::prelude::*;

verus! {

/// Whether a byte is ASCII whitespace: space, tab, line feed, vertical
/// tab, form feed or carriage return.
pub open spec fn is_space(b: u8) -> bool {
    b == 32 || b == 9 || b == 10 || b == 11 || b == 12 || b == 13
}

/// The sequence without its leading whitespace bytes.
pub open spec fn spec_trim_front(s: Seq<u8>) -> Seq<u8>
    decreases s.len(),
{
    if s.len() > 0 && is_space(s[0]) {
        spec_trim_front(s.drop_first())
    } else {
        s
    }
}

/// The sequence without its trailing whitespace bytes.
pub open spec fn spec_trim_back(s: Seq<u8>) -> Seq<u8>
    decreases s.len(),
{
    if s.len() > 0 && is_space(s.last()) {
        spec_trim_back(s.drop_last())
    } else {
        s
    }
}

/// The sequence without leading and trailing whitespace bytes.
pub open spec fn spec_trim(s: Seq<u8>) -> Seq<u8> {
    spec_trim_back(spec_trim_front(s))
}

/// A front-trimmed sequence does not begin with whitespace.
proof fn lemma_trim_front_no_lead(s: Seq<u8>)
    ensures
        spec_trim_front(s).len() > 0 ==> !is_space(spec_trim_front(s)[0]),
    decreases s.len(),
{
    if s.len() > 0 && is_space(s[0]) {
        lemma_trim_front_no_lead(s.drop_first());
    }
}

/// Back-trimming keeps a prefix of the sequence and leaves no trailing
/// whitespace.
proof fn lemma_trim_back_prefix(s: Seq<u8>)
    ensures
        spec_trim_back(s).len() <= s.len(),
        spec_trim_back(s) == s.subrange(0, spec_trim_back(s).len() as int),
        spec_trim_back(s).len() > 0 ==> !is_space(spec_trim_back(s).last()),
    decreases s.len(),
{
    let t = spec_trim_back(s);
    if s.len() > 0 && is_space(s.last()) {
        let d = s.drop_last();
        lemma_trim_back_prefix(d);
        assert(t == d.subrange(0, t.len() as int));
        assert(d.subrange(0, t.len() as int) =~= s.subrange(0, t.len() as int));
    } else {
        assert(t =~= s.subrange(0, t.len() as int));
    }
}

/// Trimming an already trimmed sequence changes nothing.
pub proof fn lemma_trim_idempotent(s: Seq<u8>)
    ensures
        spec_trim(spec_trim(s)) == spec_trim(s),
{
    let u = spec_trim_front(s);
    let t = spec_trim_back(u);
    lemma_trim_front_no_lead(s);
    lemma_trim_back_prefix(u);
    if t.len() > 0 {
        assert(t == u.subrange(0, t.len() as int));
        assert(u.subrange(0, t.len() as int)[0] == u[0]);
        assert(!is_space(t[0]));
        assert(spec_trim_front(t) == t);
        assert(!is_space(t.last()));
        assert(spec_trim_back(t) == t);
    } else {
        assert(t =~= Seq::<u8>::empty());
        assert(spec_trim_front(t) == t);
        assert(spec_trim_back(t) == t);
    }
}

/// Whether the needle occurs in the haystack at offset `i`.
pub open spec fn matches_at(h: Seq<u8>, n: Seq<u8>, i: int) -> bool {
    0 <= i && i + n.len() <= h.len() && h.subrange(i, i + n.len()) == n
}

/// Appends all bytes of `s` to `out`.
pub fn append_bytes(out: &mut Vec<u8>, s: &[u8])
    ensures
        final(out)@ == old(out)@ + s@,
{
    let mut i: usize = 0;
    while i < s.len()
        invariant
            0 <= i <= s@.len(),
            out@ == old(out)@ + s@.subrange(0, i as int),
        decreases s@.len() - i,
    {
        out.push(s[i]);
        i = i + 1;
        proof {
            assert(out@ =~= old(out)@ + s@.subrange(0, i as int));
        }
    }
    proof {
        assert(s@.subrange(0, s@.len() as int) =~= s@);
    }
}

/// The offset of the first occurrence of the needle at or after `i`, if
/// there is one. An empty needle occurs at every offset.
pub open spec fn spec_find(h: Seq<u8>, n: Seq<u8>, i: int) -> Option<int>
    decreases h.len() - i + 1,
{
    if i < 0 || i + n.len() > h.len() {
        None
    } else if h.subrange(i, i + n.len()) == n {
        Some(i)
    } else {
        spec_find(h, n, i + 1)
    }
}

/// The offset of the first occurrence of the needle in the haystack, if
/// there is one. An empty needle occurs at offset zero.
pub fn find_first(h: &[u8], n: &[u8]) -> (r: Option<usize>)
    ensures
        match r {
            Some(i) => spec_find(h@, n@, 0) == Some(i as int) && matches_at(h@, n@, i as int)
                && forall|j: int| 0 <= j < i ==> !matches_at(h@, n@, j),
            None => spec_find(h@, n@, 0) is None && forall|j: int| !matches_at(h@, n@, j),
        },
{
    if n.len() > h.len() {
        return None;
    }
    if n.len() == 0 {
        assert(h@.subrange(0, 0) =~= n@);
        return Some(0);
    }
    let mut i: usize = 0;
    let end: usize = h.len() - n.len();
    while i <= end
        invariant
            1 <= n@.len() <= h@.len(),
            h@.len() <= usize::MAX,
            end == h@.len() - n@.len(),
            0 <= i <= end + 1,
            forall|j: int| 0 <= j < i ==> !matches_at(h@, n@, j),
            spec_find(h@, n@, 0) == spec_find(h@, n@, i as int),
        decreases end + 1 - i,
    {
        if matches_here(h, n, i) {
            return Some(i);
        }
        i = i + 1;
    }
    assert(forall|j: int| j > end ==> !matches_at(h@, n@, j));
    assert(spec_find(h@, n@, i as int) is None);
    None
}

/// The largest index at most `i` (and within the buffer) whose byte is
/// `b`, if there is one.
pub open spec fn spec_rfind(s: Seq<u8>, b: u8, i: int) -> Option<int>
    decreases i + 1,
{
    if i < 0 || i >= s.len() {
        None
    } else if s[i] == b {
        Some(i)
    } else {
        spec_rfind(s, b, i - 1)
    }
}

/// The largest index whose byte is `b`, if there is one.
pub fn rfind_byte(s: &[u8], b: u8) -> (r: Option<usize>)
    ensures
        match r {
            Some(i) => spec_rfind(s@, b, s@.len() - 1) == Some(i as int) && i < s@.len(),
            None => spec_rfind(s@, b, s@.len() - 1) is None,
        },
{
    if s.len() == 0 {
        return None;
    }
    let mut i: usize = s.len() - 1;
    loop
        invariant
            0 <= i < s@.len(),
            spec_rfind(s@, b, s@.len() - 1) == spec_rfind(s@, b, i as int),
        decreases i,
    {
        if s[i] == b {
            return Some(i);
        }
        if i == 0 {
            assert(spec_rfind(s@, b, -1) is None);
            return None;
        }
        i = i - 1;
    }
}

/// Whether two byte slices hold the same bytes.
pub fn bytes_eq(a: &[u8], b: &[u8]) -> (r: bool)
    ensures
        r == (a@ == b@),
{
    if a.len() != b.len() {
        return false;
    }
    let mut k: usize = 0;
    while k < a.len()
        invariant
            a@.len() == b@.len(),
            0 <= k <= a@.len(),
            forall|j: int| 0 <= j < k ==> a@[j] == b@[j],
        decreases a@.len() - k,
    {
        if a[k] != b[k] {
            assert(a@ != b@) by {
                assert(a@[k as int] != b@[k as int]);
            };
            return false;
        }
        k = k + 1;
    }
    assert(a@ =~= b@);
    true
}

/// Whether the needle occurs in the haystack at offset `at`.
fn matches_here(h: &[u8], n: &[u8], at: usize) -> (r: bool)
    requires
        at + n@.len() <= h@.len(),
    ensures
        r == matches_at(h@, n@, at as int),
{
    let _hn: usize = h.len();
    let mut k: usize = 0;
    while k < n.len()
        invariant
            at + n@.len() <= h@.len(),
            h@.len() <= usize::MAX,
            0 <= k <= n@.len(),
            forall|j: int| 0 <= j < k ==> h@[at + j] == n@[j],
        decreases n@.len() - k,
    {
        if h[at + k] != n[k] {
            assert(h@.subrange(at as int, at + n@.len()) != n@) by {
                assert(h@.subrange(at as int, at + n@.len())[k as int] != n@[k as int]);
            };
            return false;
        }
        k = k + 1;
    }
    assert(h@.subrange(at as int, at + n@.len()) =~= n@);
    true
}

/// Whether the haystack ends with the needle.
pub fn ends_with(h: &[u8], n: &[u8]) -> (r: bool)
    ensures
        r == matches_at(h@, n@, h@.len() - n@.len()),
{
    if n.len() > h.len() {
        return false;
    }
    matches_here(h, n, h.len() - n.len())
}

/// The slice without leading and trailing ASCII whitespace.
pub fn trim_slice(s: &[u8]) -> (r: &[u8])
    ensures
        r@ == spec_trim(s@),
{
    let mut a: usize = 0;
    assert(s@.subrange(0, s@.len() as int) =~= s@);
    while a < s.len() && (s[a] == 32 || s[a] == 9 || s[a] == 10 || s[a] == 11 || s[a] == 12 || s[a]
        == 13)
        invariant
            0 <= a <= s@.len(),
            spec_trim_front(s@) == spec_trim_front(s@.subrange(a as int, s@.len() as int)),
        decreases s@.len() - a,
    {
        proof {
            assert(s@.subrange(a as int, s@.len() as int).drop_first() =~= s@.subrange(
                a + 1,
                s@.len() as int,
            ));
        }
        a = a + 1;
    }
    proof {
        assert(spec_trim_front(s@) =~= s@.subrange(a as int, s@.len() as int));
    }
    let mut b: usize = s.len();
    while b > a && (s[b - 1] == 32 || s[b - 1] == 9 || s[b - 1] == 10 || s[b - 1] == 11 || s[b - 1]
        == 12 || s[b - 1] == 13)
        invariant
            0 <= a <= b <= s@.len(),
            spec_trim_front(s@) == s@.subrange(a as int, s@.len() as int),
            spec_trim(s@) == spec_trim_back(s@.subrange(a as int, b as int)),
        decreases b,
    {
        proof {
            assert(s@.subrange(a as int, b as int).drop_last() =~= s@.subrange(a as int, b - 1));
        }
        b = b - 1;
    }
    proof {
        assert(spec_trim(s@) =~= s@.subrange(a as int, b as int));
    }
    vstd::slice::slice_subrange(s, a, b)
}

/// The lines of the buffer: split at every line feed, with a carriage
/// return directly before a line feed not part of the line it ends. A
/// final line without a line feed is kept as it stands; an empty final
/// line is dropped.
pub open spec fn spec_lines(s: Seq<u8>) -> Seq<Seq<u8>>
    decreases s.len()
    via spec_lines_decreases
{
    if s.len() == 0 {
        Seq::empty()
    } else {
        let nl = first_nl(s, 0);
        if nl == s.len() {
            seq![s]
        } else {
            seq![strip_cr(s.subrange(0, nl))] + spec_lines(s.subrange(nl + 1, s.len() as int))
        }
    }
}

#[via_fn]
proof fn spec_lines_decreases(s: Seq<u8>) {
    if s.len() > 0 {
        lemma_first_nl_bounds(s, 0);
    }
}

/// The first line feed at or after `i` lies between `i` and the end of
/// the buffer.
proof fn lemma_first_nl_bounds(s: Seq<u8>, i: int)
    requires
        0 <= i <= s.len(),
    ensures
        i <= first_nl(s, i) <= s.len(),
    decreases s.len() - i,
{
    if i < s.len() && s[i] != 10 {
        lemma_first_nl_bounds(s, i + 1);
    }
}

/// The index of the first line feed at or after `i`, or the length of the
/// buffer if there is none.
pub open spec fn first_nl(s: Seq<u8>, i: int) -> int
    decreases s.len() - i,
{
    if i < 0 || i >= s.len() {
        s.len() as int
    } else if s[i] == 10 {
        i
    } else {
        first_nl(s, i + 1)
    }
}

/// The sequence without a single trailing carriage return.
pub open spec fn strip_cr(s: Seq<u8>) -> Seq<u8> {
    if s.len() > 0 && s.last() == 13 {
        s.drop_last()
    } else {
        s
    }
}

/// Splits the buffer into its lines.
pub fn split_lines(s: &[u8]) -> (r: Vec<Vec<u8>>)
    ensures
        r.deep_view() == spec_lines(s@),
{
    let mut r: Vec<Vec<u8>> = Vec::new();
    let mut pos: usize = 0;
    proof {
        assert(s@.subrange(0, s@.len() as int) =~= s@);
        assert(r.deep_view() + spec_lines(s@) =~~= spec_lines(s@));
    }
    while pos < s.len()
        invariant
            0 <= pos <= s@.len(),
            r.deep_view() + spec_lines(s@.subrange(pos as int, s@.len() as int)) == spec_lines(s@),
        decreases s@.len() - pos,
    {
        let ghost rest = s@.subrange(pos as int, s@.len() as int);
        let ghost r0 = r.deep_view();
        let mut j: usize = pos;
        while j < s.len() && s[j] != 10
            invariant
                pos <= j <= s@.len(),
                forall|k: int| pos <= k < j ==> s@[k] != 10,
            decreases s@.len() - j,
        {
            j = j + 1;
        }
        proof {
            lemma_first_nl_offset(s@, pos as int, j as int);
        }
        let found_nl: bool = j < s.len();
        let mut line_end: usize = j;
        if found_nl && line_end > pos && s[line_end - 1] == 13 {
            line_end = line_end - 1;
        }
        let line: Vec<u8> = vstd::slice::slice_to_vec(
            vstd::slice::slice_subrange(s, pos, line_end),
        );
        r.push(line);
        proof {
            assert(r.deep_view() =~~= r0.push(line@));
        }
        if found_nl {
            proof {
                assert(line@ =~= strip_cr(rest.subrange(0, j - pos)));
                assert(rest.subrange(j - pos + 1, rest.len() as int) =~= s@.subrange(
                    j + 1,
                    s@.len() as int,
                ));
                assert(r.deep_view() + spec_lines(s@.subrange(j + 1, s@.len() as int)) =~~= r0
                    + spec_lines(rest));
            }
            pos = j + 1;
        } else {
            proof {
                assert(line@ =~= rest);
                assert(spec_lines(rest) =~~= seq![rest]);
                assert(r.deep_view() + spec_lines(s@.subrange(j as int, s@.len() as int))
                    =~~= r0 + spec_lines(rest));
            }
            pos = j;
        }
    }
    proof {
        assert(r.deep_view() =~~= r.deep_view() + spec_lines(
            s@.subrange(pos as int, s@.len() as int),
        ));
    }
    r
}

/// The first line feed at or after `i` in a buffer whose bytes from `i`
/// to `j` are not line feeds is `j` (or the end of the buffer).
proof fn lemma_first_nl(s: Seq<u8>, i: int, j: int)
    requires
        0 <= i <= j <= s.len(),
        forall|k: int| i <= k < j ==> s[k] != 10,
        j == s.len() || s[j] == 10,
    ensures
        first_nl(s, i) == j,
    decreases j - i,
{
    if i < j {
        lemma_first_nl(s, i + 1, j);
    }
}

/// Scanning for a line feed inside a suffix finds the same position,
/// shifted by the suffix's offset.
proof fn lemma_first_nl_offset(s: Seq<u8>, pos: int, j: int)
    requires
        0 <= pos <= j <= s.len(),
        forall|k: int| pos <= k < j ==> s[k] != 10,
        j == s.len() || s[j] == 10,
    ensures
        first_nl(s.subrange(pos, s.len() as int), 0) == j - pos,
{
    let rest = s.subrange(pos, s.len() as int);
    assert(forall|k: int| 0 <= k < j - pos ==> rest[k] != 10);
    lemma_first_nl(rest, 0, j - pos);
}

} // verus!
