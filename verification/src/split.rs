//! Splitting a string on a single separator character, the way every list in
//! the protocol is delimited (cells by `,`, cell facets by `;`, line tokens
//! by a space).  Empty segments are kept, so the result is never empty.

use vstd::prelude::*;
use vstd::string::*;

verus! {

/// Character-for-character string equality; the protocol's verbs and keys
/// are matched literally.
pub fn str_eq(a: &str, b: &str) -> (r: bool)
    ensures
        r == (a@ == b@),
{
    let na = a.unicode_len();
    let nb = b.unicode_len();
    if na != nb {
        return false;
    }
    let mut i: usize = 0;
    while i < na
        invariant
            0 <= i <= na,
            na == a@.len(),
            nb == b@.len(),
            na == nb,
            forall|k: int| 0 <= k < i ==> a@[k] == b@[k],
        decreases na - i,
    {
        if a.get_char(i) != b.get_char(i) {
            return false;
        }
        i = i + 1;
    }
    proof {
        assert(a@ =~= b@);
    }
    true
}

/// Index of the first occurrence of `sep` in `s`, or `s.len()` if none.
pub open spec fn find_sep(s: Seq<char>, sep: char) -> int
    decreases s.len(),
{
    if s.len() == 0 {
        0
    } else if s[0] == sep {
        0
    } else {
        1 + find_sep(s.skip(1), sep)
    }
}

/// The segments of `s` between occurrences of `sep`, in order.  A string
/// with no separator is one segment; n separators give n + 1 segments, empty
/// ones included.
pub open spec fn split_spec(s: Seq<char>, sep: char) -> Seq<Seq<char>>
    decreases s.len(),
{
    let i = find_sep(s, sep);
    if 0 <= i && i < s.len() {
        seq![s.take(i)] + split_spec(s.skip(i + 1), sep)
    } else {
        seq![s]
    }
}

/// The first position at which a scan that saw no separator before `i` and
/// sees one (or the end) at `i` stops is exactly `find_sep`.
proof fn lemma_find_sep_at(s: Seq<char>, sep: char, i: int)
    requires
        0 <= i <= s.len(),
        forall|k: int| 0 <= k < i ==> s[k] != sep,
        i == s.len() || s[i] == sep,
    ensures
        find_sep(s, sep) == i,
    decreases i,
{
    if s.len() == 0 {
    } else if i == 0 {
    } else {
        assert(s[0] != sep);
        assert(forall|k: int| 0 <= k < i - 1 ==> s.skip(1)[k] == s[k + 1]);
        lemma_find_sep_at(s.skip(1), sep, i - 1);
    }
}

/// One unfolding of `split_spec` from position `start`, given a scan that
/// found the next separator at `j` (or none up to the end, `j == s.len()`).
proof fn lemma_split_step(s: Seq<char>, sep: char, start: int, j: int)
    requires
        0 <= start <= j <= s.len(),
        forall|k: int| start <= k < j ==> s[k] != sep,
        j == s.len() || s[j] == sep,
    ensures
        split_spec(s.skip(start), sep) == if j < s.len() {
            seq![s.subrange(start, j)] + split_spec(s.skip(j + 1), sep)
        } else {
            seq![s.subrange(start, j)]
        },
{
    let t = s.skip(start);
    assert(forall|k: int| 0 <= k < j - start ==> t[k] == s[k + start]);
    lemma_find_sep_at(t, sep, j - start);
    if j < s.len() {
        assert(t.take(j - start) =~= s.subrange(start, j));
        assert(t.skip(j - start + 1) =~= s.skip(j + 1));
    } else {
        assert(t =~= s.subrange(start, j));
    }
}

/// Split `s` at every occurrence of `sep`.  The result holds exactly the
/// segments of [`split_spec`], in order.
pub fn split_str(s: &str, sep: char) -> (r: Vec<String>)
    ensures
        r.deep_view() == split_spec(s@, sep),
{
    let n = s.unicode_len();
    let mut r: Vec<String> = Vec::new();
    let mut start: usize = 0;
    proof {
        assert(s@.skip(0) =~= s@);
        assert(r.deep_view() =~= Seq::<Seq<char>>::empty());
        assert(Seq::<Seq<char>>::empty() + split_spec(s@, sep) =~= split_spec(s@, sep));
    }
    loop
        invariant_except_break
            start <= n,
            n == s@.len(),
            split_spec(s@, sep) == r.deep_view() + split_spec(s@.skip(start as int), sep),
        ensures
            r.deep_view() == split_spec(s@, sep),
        decreases n - start,
    {
        let mut j = start;
        while j < n && s.get_char(j) != sep
            invariant
                start <= j <= n,
                n == s@.len(),
                forall|k: int| start <= k < j ==> s@[k] != sep,
            decreases n - j,
        {
            j = j + 1;
        }
        let seg = s.substring_char(start, j).to_owned();
        proof {
            lemma_split_step(s@, sep, start as int, j as int);
        }
        let ghost prev = r.deep_view();
        r.push(seg);
        proof {
            assert(r.deep_view() =~= prev.push(seg@));
        }
        if j == n {
            proof {
                assert(prev.push(seg@) =~= prev + seq![seg@]);
                assert(r.deep_view() =~= split_spec(s@, sep));
            }
            break;
        }
        proof {
            assert(prev.push(seg@) =~= prev + seq![seg@]);
            assert((prev + seq![seg@]) + split_spec(s@.skip(j + 1), sep) =~= prev + (seq![
                seg@,
            ] + split_spec(s@.skip(j + 1), sep)));
        }
        start = j + 1;
    }
    r
}

} // verus!
