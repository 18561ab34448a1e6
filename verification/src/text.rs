//! Character-sequence utilities shared by the rest of the library.

use vstd::prelude::*;

verus! {

/// `pat` occurs in `s` starting at position `i`.
pub open spec fn matches_at(s: Seq<char>, pat: Seq<char>, i: int) -> bool {
    0 <= i && i + pat.len() <= s.len() && s.subrange(i, i + pat.len()) == pat
}

/// `pat` occurs somewhere in `s` (the empty pattern occurs in every string).
pub open spec fn contains_seq(s: Seq<char>, pat: Seq<char>) -> bool {
    exists|i: int| matches_at(s, pat, i)
}

/// Every occurrence of the non-empty `pat` in `s`, taken from left to right
/// without overlap, replaced by `rep`.
pub open spec fn replace_seq(s: Seq<char>, pat: Seq<char>, rep: Seq<char>) -> Seq<char>
    decreases s.len(),
{
    if pat.len() == 0 || s.len() < pat.len() {
        s
    } else if s.subrange(0, pat.len() as int) == pat {
        rep + replace_seq(s.subrange(pat.len() as int, s.len() as int), pat, rep)
    } else {
        seq![s[0]] + replace_seq(s.subrange(1, s.len() as int), pat, rep)
    }
}

/// The characters of `s` as an owned vector.
pub fn chars_of(s: &str) -> (v: Vec<char>)
    ensures
        v@ == s@,
{
    let mut v: Vec<char> = Vec::new();
    for c in it: s.chars()
        invariant
            v@ == it.seq().take(it.index()),
    {
        v.push(c);
    }
    v
}

/// `String::from_iter` over a slice of characters: the string holds exactly
/// those characters, in order.
#[verifier::external_body]
pub(crate) fn string_of(chars: &[char]) -> (s: String)
    ensures
        s@ == chars@,
{
    String::from_iter(chars)
}

/// Whether `pat` occurs in `s` at position `i`.
pub fn matches_at_exec(s: &Vec<char>, pat: &Vec<char>, i: usize) -> (r: bool)
    ensures
        r == matches_at(s@, pat@, i as int),
{
    if i > s.len() || pat.len() > s.len() - i {
        return false;
    }
    let mut j: usize = 0;
    while j < pat.len()
        invariant
            i + pat.len() <= s.len(),
            j <= pat.len(),
            forall|k: int| 0 <= k < j ==> s@[i + k] == pat@[k],
        decreases pat.len() - j,
    {
        if s[i + j] != pat[j] {
            assert(s@.subrange(i as int, i + pat.len())[j as int] != pat@[j as int]);
            return false;
        }
        j = j + 1;
    }
    assert(s@.subrange(i as int, i + pat.len()) =~= pat@);
    true
}

/// Whether `pat` occurs anywhere in `s`.
pub fn contains_exec(s: &Vec<char>, pat: &Vec<char>) -> (r: bool)
    ensures
        r == contains_seq(s@, pat@),
{
    if pat.len() > s.len() {
        return false;
    }
    let last = s.len() - pat.len();
    let mut i: usize = 0;
    loop
        invariant
            last == s.len() - pat.len(),
            pat.len() <= s.len(),
            i <= last,
            forall|k: int| 0 <= k < i ==> !matches_at(s@, pat@, k),
        decreases last - i,
    {
        if matches_at_exec(s, pat, i) {
            return true;
        }
        if i == last {
            assert forall|k: int| !matches_at(s@, pat@, k) by {
                if 0 <= k <= last {
                    assert(k < i || k == i);
                }
            }
            return false;
        }
        i = i + 1;
    }
}

/// `s` with every occurrence of the non-empty `pat` replaced by `rep`,
/// scanning from left to right.
pub fn replace_exec(s: &Vec<char>, pat: &Vec<char>, rep: &Vec<char>) -> (r: Vec<char>)
    requires
        pat.len() > 0,
    ensures
        r@ == replace_seq(s@, pat@, rep@),
{
    let mut out: Vec<char> = Vec::new();
    let mut i: usize = 0;
    assert(s@.subrange(0, s.len() as int) =~= s@);
    while i < s.len()
        invariant
            pat.len() > 0,
            i <= s.len(),
            replace_seq(s@, pat@, rep@) == out@ + replace_seq(
                s@.subrange(i as int, s.len() as int),
                pat@,
                rep@,
            ),
        decreases s.len() - i,
    {
        let ghost rest = s@.subrange(i as int, s.len() as int);
        if matches_at_exec(s, pat, i) {
            assert(rest.subrange(0, pat.len() as int) =~= s@.subrange(i as int, i + pat.len()));
            assert(rest.subrange(pat.len() as int, rest.len() as int) =~= s@.subrange(
                i + pat.len(),
                s.len() as int,
            ));
            let mut k: usize = 0;
            let ghost before = out@;
            while k < rep.len()
                invariant
                    k <= rep.len(),
                    out@ == before + rep@.take(k as int),
                decreases rep.len() - k,
            {
                out.push(rep[k]);
                k = k + 1;
                assert(out@ =~= before + rep@.take(k as int));
            }
            assert(rep@.take(rep.len() as int) =~= rep@);
            assert(out@ =~= before + rep@);
            i = i + pat.len();
        } else {
            proof {
                if rest.len() >= pat.len() {
                    assert(rest.subrange(0, pat.len() as int) =~= s@.subrange(
                        i as int,
                        i + pat.len(),
                    ));
                }
            }
            assert(rest.subrange(1, rest.len() as int) =~= s@.subrange(i + 1, s.len() as int));
            let ghost before = out@;
            out.push(s[i]);
            assert(out@ =~= before + seq![rest[0]]);
            proof {
                if rest.len() < pat.len() {
                    // the tail is too short to match: it is copied unchanged
                    assert(replace_seq(rest, pat@, rep@) == rest);
                    assert(replace_seq(rest.subrange(1, rest.len() as int), pat@, rep@)
                        == rest.subrange(1, rest.len() as int));
                    assert(rest =~= seq![rest[0]] + rest.subrange(1, rest.len() as int));
                }
            }
            i = i + 1;
        }
    }
    assert(s@.subrange(s.len() as int, s.len() as int) =~= Seq::<char>::empty());
    assert(out@ + Seq::<char>::empty() =~= out@);
    out
}

/// A line without the carriage return that ends it, if any.
pub open spec fn strip_cr(line: Seq<char>) -> Seq<char> {
    if line.len() > 0 && line.last() == '\r' {
        line.drop_last()
    } else {
        line
    }
}

/// Position of the first line feed in `s`, or `s.len()` when there is none.
pub open spec fn first_newline(s: Seq<char>) -> nat
    decreases s.len(),
{
    if s.len() == 0 || s[0] == '\n' {
        0
    } else {
        1 + first_newline(s.subrange(1, s.len() as int))
    }
}

/// The lines of `s`: split at each line feed, a carriage return right before
/// a line feed dropped, and no empty last line after a final line feed.
pub open spec fn lines_seq(s: Seq<char>) -> Seq<Seq<char>>
    decreases s.len(),
{
    if s.len() == 0 {
        seq![]
    } else if first_newline(s) >= s.len() {
        seq![s]
    } else {
        let k = first_newline(s) as int;
        seq![strip_cr(s.subrange(0, k))] + lines_seq(s.subrange(k + 1, s.len() as int))
    }
}

/// The views of a sequence of strings.
pub open spec fn string_views(v: Seq<String>) -> Seq<Seq<char>> {
    v.map_values(|l: String| l@)
}

/// `first_newline` is the position of the first line feed.
pub proof fn lemma_first_newline(s: Seq<char>, k: int)
    requires
        0 <= k <= s.len(),
        forall|j: int| 0 <= j < k ==> s[j] != '\n',
        k == s.len() || s[k] == '\n',
    ensures
        first_newline(s) == k,
    decreases k,
{
    if k > 0 {
        let t = s.subrange(1, s.len() as int);
        lemma_first_newline(t, k - 1);
    }
}

/// The lines of `s`, as `str::lines` yields them.
pub fn split_lines(s: &str) -> (out: Vec<String>)
    ensures
        string_views(out@) == lines_seq(s@),
{
    let v = chars_of(s);
    let n = v.len();
    let mut out: Vec<String> = Vec::new();
    let mut cur: Vec<char> = Vec::new();
    let mut start: usize = 0;
    let mut i: usize = 0;
    assert(v@.subrange(0, n as int) =~= v@);
    while i < n
        invariant
            n == v.len(),
            v@ == s@,
            start <= i <= n,
            cur@ == v@.subrange(start as int, i as int),
            forall|j: int| start <= j < i ==> v@[j] != '\n',
            lines_seq(v@) == string_views(out@) + lines_seq(v@.subrange(start as int, n as int)),
        decreases n - i,
    {
        if v[i] == '\n' {
            let ghost rest = v@.subrange(start as int, n as int);
            proof {
                lemma_first_newline(rest, i - start);
                assert(rest.subrange(0, i - start) =~= v@.subrange(start as int, i as int));
                assert(rest.subrange(i - start + 1, rest.len() as int) =~= v@.subrange(
                    i + 1,
                    n as int,
                ));
            }
            let ghost line = strip_cr(cur@);
            if cur.len() > 0 && cur[cur.len() - 1] == '\r' {
                cur.pop();
                assert(cur@ =~= line);
            }
            let piece = string_of(cur.as_slice());
            let ghost before = out@;
            out.push(piece);
            assert(string_views(out@) =~= string_views(before) + seq![line]);
            cur = Vec::new();
            start = i + 1;
            assert(cur@ =~= v@.subrange(start as int, start as int));
        } else {
            cur.push(v[i]);
            assert(cur@ =~= v@.subrange(start as int, i + 1));
        }
        i = i + 1;
    }
    let ghost rest = v@.subrange(start as int, n as int);
    assert(rest =~= cur@);
    if cur.len() > 0 {
        proof {
            lemma_first_newline(rest, rest.len() as int);
        }
        let piece = string_of(cur.as_slice());
        let ghost before = out@;
        out.push(piece);
        assert(string_views(out@) =~= string_views(before) + seq![rest]);
    } else {
        assert(string_views(out@) + Seq::<Seq<char>>::empty() =~= string_views(out@));
    }
    out
}

/// Lemma: splitting off a leading occurrence of the pattern.
pub proof fn lemma_replace_leading(pat: Seq<char>, t: Seq<char>, rep: Seq<char>)
    requires
        pat.len() > 0,
    ensures
        replace_seq(pat + t, pat, rep) == rep + replace_seq(t, pat, rep),
{
    let s = pat + t;
    assert(s.subrange(0, pat.len() as int) =~= pat);
    assert(s.subrange(pat.len() as int, s.len() as int) =~= t);
}

/// Lemma: replacing a pattern that does not occur changes nothing.
pub proof fn lemma_replace_absent(s: Seq<char>, pat: Seq<char>, rep: Seq<char>)
    requires
        !contains_seq(s, pat),
    ensures
        replace_seq(s, pat, rep) == s,
    decreases s.len(),
{
    if pat.len() == 0 {
        assert(s.subrange(0, 0) =~= pat);
        assert(matches_at(s, pat, 0));
    } else if s.len() >= pat.len() {
        assert(!matches_at(s, pat, 0));
        let t = s.subrange(1, s.len() as int);
        assert forall|i: int| !matches_at(t, pat, i) by {
            if matches_at(t, pat, i) {
                assert(s.subrange(i + 1, i + 1 + pat.len()) =~= t.subrange(i, i + pat.len()));
                assert(matches_at(s, pat, i + 1));
            }
        }
        lemma_replace_absent(t, pat, rep);
        assert(s =~= seq![s[0]] + t);
    }
}

/// Lemma: a pattern that starts with a character absent from `s` does not occur in `s`.
pub proof fn lemma_absent_first_char(s: Seq<char>, pat: Seq<char>)
    requires
        pat.len() > 0,
        !s.contains(pat[0]),
    ensures
        !contains_seq(s, pat),
{
    assert forall|i: int| !matches_at(s, pat, i) by {
        if matches_at(s, pat, i) {
            assert(s.subrange(i, i + pat.len())[0] == s[i]);
        }
    }
}

/// Replacing with a string of the same length keeps the length.
pub proof fn lemma_replace_same_len(s: Seq<char>, pat: Seq<char>, rep: Seq<char>)
    requires
        rep.len() == pat.len(),
    ensures
        replace_seq(s, pat, rep).len() == s.len(),
    decreases s.len(),
{
    if pat.len() == 0 || s.len() < pat.len() {
    } else if s.subrange(0, pat.len() as int) == pat {
        lemma_replace_same_len(s.subrange(pat.len() as int, s.len() as int), pat, rep);
    } else {
        lemma_replace_same_len(s.subrange(1, s.len() as int), pat, rep);
    }
}

/// Whether a character outside ASCII is a Unicode letter or number, as
/// `char::is_alphanumeric` decides.
pub uninterp spec fn is_unicode_alphanumeric(c: char) -> bool;

/// An ASCII letter or digit.
pub open spec fn is_ascii_alphanumeric(c: char) -> bool {
    ('a' <= c && c <= 'z') || ('A' <= c && c <= 'Z') || ('0' <= c && c <= '9')
}

/// Whether `char::is_alphanumeric` holds of `c`: among ASCII characters
/// exactly the letters and digits.
pub open spec fn is_alphanumeric(c: char) -> bool {
    if (c as u32) < 128 {
        is_ascii_alphanumeric(c)
    } else {
        is_unicode_alphanumeric(c)
    }
}

/// `char::is_alphanumeric`: true for characters with the Unicode `Alphabetic`
/// property or a numeric general category. The contract states, as std
/// documents it, that among ASCII characters exactly the letters and digits
/// qualify, and names the result for every other character.
#[verifier::external_body]
pub(crate) fn char_is_alphanumeric(c: char) -> (r: bool)
    ensures
        r == is_alphanumeric(c),
        (c as u32) >= 128 ==> r == is_unicode_alphanumeric(c),
{
    c.is_alphanumeric()
}

/// Whether two strings hold the same characters.
pub fn same_text(a: &str, b: &str) -> (r: bool)
    ensures
        r == (a@ == b@),
{
    let x = chars_of(a);
    let y = chars_of(b);
    if x.len() != y.len() {
        return false;
    }
    let mut i: usize = 0;
    while i < x.len()
        invariant
            x@ == a@,
            y@ == b@,
            x.len() == y.len(),
            i <= x.len(),
            forall|k: int| 0 <= k < i ==> x@[k] == y@[k],
        decreases x.len() - i,
    {
        if x[i] != y[i] {
            assert(x@[i as int] != y@[i as int]);
            return false;
        }
        i = i + 1;
    }
    assert(x@ =~= y@);
    true
}

/// Lemma: no line feed comes before `first_newline`, which lies within `s`.
pub proof fn lemma_first_newline_bounds(s: Seq<char>)
    ensures
        first_newline(s) <= s.len(),
        forall|j: int| 0 <= j < first_newline(s) ==> s[j] != '\n',
    decreases s.len(),
{
    if s.len() > 0 && s[0] != '\n' {
        let t = s.subrange(1, s.len() as int);
        lemma_first_newline_bounds(t);
        assert forall|j: int| 0 <= j < first_newline(s) implies s[j] != '\n' by {
            if j > 0 {
                assert(s[j] == t[j - 1]);
            }
        }
    }
}

/// Law: no line holds a line feed.
pub proof fn law_lines_have_no_newline(s: Seq<char>)
    ensures
        forall|i: int, j: int|
            0 <= i < lines_seq(s).len() && 0 <= j < lines_seq(s)[i].len() ==> lines_seq(s)[i][j]
                != '\n',
    decreases s.len(),
{
    if s.len() > 0 {
        lemma_first_newline_bounds(s);
        if first_newline(s) < s.len() {
            let k = first_newline(s) as int;
            let rest = s.subrange(k + 1, s.len() as int);
            law_lines_have_no_newline(rest);
            let head = strip_cr(s.subrange(0, k));
            assert forall|i: int, j: int|
                0 <= i < lines_seq(s).len() && 0 <= j < lines_seq(s)[i].len() implies lines_seq(
                s,
            )[i][j] != '\n' by {
                if i == 0 {
                    assert(lines_seq(s)[0] == head);
                    assert(head[j] == s[j]);
                } else {
                    assert(lines_seq(s)[i] == lines_seq(rest)[i - 1]);
                }
            }
        }
    }
}

} // verus!
