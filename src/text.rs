//! Small verified helpers on text: comparison with a literal, substring
//! search and concatenation.
use vstd::prelude::*;
use vstd::string::*;

verus! {

/// `needle` occurs in `hay` as a contiguous run of characters.
pub open spec fn contains_text(hay: Seq<char>, needle: Seq<char>) -> bool {
    exists|i: int|
        0 <= i && i + needle.len() <= hay.len() && #[trigger] hay.subrange(i, i + needle.len())
            == needle
}

/// The characters of `s`, one by one.
pub fn chars_of(s: &str) -> (r: Vec<char>)
    ensures
        r@ == s@,
{
    let n = s.unicode_len();
    let mut out: Vec<char> = Vec::new();
    let mut i: usize = 0;
    while i < n
        invariant
            i <= n,
            n == s@.len(),
            out@ == s@.take(i as int),
        decreases n - i,
    {
        let c = s.get_char(i);
        out.push(c);
        i = i + 1;
        assert(out@ =~= s@.take(i as int));
    }
    assert(out@ =~= s@);
    out
}

/// Whether the text `s` is exactly `lit`.
pub fn text_is(s: &str, lit: &str) -> (r: bool)
    ensures
        r == (s@ == lit@),
{
    let a = chars_of(s);
    let b = chars_of(lit);
    if a.len() != b.len() {
        return false;
    }
    let mut i: usize = 0;
    while i < a.len()
        invariant
            i <= a.len(),
            a.len() == b.len(),
            a@ == s@,
            b@ == lit@,
            a@.take(i as int) == b@.take(i as int),
        decreases a.len() - i,
    {
        if a[i] != b[i] {
            assert(a@[i as int] != b@[i as int]);
            return false;
        }
        i = i + 1;
        assert(a@.take(i as int) =~= b@.take(i as int)) by {
            assert forall|k: int| 0 <= k < i implies a@[k] == b@[k] by {
                if k < i - 1 {
                    assert(a@.take(i - 1)[k] == b@.take(i - 1)[k]);
                }
            }
        }
    }
    assert(a@ =~= a@.take(i as int));
    assert(b@ =~= b@.take(i as int));
    true
}

/// Whether `needle` occurs in `hay`.
pub fn text_contains(hay: &str, needle: &str) -> (r: bool)
    ensures
        r == contains_text(hay@, needle@),
{
    let h = chars_of(hay);
    let n = chars_of(needle);
    if n.len() > h.len() {
        return false;
    }
    let last = h.len() - n.len();
    let mut i: usize = 0;
    loop
        invariant
            h@ == hay@,
            n@ == needle@,
            i <= last,
            last == h.len() - n.len(),
            forall|k: int| 0 <= k < i ==> #[trigger] h@.subrange(k, k + n@.len()) != n@,
        ensures
            forall|k: int| 0 <= k <= last ==> #[trigger] h@.subrange(k, k + n@.len()) != n@,
        decreases last - i,
    {
        let mut j: usize = 0;
        let mut same = true;
        while j < n.len()
            invariant
                h@ == hay@,
                n@ == needle@,
                i <= last,
                last == h.len() - n.len(),
                j <= n.len(),
                same ==> forall|k: int| 0 <= k < j ==> h@[i + k] == n@[k],
                !same ==> h@.subrange(i as int, i + n@.len()) != n@,
            decreases n.len() - j,
        {
            if h[i + j] != n[j] {
                assert(h@.subrange(i as int, i + n@.len())[j as int] != n@[j as int]);
                same = false;
            }
            j = j + 1;
        }
        if same {
            assert(h@.subrange(i as int, i + n@.len()) =~= n@);
            return true;
        }
        if i == last {
            break;
        }
        i = i + 1;
    }
    assert(!contains_text(hay@, needle@)) by {
        assert forall|k: int|
            0 <= k && k + needle@.len() <= hay@.len() implies #[trigger] hay@.subrange(
            k,
            k + needle@.len(),
        ) != needle@ by {
            assert(k <= last);
        }
    }
    false
}

/// The text `a` followed by `b`.
pub fn join(a: &str, b: &str) -> (r: String)
    ensures
        r@ == a@ + b@,
{
    let mut s = String::from_str(a);
    s.append(b);
    s
}

/// `line` without one trailing carriage return.
pub open spec fn strip_cr(line: Seq<char>) -> Seq<char> {
    if line.len() > 0 && line.last() == '\r' {
        line.drop_last()
    } else {
        line
    }
}

/// The lines that `s` has ended so far, and the text after the last line feed.
pub open spec fn split_state(s: Seq<char>) -> (Seq<Seq<char>>, Seq<char>)
    decreases s.len(),
{
    if s.len() == 0 {
        (Seq::empty(), Seq::empty())
    } else {
        let (done, cur) = split_state(s.drop_last());
        if s.last() == '\n' {
            (done.push(strip_cr(cur)), Seq::empty())
        } else {
            (done, cur.push(s.last()))
        }
    }
}

/// The lines of `s`: split at each line feed, less a carriage return just
/// before it; text after the last line feed is a last line if not empty.
pub open spec fn lines_of(s: Seq<char>) -> Seq<Seq<char>> {
    let (done, cur) = split_state(s);
    if cur.len() > 0 {
        done.push(cur)
    } else {
        done
    }
}

/// Splits `s` into its lines.
pub fn split_lines(s: &str) -> (r: Vec<String>)
    ensures
        r@.map_values(|l: String| l@) == lines_of(s@),
{
    let chars = chars_of(s);
    let mut out: Vec<String> = Vec::new();
    let mut start: usize = 0;
    let mut i: usize = 0;
    while i < chars.len()
        invariant
            chars@ == s@,
            start <= i <= chars.len(),
            out@.map_values(|l: String| l@) == split_state(s@.take(i as int)).0,
            s@.subrange(start as int, i as int) == split_state(s@.take(i as int)).1,
        decreases chars.len() - i,
    {
        let ghost prev = s@.take(i as int);
        assert(s@.take(i + 1).drop_last() =~= prev);
        if chars[i] == '\n' {
            let end = if i > start && chars[i - 1] == '\r' {
                i - 1
            } else {
                i
            };
            let line = String::from_str(s.substring_char(start, end));
            assert(line@ =~= strip_cr(s@.subrange(start as int, i as int)));
            let ghost before = out@;
            out.push(line);
            assert(out@.map_values(|l: String| l@) =~= before.map_values(|l: String| l@).push(
                line@,
            ));
            start = i + 1;
        }
        i = i + 1;
        assert(s@.subrange(start as int, i as int) =~= split_state(s@.take(i as int)).1);
    }
    assert(s@.take(i as int) =~= s@);
    if start < chars.len() {
        let line = String::from_str(s.substring_char(start, chars.len()));
        let ghost before = out@;
        out.push(line);
        assert(out@.map_values(|l: String| l@) =~= before.map_values(|l: String| l@).push(line@));
    }
    out
}

} // verus!
