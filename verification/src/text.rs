//! Character-level helpers shared by the parsers and validators.

use vstd::prelude::*;
use vstd::std_specs::iter::IteratorSpec;

verus! {

/// Unicode `White_Space`: the characters `char::is_whitespace` accepts.
pub open spec fn is_white_space(c: char) -> bool {
    let u = c as u32;
    ||| 0x09 <= u <= 0x0d
    ||| u == 0x20
    ||| u == 0x85
    ||| u == 0xa0
    ||| u == 0x1680
    ||| 0x2000 <= u <= 0x200a
    ||| u == 0x2028
    ||| u == 0x2029
    ||| u == 0x202f
    ||| u == 0x205f
    ||| u == 0x3000
}

/// Index of the first character that is not white space (`s.len()` if none).
pub open spec fn trim_start_index(s: Seq<char>) -> int
    decreases s.len(),
{
    if s.len() == 0 {
        0
    } else if is_white_space(s[0]) {
        1 + trim_start_index(s.drop_first())
    } else {
        0
    }
}

/// One past the last character that is not white space (`0` if none).
pub open spec fn trim_end_index(s: Seq<char>) -> int
    decreases s.len(),
{
    if s.len() == 0 {
        0
    } else if is_white_space(s.last()) {
        trim_end_index(s.drop_last())
    } else {
        s.len() as int
    }
}

/// `s` without leading and trailing white space, as `str::trim` returns it.
pub open spec fn trim_seq(s: Seq<char>) -> Seq<char> {
    if trim_end_index(s) <= trim_start_index(s) {
        Seq::empty()
    } else {
        s.subrange(trim_start_index(s), trim_end_index(s))
    }
}

/// `true` when `s` holds nothing but white space.
pub open spec fn is_blank(s: Seq<char>) -> bool {
    trim_seq(s).len() == 0
}

pub fn is_white_space_char(c: char) -> (b: bool)
    ensures
        b == is_white_space(c),
{
    let u = c as u32;
    (0x09 <= u && u <= 0x0d) || u == 0x20 || u == 0x85 || u == 0xa0 || u == 0x1680 || (0x2000
        <= u && u <= 0x200a) || u == 0x2028 || u == 0x2029 || u == 0x202f || u == 0x205f || u
        == 0x3000
}

/// The characters of `s`, in order.
pub fn chars_of(s: &str) -> (v: Vec<char>)
    ensures
        v@ == s@,
{
    let mut v: Vec<char> = Vec::new();
    for c in iter: s.chars()
        invariant
            v@ == iter.seq().take(iter.index() as int),
    {
        v.push(c);
    }
    v
}

/// Appends one character to a `String` (`String::push`).
#[verifier::external_body]
pub(crate) fn push_char(s: &mut String, c: char)
    ensures
        final(s)@ == old(s)@.push(c),
{
    s.push(c);
}

/// A `String` holding exactly the characters `v[from..to]`.
pub fn string_from_chars(v: &Vec<char>, from: usize, to: usize) -> (s: String)
    requires
        from <= to <= v.len(),
    ensures
        s@ == v@.subrange(from as int, to as int),
{
    let mut s = String::new();
    let mut i = from;
    while i < to
        invariant
            from <= i <= to <= v.len(),
            s@ == v@.subrange(from as int, i as int),
        decreases to - i,
    {
        push_char(&mut s, v[i]);
        assert(v@.subrange(from as int, i + 1) == v@.subrange(from as int, i as int).push(v@[i as int]));
        i += 1;
    }
    s
}

proof fn lemma_trim_start_step(s: Seq<char>, i: int)
    requires
        0 <= i < s.len(),
        is_white_space(s[i]),
    ensures
        trim_start_index(s.skip(i)) == 1 + trim_start_index(s.skip(i + 1)),
{
    assert(s.skip(i).drop_first() == s.skip(i + 1));
}

proof fn lemma_trim_end_step(s: Seq<char>, j: int)
    requires
        0 < j <= s.len(),
        is_white_space(s[j - 1]),
    ensures
        trim_end_index(s.take(j)) == trim_end_index(s.take(j - 1)),
{
    assert(s.take(j).drop_last() == s.take(j - 1));
}

/// Start and end of the trimmed part of `v`.
pub fn trim_bounds(v: &Vec<char>) -> (r: (usize, usize))
    ensures
        r.0 == trim_start_index(v@),
        r.1 == trim_end_index(v@),
        r.0 <= v.len(),
        r.1 <= v.len(),
{
    let n = v.len();
    let mut i: usize = 0;
    assert(v@.skip(0) == v@);
    while i < n && is_white_space_char(v[i])
        invariant
            i <= n == v.len(),
            trim_start_index(v@) == i + trim_start_index(v@.skip(i as int)),
        decreases n - i,
    {
        proof {
            lemma_trim_start_step(v@, i as int);
        }
        i += 1;
    }
    proof {
        if i < n {
            assert(v@.skip(i as int)[0] == v@[i as int]);
        } else {
            assert(v@.skip(i as int).len() == 0);
        }
    }
    let mut j: usize = n;
    assert(v@.take(n as int) == v@);
    while j > 0 && is_white_space_char(v[j - 1])
        invariant
            j <= n == v.len(),
            trim_end_index(v@) == trim_end_index(v@.take(j as int)),
        decreases j,
    {
        proof {
            lemma_trim_end_step(v@, j as int);
        }
        j -= 1;
    }
    proof {
        if j > 0 {
            assert(v@.take(j as int).last() == v@[j - 1]);
        } else {
            assert(v@.take(0).len() == 0);
        }
    }
    (i, j)
}

/// `str::trim`, as an owned `String`.
pub fn trimmed(s: &str) -> (t: String)
    ensures
        t@ == trim_seq(s@),
{
    let v = chars_of(s);
    let (a, b) = trim_bounds(&v);
    if b <= a {
        String::new()
    } else {
        string_from_chars(&v, a, b)
    }
}

/// `s.trim().is_empty()`.
pub fn is_blank_str(s: &str) -> (b: bool)
    ensures
        b == is_blank(s@),
{
    let v = chars_of(s);
    let (a, b) = trim_bounds(&v);
    proof {
        if b > a {
            assert(trim_seq(v@).len() == b - a);
        }
    }
    b <= a
}


/// `s` cut at every line feed, as `str::split('\n')` cuts it: one piece more
/// than there are line feeds.
pub open spec fn split_lines(s: Seq<char>) -> Seq<Seq<char>>
    decreases s.len(),
{
    if s.len() == 0 {
        seq![Seq::empty()]
    } else {
        let earlier = split_lines(s.drop_last());
        if s.last() == '\n' {
            earlier.push(Seq::empty())
        } else {
            earlier.update(earlier.len() - 1, earlier.last().push(s.last()))
        }
    }
}

/// The pieces of `s` between line feeds, in order.
pub fn split_lines_of(s: &str) -> (lines: Vec<Vec<char>>)
    ensures
        lines.deep_view() == split_lines(s@),
        s@.len() <= usize::MAX,
{
    let chars = chars_of(s);
    let mut lines: Vec<Vec<char>> = Vec::new();
    let mut current: Vec<char> = Vec::new();
    let mut k: usize = 0;
    proof {
        assert(chars@.take(0) =~= Seq::<char>::empty());
        assert(split_lines(chars@.take(0)) =~= lines.deep_view().push(current@));
    }
    while k < chars.len()
        invariant
            k <= chars@.len(),
            chars@ == s@,
            split_lines(chars@.take(k as int)) == lines.deep_view().push(current@),
        decreases chars@.len() - k,
    {
        let c = chars[k];
        proof {
            assert(chars@.take(k + 1).drop_last() =~= chars@.take(k as int));
            assert(chars@.take(k + 1).last() == c);
        }
        if c == '\n' {
            let ghost before = lines.deep_view();
            let done = current;
            proof {
                assert(done.deep_view() =~= done@);
            }
            lines.push(done);
            current = Vec::new();
            proof {
                assert(lines.deep_view() =~= before.push(done@));
                assert(split_lines(chars@.take(k + 1)) =~= lines.deep_view().push(current@));
            }
        } else {
            current.push(c);
            proof {
                assert(split_lines(chars@.take(k + 1)) =~= lines.deep_view().push(current@));
            }
        }
        k += 1;
    }
    let ghost before = lines.deep_view();
    let last = current;
    proof {
        assert(last.deep_view() =~= last@);
    }
    lines.push(last);
    proof {
        assert(chars@.take(k as int) =~= chars@);
        assert(lines.deep_view() =~= before.push(last@));
    }
    lines
}


proof fn lemma_trim_start_bounds(s: Seq<char>)
    ensures
        0 <= trim_start_index(s) <= s.len(),
        trim_start_index(s) < s.len() ==> !is_white_space(s[trim_start_index(s)]),
    decreases s.len(),
{
    if s.len() > 0 && is_white_space(s[0]) {
        lemma_trim_start_bounds(s.drop_first());
    }
}

proof fn lemma_trim_end_bounds(s: Seq<char>)
    ensures
        0 <= trim_end_index(s) <= s.len(),
        trim_end_index(s) > 0 ==> !is_white_space(s[trim_end_index(s) - 1]),
    decreases s.len(),
{
    if s.len() > 0 && is_white_space(s.last()) {
        lemma_trim_end_bounds(s.drop_last());
    }
}

/// Trimming twice trims once.
pub proof fn lemma_trim_idempotent(s: Seq<char>)
    ensures
        trim_seq(trim_seq(s)) == trim_seq(s),
{
    lemma_trim_start_bounds(s);
    lemma_trim_end_bounds(s);
    let t = trim_seq(s);
    if t.len() > 0 {
        assert(t[0] == s[trim_start_index(s)]);
        assert(t.last() == s[trim_end_index(s) - 1]);
        assert(trim_start_index(t) == 0);
        assert(trim_end_index(t) == t.len());
        assert(t.subrange(0, t.len() as int) =~= t);
    } else {
        assert(trim_start_index(t) == 0);
        assert(trim_end_index(t) == 0);
    }
}

} // verus!
