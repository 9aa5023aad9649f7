//! A check on the bundled stylesheets: keyframe selector lists such as
//! `0%, 100% {` only parse on GTK 4.20 and newer, so they are looked for.

use vstd::prelude::*;
use crate::text::{split_lines, trim_seq};

verus! {

/// How often `c` occurs in `s`.
pub open spec fn count_char(s: Seq<char>, c: char) -> nat
    decreases s.len(),
{
    if s.len() == 0 {
        0
    } else {
        count_char(s.drop_last(), c) + if s.last() == c {
            1nat
        } else {
            0nat
        }
    }
}

/// `s` starts with `@keyframes`.
pub open spec fn starts_keyframes(s: Seq<char>) -> bool {
    s.len() >= 10 && s.take(10) == seq!['@', 'k', 'e', 'y', 'f', 'r', 'a', 'm', 'e', 's']
}

/// The scan after `lines`: the brace depth inside `@keyframes` blocks, and
/// the trimmed lines inside them that end in a comma, in order. Lines
/// outside such a block are skipped until one starts it.
pub open spec fn keyframe_scan(lines: Seq<Seq<char>>) -> (nat, Seq<Seq<char>>)
    decreases lines.len(),
{
    if lines.len() == 0 {
        (0, Seq::empty())
    } else {
        let (depth, offenders) = keyframe_scan(lines.drop_last());
        let line = lines.last();
        let t = trim_seq(line);
        if depth == 0 && !starts_keyframes(t) {
            (depth, offenders)
        } else {
            let found = if depth > 0 && t.len() > 0 && t.last() == ',' {
                offenders.push(t)
            } else {
                offenders
            };
            let opened = depth + count_char(line, '{');
            let closed = count_char(line, '}');
            (if opened >= closed {
                (opened - closed) as nat
            } else {
                0
            }, found)
        }
    }
}

/// The characters of `lines` put together.
pub open spec fn lines_len(lines: Seq<Seq<char>>) -> nat
    decreases lines.len(),
{
    if lines.len() == 0 {
        0
    } else {
        lines_len(lines.drop_last()) + lines.last().len()
    }
}

proof fn lemma_split_lines_len(s: Seq<char>)
    ensures
        split_lines(s).len() >= 1,
        lines_len(split_lines(s)) <= s.len(),
    decreases s.len(),
{
    if s.len() > 0 {
        lemma_split_lines_len(s.drop_last());
        let earlier = split_lines(s.drop_last());
        if s.last() == '\n' {
            assert(earlier.push(Seq::empty()).drop_last() =~= earlier);
            assert(split_lines(s) == earlier.push(Seq::empty()));
        } else {
            let u = earlier.update(earlier.len() - 1, earlier.last().push(s.last()));
            assert(u.drop_last() =~= earlier.drop_last());
            assert(u.last() == earlier.last().push(s.last()));
            assert(lines_len(earlier) == lines_len(earlier.drop_last()) + earlier.last().len());
            assert(lines_len(u) == lines_len(u.drop_last()) + u.last().len());
            assert(split_lines(s) == u);
        }
    } else {
        let one = split_lines(s);
        assert(one.drop_last() =~= Seq::<Seq<char>>::empty());
        assert(lines_len(one.drop_last()) == 0);
    }
}

proof fn lemma_lines_len_prefix(lines: Seq<Seq<char>>, n: int)
    requires
        0 <= n <= lines.len(),
    ensures
        lines_len(lines.take(n)) <= lines_len(lines),
    decreases lines.len(),
{
    if n < lines.len() {
        assert(lines.drop_last().take(n) =~= lines.take(n));
        lemma_lines_len_prefix(lines.drop_last(), n);
    } else {
        assert(lines.take(n) =~= lines);
    }
}

proof fn lemma_scan_depth(lines: Seq<Seq<char>>)
    ensures
        keyframe_scan(lines).0 <= lines_len(lines),
    decreases lines.len(),
{
    if lines.len() > 0 {
        lemma_scan_depth(lines.drop_last());
        lemma_count_char_bound(lines.last(), '{');
    }
}

proof fn lemma_count_char_bound(s: Seq<char>, c: char)
    ensures
        count_char(s, c) <= s.len(),
    decreases s.len(),
{
    if s.len() > 0 {
        lemma_count_char_bound(s.drop_last(), c);
    }
}

fn count_of(s: &Vec<char>, c: char) -> (n: usize)
    ensures
        n == count_char(s@, c),
        n <= s@.len(),
{
    let mut n: usize = 0;
    let mut k: usize = 0;
    while k < s.len()
        invariant
            k <= s@.len(),
            n == count_char(s@.take(k as int), c),
            n <= k,
        decreases s@.len() - k,
    {
        proof {
            assert(s@.take(k + 1).drop_last() =~= s@.take(k as int));
        }
        if s[k] == c {
            n += 1;
        }
        k += 1;
    }
    proof {
        assert(s@.take(k as int) =~= s@);
    }
    n
}

fn starts_with_keyframes(v: &Vec<char>, from: usize, to: usize) -> (starts: bool)
    requires
        from <= to <= v@.len(),
    ensures
        starts == starts_keyframes(v@.subrange(from as int, to as int)),
{
    if to - from < 10 {
        return false;
    }
    let word = ['@', 'k', 'e', 'y', 'f', 'r', 'a', 'm', 'e', 's'];
    let mut k: usize = 0;
    while k < 10
        invariant
            from + 10 <= to <= v@.len(),
            k <= 10,
            word@ == seq!['@', 'k', 'e', 'y', 'f', 'r', 'a', 'm', 'e', 's'],
            forall|m: int| 0 <= m < k ==> v@[from + m] == word@[m],
        decreases 10 - k,
    {
        if v[from + k] != word[k] {
            proof {
                assert(v@.subrange(from as int, to as int).take(10)[k as int] != word@[k as int]);
            }
            return false;
        }
        k += 1;
    }
    proof {
        assert(v@.subrange(from as int, to as int).take(10) =~= word@);
    }
    true
}

/// The lines of `css` inside `@keyframes` blocks that end in a comma, each
/// trimmed, in order.
pub fn keyframe_selector_lists(css: &str) -> (offenders: Vec<String>)
    ensures
        offenders.deep_view() == keyframe_scan(split_lines(css@)).1,
{
    let lines = crate::text::split_lines_of(css);
    proof {
        lemma_split_lines_len(css@);
    }
    let mut offenders: Vec<String> = Vec::new();
    let mut depth: usize = 0;
    let mut k: usize = 0;
    while k < lines.len()
        invariant
            k <= lines@.len(),
            lines.deep_view() == split_lines(css@),
            keyframe_scan(lines.deep_view().take(k as int)) == (depth as nat, offenders.deep_view()),
            lines_len(lines.deep_view()) <= usize::MAX,
        decreases lines@.len() - k,
    {
        let line = &lines[k];
        proof {
            assert(lines.deep_view().take(k + 1).drop_last() =~= lines.deep_view().take(k as int));
            assert(lines.deep_view().take(k + 1).last() == line@);
            lemma_scan_depth(lines.deep_view().take(k as int));
            lemma_lines_len_prefix(lines.deep_view(), k + 1);
            assert(lines_len(lines.deep_view().take(k + 1)) == lines_len(lines.deep_view().take(k as int)) + line@.len());
        }
        let (a, b) = crate::text::trim_bounds(line);
        let keyframes = b > a && starts_with_keyframes(line, a, b);
        proof {
            if b <= a {
                assert(trim_seq(line@).len() == 0);
            } else {
                assert(trim_seq(line@) == line@.subrange(a as int, b as int));
            }
        }
        if depth == 0 && !keyframes {
            k += 1;
            continue;
        }
        if depth > 0 && b > a && line[b - 1] == ',' {
            let t = crate::text::string_from_chars(line, a, b);
            let ghost before = offenders.deep_view();
            offenders.push(t);
            proof {
                assert(offenders.deep_view() =~= before.push(trim_seq(line@)));
            }
        }
        let opened = count_of(line, '{');
        let closed = count_of(line, '}');
        depth = depth + opened;
        depth = if depth >= closed {
            depth - closed
        } else {
            0
        };
        k += 1;
    }
    proof {
        assert(lines.deep_view().take(k as int) =~= lines.deep_view());
    }
    offenders
}

} // verus!
