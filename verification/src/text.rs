//! Fields and lines of descriptors and wire messages.

use vstd::prelude::*;
use crate::numeral::chars_of;

verus! {

/// The fields of `s`: the runs between separators, read left to right. A
/// separator closes the field before it and opens a new one, so `n`
/// separators give `n + 1` fields, empty ones included.
pub open spec fn split(s: Seq<char>, sep: char) -> Seq<Seq<char>>
    decreases s.len(),
{
    if s.len() == 0 {
        seq![Seq::<char>::empty()]
    } else {
        let before = split(s.drop_last(), sep);
        if s.last() == sep {
            before.push(Seq::<char>::empty())
        } else {
            before.drop_last().push(before.last().push(s.last()))
        }
    }
}

/// The fields written one after another with a separator between each two.
pub open spec fn join(parts: Seq<Seq<char>>, sep: char) -> Seq<char>
    decreases parts.len(),
{
    if parts.len() == 0 {
        Seq::<char>::empty()
    } else if parts.len() == 1 {
        parts[0]
    } else {
        join(parts.drop_last(), sep).push(sep) + parts.last()
    }
}

/// `line` without the carriage return at its end, if it has one.
pub open spec fn without_cr(line: Seq<char>) -> Seq<char> {
    if line.len() > 0 && line.last() == '\r' {
        line.drop_last()
    } else {
        line
    }
}

/// The lines of a text. Each line ends at a line feed; a carriage return just
/// before that line feed is not part of the line. What follows the last line
/// feed is a line of its own unless it is empty.
pub open spec fn lines(text: Seq<char>) -> Seq<Seq<char>> {
    let parts = split(text, '\n');
    let closed = parts.len() - 1;
    let count = if parts.last().len() == 0 {
        closed
    } else {
        closed + 1
    };
    Seq::new(
        count as nat,
        |i: int|
            if i < closed {
                without_cr(parts[i])
            } else {
                parts[i]
            },
    )
}

/// There is at least one field, and no field holds the separator.
pub proof fn lemma_split_fields(s: Seq<char>, sep: char)
    ensures
        split(s, sep).len() >= 1,
        forall|i: int| 0 <= i < split(s, sep).len() ==> !(#[trigger] split(s, sep)[i]).contains(sep),
    decreases s.len(),
{
    if s.len() > 0 {
        lemma_split_fields(s.drop_last(), sep);
        let before = split(s.drop_last(), sep);
        let after = split(s, sep);
        assert forall|i: int| 0 <= i < after.len() implies !(#[trigger] after[i]).contains(sep) by {
            if i < after.len() - 1 {
                assert(after[i] == before[i]);
            } else if s.last() != sep {
                assert(after[i] == before.last().push(s.last()));
                assert(!before.last().contains(sep));
                if after[i].contains(sep) {
                    let k = choose|k: int| 0 <= k < after[i].len() && after[i][k] == sep;
                    assert(before.last()[k] == sep);
                }
            }
        }
    }
}

/// Joining the fields of a text gives the text back.
pub proof fn lemma_join_of_split(s: Seq<char>, sep: char)
    ensures
        join(split(s, sep), sep) == s,
    decreases s.len(),
{
    if s.len() == 0 {
        assert(split(s, sep)[0] == s);
    } else {
        lemma_join_of_split(s.drop_last(), sep);
        lemma_split_fields(s.drop_last(), sep);
        let before = split(s.drop_last(), sep);
        let after = split(s, sep);
        if s.last() == sep {
            assert(after.drop_last() == before);
            assert(join(after, sep) == join(before, sep).push(sep) + after.last());
            assert(s.drop_last().push(sep) + Seq::<char>::empty() == s);
        } else {
            let c = s.last();
            if before.len() == 1 {
                assert(join(before, sep) == before[0]);
                assert(after[0] == before[0].push(c));
                assert(s.drop_last().push(c) == s);
            } else {
                assert(after.drop_last() == before.drop_last());
                assert(after.last() == before.last().push(c));
                assert(join(after, sep) == join(before.drop_last(), sep).push(sep)
                    + before.last().push(c));
                assert(join(before, sep) == join(before.drop_last(), sep).push(sep)
                    + before.last());
                assert(join(before.drop_last(), sep).push(sep) + before.last().push(c) == (join(
                    before.drop_last(),
                    sep,
                ).push(sep) + before.last()).push(c));
                assert(s.drop_last().push(c) == s);
            }
        }
    }
}

/// A text without separators is its own single field.
pub proof fn lemma_split_single(s: Seq<char>, sep: char)
    requires
        !s.contains(sep),
    ensures
        split(s, sep) == seq![s],
    decreases s.len(),
{
    if s.len() == 0 {
        assert(s == Seq::<char>::empty());
    } else {
        let p = s.drop_last();
        assert(s[s.len() - 1] != sep);
        assert forall|k: int| 0 <= k < p.len() implies p[k] != sep by {
            assert(s[k] == p[k]);
        }
        lemma_split_single(p, sep);
        assert(seq![p].drop_last().push(seq![p].last().push(s.last())) == seq![p.push(s.last())]);
        assert(p.push(s.last()) == s);
    }
}

/// The fields of two texts with a separator between them are the fields of
/// the first followed by the fields of the second.
pub proof fn lemma_split_around(a: Seq<char>, b: Seq<char>, sep: char)
    ensures
        split(a.push(sep) + b, sep) == split(a, sep) + split(b, sep),
    decreases b.len(),
{
    let whole = a.push(sep) + b;
    if b.len() == 0 {
        assert(whole == a.push(sep));
        assert(whole.drop_last() == a);
        assert(split(a, sep).push(Seq::<char>::empty()) == split(a, sep) + split(b, sep));
    } else {
        let c = b.last();
        lemma_split_around(a, b.drop_last(), sep);
        lemma_split_fields(b.drop_last(), sep);
        assert(whole.drop_last() == a.push(sep) + b.drop_last());
        assert(whole.last() == c);
        let left = split(a, sep);
        let right = split(b.drop_last(), sep);
        let before = left + right;
        if c == sep {
            assert(before.push(Seq::<char>::empty()) == left + right.push(Seq::<char>::empty()));
        } else {
            assert(before.last() == right.last());
            assert(before.drop_last() == left + right.drop_last());
            assert(before.drop_last().push(before.last().push(c)) == left
                + right.drop_last().push(right.last().push(c)));
        }
    }
}

/// Fields without separators, joined and split again, are the same fields.
pub proof fn lemma_split_of_join(parts: Seq<Seq<char>>, sep: char)
    requires
        parts.len() >= 1,
        forall|i: int| 0 <= i < parts.len() ==> !(#[trigger] parts[i]).contains(sep),
    ensures
        split(join(parts, sep), sep) == parts,
    decreases parts.len(),
{
    if parts.len() == 1 {
        lemma_split_single(parts[0], sep);
        assert(seq![parts[0]] == parts);
    } else {
        let init = parts.drop_last();
        assert forall|i: int| 0 <= i < init.len() implies !(#[trigger] init[i]).contains(sep) by {
            assert(init[i] == parts[i]);
        }
        lemma_split_of_join(init, sep);
        lemma_split_around(join(init, sep), parts.last(), sep);
        lemma_split_single(parts.last(), sep);
        assert(init + seq![parts.last()] == parts);
    }
}

/// Cuts `s` into its fields.
pub fn split_on<'a>(s: &'a str, sep: char) -> (parts: Vec<&'a str>)
    ensures
        parts.deep_view() == split(s@, sep),
{
    let chars = chars_of(s);
    let n = chars.len();
    let mut parts: Vec<&'a str> = Vec::new();
    let mut start: usize = 0;
    let mut i: usize = 0;
    proof {
        assert(s@.take(0).len() == 0);
        assert(s@.subrange(0, 0) == Seq::<char>::empty());
        assert(parts.deep_view() == Seq::<Seq<char>>::empty());
        assert(Seq::<Seq<char>>::empty().push(Seq::<char>::empty()) == seq![Seq::<char>::empty()]);
    }
    while i < n
        invariant
            start <= i <= n,
            n == chars.len(),
            chars@ == s@,
            split(s@.take(i as int), sep) == parts.deep_view().push(
                s@.subrange(start as int, i as int),
            ),
        decreases n - i,
    {
        let ghost done = parts.deep_view();
        let ghost open = s@.subrange(start as int, i as int);
        proof {
            assert(s@.take(i + 1).drop_last() == s@.take(i as int));
            assert(s@.take(i + 1).last() == chars@[i as int]);
            assert(done.push(open).drop_last() == done);
        }
        if chars[i] == sep {
            let part = s.substring_char(start, i);
            parts.push(part);
            start = i + 1;
            proof {
                assert(parts.deep_view() == done.push(open));
                assert(s@.subrange(start as int, i + 1) == Seq::<char>::empty());
            }
        } else {
            proof {
                assert(s@.subrange(start as int, i + 1) == open.push(chars@[i as int]));
            }
        }
        i = i + 1;
    }
    let ghost done = parts.deep_view();
    let last = s.substring_char(start, n);
    parts.push(last);
    proof {
        assert(s@.take(n as int) == s@);
        assert(parts.deep_view() == done.push(s@.subrange(start as int, n as int)));
    }
    parts
}

/// `line` without the carriage return at its end, if it has one.
fn strip_cr<'a>(line: &'a str) -> (stripped: &'a str)
    ensures
        stripped@ == without_cr(line@),
{
    let n = line.unicode_len();
    if n > 0 && line.get_char(n - 1) == '\r' {
        let stripped = line.substring_char(0, n - 1);
        proof {
            assert(line@.subrange(0, n - 1) == line@.drop_last());
        }
        stripped
    } else {
        line
    }
}

/// Cuts a text into its lines.
pub fn lines_of<'a>(text: &'a str) -> (found: Vec<&'a str>)
    ensures
        found.deep_view() == lines(text@),
{
    let parts = split_on(text, '\n');
    proof {
        lemma_split_fields(text@, '\n');
    }
    let closed = parts.len() - 1;
    let mut found: Vec<&'a str> = Vec::new();
    let mut i: usize = 0;
    while i < closed
        invariant
            i <= closed,
            closed == parts.len() - 1,
            parts.deep_view() == split(text@, '\n'),
            found.len() == i,
            forall|k: int| 0 <= k < i ==> (#[trigger] found[k])@ == without_cr(parts[k]@),
        decreases closed - i,
    {
        found.push(strip_cr(parts[i]));
        i = i + 1;
    }
    let last = parts[closed];
    proof {
        assert(parts.deep_view()[closed as int] == last@);
    }
    if last.unicode_len() > 0 {
        found.push(last);
    }
    proof {
        let want = lines(text@);
        assert(found.deep_view().len() == want.len());
        assert forall|k: int| 0 <= k < want.len() implies found.deep_view()[k] == want[k] by {
            assert(parts.deep_view()[k] == parts[k]@);
        }
        assert(found.deep_view() == want);
    }
    found
}

} // verus!
