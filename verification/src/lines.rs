//! Splitting the downloaded list into lines: a line ends at a line feed, a
//! carriage return at the very end of a line is dropped, and a final line
//! feed opens no further empty line.

use vstd::prelude::*;

verus! {

/// The number of bytes before the first line feed, or the whole length when
/// none occurs.
pub open spec fn line_break(s: Seq<u8>) -> nat
    decreases s.len(),
{
    if s.len() == 0 {
        0
    } else if s[0] == 0x0A {
        0
    } else {
        1 + line_break(s.drop_first())
    }
}

/// A line without its trailing carriage return, if it has one.
pub open spec fn strip_cr(l: Seq<u8>) -> Seq<u8> {
    if l.len() > 0 && l.last() == 0x0D {
        l.drop_last()
    } else {
        l
    }
}

/// The lines of a text, their line feeds dropped.
pub open spec fn spec_lines(s: Seq<u8>) -> Seq<Seq<u8>>
    decreases s.len(),
{
    if s.len() == 0 {
        Seq::empty()
    } else {
        let i = line_break(s) as int;
        if i < s.len() {
            seq![strip_cr(s.take(i))] + spec_lines(s.skip(i + 1))
        } else {
            seq![strip_cr(s)]
        }
    }
}

/// `line_break` finds the first line feed: nothing before it is one, and it
/// is one unless the text has none at all.
proof fn lemma_line_break(s: Seq<u8>)
    ensures
        line_break(s) <= s.len(),
        forall|j: int| 0 <= j < line_break(s) ==> (#[trigger] s[j]) != 0x0A,
        line_break(s) < s.len() ==> s[line_break(s) as int] == 0x0A,
    decreases s.len(),
{
    if s.len() == 0 || s[0] == 0x0A {
    } else {
        lemma_line_break(s.drop_first());
        assert forall|j: int| 0 <= j < line_break(s) implies (#[trigger] s[j]) != 0x0A by {
            if j > 0 {
                assert(s.drop_first()[j - 1] == s[j]);
            }
        }
        if line_break(s) < s.len() {
            assert(s.drop_first()[line_break(s) - 1] == s[line_break(s) as int]);
        }
    }
}

/// A position with no line feed before it, itself a line feed or the text's
/// end, is where `line_break` points.
proof fn lemma_line_break_unique(s: Seq<u8>, k: int)
    requires
        0 <= k <= s.len(),
        forall|j: int| 0 <= j < k ==> (#[trigger] s[j]) != 0x0A,
        k < s.len() ==> s[k] == 0x0A,
    ensures
        line_break(s) == k,
{
    lemma_line_break(s);
}

/// Peeling the first line off the text: the segment up to the first line
/// feed (or the end) is the first line, the rest follows after the feed.
proof fn lemma_spec_lines_step(s: Seq<u8>, i: int, end: int)
    requires
        0 <= i < s.len(),
        i <= end <= s.len(),
        forall|j: int| i <= j < end ==> (#[trigger] s[j]) != 0x0A,
        end < s.len() ==> s[end] == 0x0A,
    ensures
        end < s.len() ==> spec_lines(s.skip(i)) == seq![strip_cr(s.subrange(i, end))]
            + spec_lines(s.skip(end + 1)),
        end == s.len() ==> spec_lines(s.skip(i)) == seq![strip_cr(s.subrange(i, end))],
{
    let u = s.skip(i);
    assert forall|j: int| 0 <= j < end - i implies (#[trigger] u[j]) != 0x0A by {
        assert(u[j] == s[i + j]);
    }
    if end < s.len() {
        assert(u[end - i] == s[end]);
    }
    lemma_line_break_unique(u, end - i);
    assert(u.take(end - i) =~= s.subrange(i, end));
    if end < s.len() {
        assert(u.skip(end - i + 1) =~= s.skip(end + 1));
    } else {
        assert(u =~= s.subrange(i, end));
    }
}

/// The deep view of a byte vector is its view.
pub proof fn lemma_vec_u8_deep_view(v: Vec<u8>)
    ensures
        v.deep_view() == v@,
{
    assert(v.deep_view() =~= v@);
}

/// Finds the first line feed at or after `from`, or the text's end.
fn find_newline(body: &Vec<u8>, from: usize) -> (end: usize)
    requires
        from <= body@.len(),
    ensures
        from <= end <= body@.len(),
        forall|j: int| from <= j < end ==> (#[trigger] body@[j]) != 0x0A,
        end < body@.len() ==> body@[end as int] == 0x0A,
{
    let n = body.len();
    let mut end: usize = from;
    loop
        invariant
            from <= end <= n,
            n == body@.len(),
            forall|j: int| from <= j < end ==> (#[trigger] body@[j]) != 0x0A,
        ensures
            from <= end <= n,
            forall|j: int| from <= j < end ==> (#[trigger] body@[j]) != 0x0A,
            end == n || body@[end as int] == 0x0A,
        decreases n - end,
    {
        if end == n {
            break;
        }
        if body[end] == 0x0A {
            break;
        }
        end = end + 1;
    }
    end
}

/// Copies the line `body[from..to]`, dropping a trailing carriage return.
fn copy_line(body: &Vec<u8>, from: usize, to: usize) -> (line: Vec<u8>)
    requires
        from <= to <= body@.len(),
    ensures
        line@ == strip_cr(body@.subrange(from as int, to as int)),
{
    let stop: usize = if to > from && body[to - 1] == 0x0D {
        to - 1
    } else {
        to
    };
    let mut line: Vec<u8> = Vec::new();
    let mut j: usize = from;
    while j < stop
        invariant
            from <= j <= stop <= body@.len(),
            line@ == body@.subrange(from as int, j as int),
        decreases stop - j,
    {
        line.push(body[j]);
        assert(line@ =~= body@.subrange(from as int, j + 1));
        j = j + 1;
    }
    proof {
        let whole = body@.subrange(from as int, to as int);
        if to > from && body@[to - 1] == 0x0D {
            assert(whole.last() == body@[to - 1]);
            assert(whole.drop_last() =~= body@.subrange(from as int, to - 1));
        }
    }
    line
}

/// Splits a text into its lines.
pub fn split_lines(body: &Vec<u8>) -> (ls: Vec<Vec<u8>>)
    ensures
        ls.deep_view() == spec_lines(body@),
{
    let n = body.len();
    let mut ls: Vec<Vec<u8>> = Vec::new();
    let mut i: usize = 0;
    assert(body@.skip(0) =~= body@);
    while i < n
        invariant
            i <= n,
            n == body@.len(),
            spec_lines(body@) == ls.deep_view() + spec_lines(body@.skip(i as int)),
        decreases n - i,
    {
        let end = find_newline(body, i);
        let line = copy_line(body, i, end);
        let ghost lat = line@;
        let ghost prev = ls.deep_view();
        proof {
            lemma_vec_u8_deep_view(line);
        }
        ls.push(line);
        proof {
            assert(ls.deep_view() =~= prev.push(lat));
            lemma_spec_lines_step(body@, i as int, end as int);
            if end < n {
                assert(prev + (seq![lat] + spec_lines(body@.skip(end + 1))) =~= prev.push(lat)
                    + spec_lines(body@.skip(end + 1)));
            } else {
                assert(body@.skip(n as int) =~= Seq::<u8>::empty());
                assert(prev + seq![lat] =~= prev.push(lat));
                assert(prev.push(lat) + spec_lines(body@.skip(n as int)) =~= prev.push(lat));
            }
        }
        i = if end == n {
            n
        } else {
            end + 1
        };
    }
    proof {
        assert(body@.skip(n as int) =~= Seq::<u8>::empty());
        assert(ls.deep_view() + spec_lines(body@.skip(n as int)) =~= ls.deep_view());
    }
    ls
}

} // verus!
