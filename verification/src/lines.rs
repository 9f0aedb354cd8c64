//! Splitting query-file text into one query per line.
//!
//! A line ends at a newline; a carriage return directly before the
//! newline is not part of the line.  Text after the last newline forms a
//! final line only if it is non-empty, so text ending in a newline yields
//! no extra empty line.

use vstd::prelude::*;
use vstd::string::StrSliceExecFns;

verus! {

/// A line with one carriage return before its line ending removed.
pub open spec fn strip_cr(l: Seq<char>) -> Seq<char> {
    if l.len() > 0 && l.last() == '\r' {
        l.drop_last()
    } else {
        l
    }
}

/// One step of line splitting: a newline finishes the line being built,
/// any other character extends it.
pub open spec fn split_step(done: Seq<Seq<char>>, cur: Seq<char>, c: char) -> (Seq<Seq<char>>, Seq<
    char,
>) {
    if c == '\n' {
        (done.push(strip_cr(cur)), Seq::empty())
    } else {
        (done, cur.push(c))
    }
}

/// The finished lines, and the line still being built, after reading `s`.
pub open spec fn split_state(s: Seq<char>) -> (Seq<Seq<char>>, Seq<char>)
    decreases s.len(),
{
    if s.len() == 0 {
        (Seq::empty(), Seq::empty())
    } else {
        let prev = split_state(s.drop_last());
        split_step(prev.0, prev.1, s.last())
    }
}

/// The lines of `s`: the finished lines, plus the unfinished last line if
/// it is non-empty.
pub open spec fn lines_of(s: Seq<char>) -> Seq<Seq<char>> {
    let st = split_state(s);
    if st.1.len() == 0 {
        st.0
    } else {
        st.0.push(st.1)
    }
}

/// Splits the text of a query file into lines, one query per line.
pub fn split_lines(text: &str) -> (r: Vec<String>)
    ensures
        r.deep_view() == lines_of(text@),
{
    let len = text.unicode_len();
    let mut rows: Vec<String> = Vec::new();
    let mut line_start: usize = 0;
    let mut i: usize = 0;
    while i < len
        invariant
            0 <= line_start <= i <= len,
            len == text@.len(),
            split_state(text@.take(i as int)) == (
                rows.deep_view(),
                text@.subrange(line_start as int, i as int),
            ),
        decreases len - i,
    {
        let c = text.get_char(i);
        proof {
            assert(text@.take(i + 1).drop_last() =~= text@.take(i as int));
            assert(text@.take(i + 1).last() == text@[i as int]);
        }
        if c == '\n' {
            let end = if i > line_start && text.get_char(i - 1) == '\r' {
                i - 1
            } else {
                i
            };
            let line = text.substring_char(line_start, end);
            rows.push(line.to_owned());
            proof {
                let cur = text@.subrange(line_start as int, i as int);
                if i > line_start && text@[i - 1] == '\r' {
                    assert(cur.last() == text@[i - 1]);
                    assert(strip_cr(cur) =~= text@.subrange(line_start as int, end as int));
                } else {
                    assert(strip_cr(cur) =~= text@.subrange(line_start as int, end as int));
                }
                assert(rows.deep_view() =~~= split_state(text@.take(i + 1)).0);
                assert(text@.subrange(i + 1, i + 1) =~= Seq::<char>::empty());
            }
            line_start = i + 1;
        } else {
            proof {
                assert(text@.subrange(line_start as int, i + 1) =~= text@.subrange(
                    line_start as int,
                    i as int,
                ).push(text@[i as int]));
            }
        }
        i = i + 1;
    }
    proof {
        assert(text@.take(len as int) =~= text@);
    }
    if line_start < len {
        let line = text.substring_char(line_start, len);
        rows.push(line.to_owned());
        proof {
            assert(rows.deep_view() =~~= lines_of(text@));
        }
    } else {
        proof {
            assert(text@.subrange(line_start as int, len as int).len() == 0);
            assert(rows.deep_view() =~~= lines_of(text@));
        }
    }
    rows
}

} // verus!
