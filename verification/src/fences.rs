//! Removal of the code fence that a classifier may put around its answer.

use vstd::prelude::*;
use crate::text::{
    append_window, ends_with, find_char, first_index, from_chars, skip_matches_backward,
    skip_space_backward, skip_space_forward, starts_with, to_chars, trim, trim_end,
    trim_end_matches, window_ends_with, window_starts_with,
};

verus! {

/// The three backquotes that open and close a fenced block.
pub open spec fn fence() -> Seq<char> {
    seq!['`', '`', '`']
}

/// The index of the first line feed of `s`, or its length where it has none.
pub open spec fn first_break(s: Seq<char>) -> int {
    first_index(s, '\n')
}

/// The lines of `s`, joined again by a single line feed each. A line ends at
/// a line feed; a carriage return just before that line feed belongs to the
/// line ending. A line feed at the very end of `s` starts no further line.
pub open spec fn rejoin_lines(s: Seq<char>) -> Seq<char>
    decreases s.len(),
{
    let k = first_break(s);
    if k < 0 || k >= s.len() {
        s
    } else {
        let line = if k > 0 && s[k - 1] == '\r' {
            s.subrange(0, k - 1)
        } else {
            s.subrange(0, k)
        };
        let tail = s.subrange(k + 1, s.len() as int);
        if tail.len() == 0 {
            line
        } else {
            line + seq!['\n'] + rejoin_lines(tail)
        }
    }
}

/// The rejoined lines of `t` after its first line.
pub open spec fn after_first_line(t: Seq<char>) -> Seq<char> {
    let k = first_break(t);
    if k >= t.len() {
        Seq::empty()
    } else {
        rejoin_lines(t.subrange(k + 1, t.len() as int))
    }
}

/// The answer inside a fenced block. `s` is trimmed; where it does not then
/// begin with a fence, that is the result. Otherwise its first line goes,
/// and from the trimmed rest every closing fence at the end, with the white
/// space before it.
pub open spec fn unfenced(s: Seq<char>) -> Seq<char> {
    let t = trim(s);
    if starts_with(t, fence()) {
        let body = trim_end(after_first_line(t));
        if ends_with(body, fence()) {
            trim(trim_end_matches(body, fence()))
        } else {
            body
        }
    } else {
        t
    }
}

/// The lines of `chars[lo..hi]`, joined again by a single line feed each.
fn rejoin_window(chars: &Vec<char>, lo: usize, hi: usize) -> (out: Vec<char>)
    requires
        lo <= hi <= chars@.len(),
    ensures
        out@ == rejoin_lines(chars@.subrange(lo as int, hi as int)),
{
    let mut out: Vec<char> = Vec::new();
    let mut pos: usize = lo;
    proof {
        assert(Seq::<char>::empty() + rejoin_lines(chars@.subrange(lo as int, hi as int))
            == rejoin_lines(chars@.subrange(lo as int, hi as int)));
    }
    while pos < hi
        invariant
            lo <= pos <= hi <= chars@.len(),
            rejoin_lines(chars@.subrange(lo as int, hi as int)) == out@ + rejoin_lines(
                chars@.subrange(pos as int, hi as int),
            ),
        decreases hi - pos,
    {
        let ghost w = chars@.subrange(pos as int, hi as int);
        let ghost before = out@;
        let k = find_char(chars, pos, hi, '\n');
        if k == hi {
            append_window(&mut out, chars, pos, hi);
            proof {
                assert(rejoin_lines(w) == w);
                assert(rejoin_lines(chars@.subrange(hi as int, hi as int)) == Seq::<char>::empty());
                assert(out@ + Seq::<char>::empty() == out@);
            }
            pos = hi;
        } else {
            let line_end: usize = if k > pos && chars[k - 1] == '\r' {
                k - 1
            } else {
                k
            };
            append_window(&mut out, chars, pos, line_end);
            let ghost tail = w.subrange(k - pos + 1, w.len() as int);
            proof {
                assert(tail == chars@.subrange(k + 1, hi as int));
                assert(k > pos ==> w[k - pos - 1] == chars@[k - 1]);
                assert(w.subrange(0, line_end - pos) == chars@.subrange(
                    pos as int,
                    line_end as int,
                ));
            }
            if k + 1 < hi {
                out.push('\n');
                proof {
                    let line = chars@.subrange(pos as int, line_end as int);
                    assert(rejoin_lines(w) == line + seq!['\n'] + rejoin_lines(tail));
                    assert(out@ == before + line + seq!['\n']);
                    assert(before + (line + seq!['\n'] + rejoin_lines(tail)) == (before + line
                        + seq!['\n']) + rejoin_lines(tail));
                }
            } else {
                proof {
                    let line = chars@.subrange(pos as int, line_end as int);
                    assert(tail.len() == 0);
                    assert(rejoin_lines(w) == line);
                    assert(rejoin_lines(tail) == Seq::<char>::empty());
                    assert(out@ + Seq::<char>::empty() == out@);
                }
            }
            pos = k + 1;
        }
    }
    proof {
        assert(rejoin_lines(chars@.subrange(hi as int, hi as int)) == Seq::<char>::empty());
        assert(out@ + Seq::<char>::empty() == out@);
    }
    out
}

/// The three backquotes of a fence.
fn fence_chars() -> (f: Vec<char>)
    ensures
        f@ == fence(),
{
    let mut f: Vec<char> = Vec::new();
    f.push('`');
    f.push('`');
    f.push('`');
    assert(f@ == fence());
    f
}

/// Takes the answer out of a fenced block: see [`unfenced`].
pub fn strip_code_fences(s: &str) -> (out: String)
    ensures
        out@ == unfenced(s@),
{
    let chars = to_chars(s);
    let n: usize = chars.len();
    let f = fence_chars();
    let lo = skip_space_forward(&chars, 0, n);
    let hi = skip_space_backward(&chars, lo, n);
    proof {
        assert(chars@.subrange(0, n as int) == chars@);
    }
    let ghost t = chars@.subrange(lo as int, hi as int);
    assert(t == trim(s@));
    if !window_starts_with(&chars, lo, hi, &f) {
        return from_chars(&chars, lo, hi);
    }
    let k = find_char(&chars, lo, hi, '\n');
    let rest: Vec<char> = if k == hi {
        Vec::new()
    } else {
        proof {
            assert(t.subrange(k - lo + 1, t.len() as int) == chars@.subrange(k + 1, hi as int));
        }
        rejoin_window(&chars, k + 1, hi)
    };
    assert(rest@ == after_first_line(t));
    let m: usize = rest.len();
    let body_end = skip_space_backward(&rest, 0, m);
    proof {
        assert(rest@.subrange(0, m as int) == rest@);
    }
    let ghost body = rest@.subrange(0, body_end as int);
    if !window_ends_with(&rest, 0, body_end, &f) {
        return from_chars(&rest, 0, body_end);
    }
    let cut = skip_matches_backward(&rest, 0, body_end, &f);
    let a = skip_space_forward(&rest, 0, cut);
    let b = skip_space_backward(&rest, a, cut);
    from_chars(&rest, a, b)
}

} // verus!
