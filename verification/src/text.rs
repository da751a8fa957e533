//! Character-level text helpers shared by the other modules.

use vstd::prelude::*;

verus! {

/// `String::push` appends one character to the end of the string.
pub assume_specification[ String::push ](s: &mut String, ch: char)
    ensures
        final(s)@ == old(s)@.push(ch),
;

/// The characters of a string, in order.
pub fn to_chars(s: &str) -> (chars: Vec<char>)
    ensures
        chars@ == s@,
{
    let n: usize = s.unicode_len();
    let mut chars: Vec<char> = Vec::new();
    let mut i: usize = 0;
    while i < n
        invariant
            n == s@.len(),
            i <= n,
            chars@ == s@.subrange(0, i as int),
        decreases n - i,
    {
        chars.push(s.get_char(i));
        i = i + 1;
    }
    chars
}

/// The string made of `chars[from..to]`.
pub fn from_chars(chars: &Vec<char>, from: usize, to: usize) -> (s: String)
    requires
        from <= to <= chars@.len(),
    ensures
        s@ == chars@.subrange(from as int, to as int),
{
    let mut s: String = String::new();
    let mut i: usize = from;
    while i < to
        invariant
            from <= i <= to <= chars@.len(),
            s@ == chars@.subrange(from as int, i as int),
        decreases to - i,
    {
        s.push(chars[i]);
        i = i + 1;
    }
    s
}

/// Whether `a` and `b` are the same text.
pub fn same_text(a: &str, b: &str) -> (same: bool)
    ensures
        same == (a@ == b@),
{
    let x = to_chars(a);
    let y = to_chars(b);
    if x.len() != y.len() {
        return false;
    }
    let mut i: usize = 0;
    while i < x.len()
        invariant
            x@ == a@,
            y@ == b@,
            x@.len() == y@.len(),
            i <= x@.len(),
            x@.subrange(0, i as int) == y@.subrange(0, i as int),
        decreases x@.len() - i,
    {
        if x[i] != y[i] {
            return false;
        }
        proof {
            assert(x@.subrange(0, i + 1) == x@.subrange(0, i as int).push(x@[i as int]));
            assert(y@.subrange(0, i + 1) == y@.subrange(0, i as int).push(y@[i as int]));
        }
        i = i + 1;
    }
    proof {
        assert(x@.subrange(0, x@.len() as int) == x@);
        assert(y@.subrange(0, y@.len() as int) == y@);
    }
    true
}

/// Whether `c` is white space: the characters of the Unicode property
/// `White_Space`.
pub open spec fn is_space(c: char) -> bool {
    let u = c as u32;
    ||| 0x09 <= u <= 0x0d
    ||| u == 0x20
    ||| u == 0x85
    ||| u == 0xa0
    ||| u == 0x1680
    ||| 0x2000 <= u <= 0x200a
    ||| u == 0x2028
    ||| u == 0x2029
    ||| u == 0x202f
    ||| u == 0x205f
    ||| u == 0x3000
}

/// `s` without its leading white space.
pub open spec fn trim_start(s: Seq<char>) -> Seq<char>
    decreases s.len(),
{
    if s.len() > 0 && is_space(s[0]) {
        trim_start(s.drop_first())
    } else {
        s
    }
}

/// `s` without its trailing white space.
pub open spec fn trim_end(s: Seq<char>) -> Seq<char>
    decreases s.len(),
{
    if s.len() > 0 && is_space(s.last()) {
        trim_end(s.drop_last())
    } else {
        s
    }
}

/// `s` without its leading and trailing white space.
pub open spec fn trim(s: Seq<char>) -> Seq<char> {
    trim_end(trim_start(s))
}

/// Whether `s` begins with `prefix`.
pub open spec fn starts_with(s: Seq<char>, prefix: Seq<char>) -> bool {
    prefix.len() <= s.len() && s.subrange(0, prefix.len() as int) == prefix
}

/// Whether `s` ends with `suffix`.
pub open spec fn ends_with(s: Seq<char>, suffix: Seq<char>) -> bool {
    suffix.len() <= s.len() && s.subrange(s.len() - suffix.len(), s.len() as int) == suffix
}

/// `s` without any of the repetitions of `suffix` that it ends with.
pub open spec fn trim_end_matches(s: Seq<char>, suffix: Seq<char>) -> Seq<char>
    decreases s.len(),
{
    if suffix.len() > 0 && ends_with(s, suffix) {
        trim_end_matches(s.subrange(0, s.len() - suffix.len()), suffix)
    } else {
        s
    }
}

/// Whether `c` is white space.
pub fn char_is_space(c: char) -> (space: bool)
    ensures
        space == is_space(c),
{
    let u: u32 = c as u32;
    (0x09 <= u && u <= 0x0d) || u == 0x20 || u == 0x85 || u == 0xa0 || u == 0x1680 || (0x2000 <= u
        && u <= 0x200a) || u == 0x2028 || u == 0x2029 || u == 0x202f || u == 0x205f || u == 0x3000
}

/// Dropping a run of white space from the front leaves the trimmed rest.
proof fn lemma_trim_start_window(s: Seq<char>, lo: int, k: int, hi: int)
    requires
        0 <= lo <= k <= hi <= s.len(),
        forall|i: int| lo <= i < k ==> is_space(#[trigger] s[i]),
        k == hi || !is_space(s[k]),
    ensures
        trim_start(s.subrange(lo, hi)) == s.subrange(k, hi),
    decreases k - lo,
{
    let w = s.subrange(lo, hi);
    if lo < k {
        assert(w[0] == s[lo]);
        assert(w.drop_first() == s.subrange(lo + 1, hi));
        lemma_trim_start_window(s, lo + 1, k, hi);
    } else if k < hi {
        assert(w[0] == s[k]);
    }
}

/// Dropping a run of white space from the back leaves the trimmed rest.
proof fn lemma_trim_end_window(s: Seq<char>, lo: int, k: int, hi: int)
    requires
        0 <= lo <= k <= hi <= s.len(),
        forall|i: int| k <= i < hi ==> is_space(#[trigger] s[i]),
        k == lo || !is_space(s[k - 1]),
    ensures
        trim_end(s.subrange(lo, hi)) == s.subrange(lo, k),
    decreases hi - k,
{
    let w = s.subrange(lo, hi);
    if k < hi {
        assert(w.last() == s[hi - 1]);
        assert(w.drop_last() == s.subrange(lo, hi - 1));
        lemma_trim_end_window(s, lo, k, hi - 1);
    } else if lo < k {
        assert(w.last() == s[k - 1]);
    }
}

/// The start of `chars[lo..hi]` once its leading white space is dropped.
pub fn skip_space_forward(chars: &Vec<char>, lo: usize, hi: usize) -> (k: usize)
    requires
        lo <= hi <= chars@.len(),
    ensures
        lo <= k <= hi,
        chars@.subrange(k as int, hi as int) == trim_start(chars@.subrange(lo as int, hi as int)),
{
    let mut k: usize = lo;
    while k < hi && char_is_space(chars[k])
        invariant
            lo <= k <= hi <= chars@.len(),
            forall|i: int| lo <= i < k ==> is_space(#[trigger] chars@[i]),
        decreases hi - k,
    {
        k = k + 1;
    }
    proof {
        lemma_trim_start_window(chars@, lo as int, k as int, hi as int);
    }
    k
}

/// The end of `chars[lo..hi]` once its trailing white space is dropped.
pub fn skip_space_backward(chars: &Vec<char>, lo: usize, hi: usize) -> (k: usize)
    requires
        lo <= hi <= chars@.len(),
    ensures
        lo <= k <= hi,
        chars@.subrange(lo as int, k as int) == trim_end(chars@.subrange(lo as int, hi as int)),
{
    let mut k: usize = hi;
    while k > lo && char_is_space(chars[k - 1])
        invariant
            lo <= k <= hi <= chars@.len(),
            forall|i: int| k <= i < hi ==> is_space(#[trigger] chars@[i]),
        decreases k - lo,
    {
        k = k - 1;
    }
    proof {
        lemma_trim_end_window(chars@, lo as int, k as int, hi as int);
    }
    k
}

/// Whether `chars[lo..hi]` begins with `prefix`.
pub fn window_starts_with(chars: &Vec<char>, lo: usize, hi: usize, prefix: &Vec<char>) -> (yes: bool)
    requires
        lo <= hi <= chars@.len(),
    ensures
        yes == starts_with(chars@.subrange(lo as int, hi as int), prefix@),
{
    let n: usize = prefix.len();
    if n > hi - lo {
        return false;
    }
    let ghost w = chars@.subrange(lo as int, hi as int);
    let mut i: usize = 0;
    while i < n
        invariant
            lo <= hi <= chars@.len(),
            n == prefix@.len(),
            n <= hi - lo,
            i <= n,
            w == chars@.subrange(lo as int, hi as int),
            w.subrange(0, i as int) == prefix@.subrange(0, i as int),
        decreases n - i,
    {
        if chars[lo + i] != prefix[i] {
            proof {
                assert(w.subrange(0, n as int)[i as int] == chars@[lo + i]);
            }
            return false;
        }
        proof {
            assert(w.subrange(0, i + 1) == w.subrange(0, i as int).push(chars@[lo + i]));
            assert(prefix@.subrange(0, i + 1) == prefix@.subrange(0, i as int).push(prefix@[i as int]));
        }
        i = i + 1;
    }
    proof {
        assert(prefix@.subrange(0, n as int) == prefix@);
    }
    true
}

/// Whether `chars[lo..hi]` ends with `suffix`.
pub fn window_ends_with(chars: &Vec<char>, lo: usize, hi: usize, suffix: &Vec<char>) -> (yes: bool)
    requires
        lo <= hi <= chars@.len(),
    ensures
        yes == ends_with(chars@.subrange(lo as int, hi as int), suffix@),
{
    let n: usize = suffix.len();
    if n > hi - lo {
        return false;
    }
    let yes = window_starts_with(chars, hi - n, hi, suffix);
    proof {
        let w = chars@.subrange(lo as int, hi as int);
        assert(w.subrange(w.len() - n, w.len() as int) == chars@.subrange(hi - n, hi as int));
        assert(chars@.subrange(hi - n, hi as int).subrange(0, n as int) == chars@.subrange(
            hi - n,
            hi as int,
        ));
    }
    yes
}

/// The end of `chars[lo..hi]` once every repetition of `suffix` that it ends
/// with is dropped.
pub fn skip_matches_backward(chars: &Vec<char>, lo: usize, hi: usize, suffix: &Vec<char>) -> (k:
    usize)
    requires
        lo <= hi <= chars@.len(),
    ensures
        lo <= k <= hi,
        chars@.subrange(lo as int, k as int) == trim_end_matches(
            chars@.subrange(lo as int, hi as int),
            suffix@,
        ),
{
    let n: usize = suffix.len();
    let mut k: usize = hi;
    if n == 0 {
        return k;
    }
    while window_ends_with(chars, lo, k, suffix)
        invariant
            lo <= k <= hi <= chars@.len(),
            n == suffix@.len(),
            n > 0,
            trim_end_matches(chars@.subrange(lo as int, k as int), suffix@) == trim_end_matches(
                chars@.subrange(lo as int, hi as int),
                suffix@,
            ),
        decreases k - lo,
    {
        proof {
            let w = chars@.subrange(lo as int, k as int);
            assert(w.subrange(0, w.len() - n) == chars@.subrange(lo as int, k - n));
        }
        k = k - n;
    }
    k
}

/// The index of the first `c` in `s`, or the length of `s` where it has none.
pub open spec fn first_index(s: Seq<char>, c: char) -> int
    decreases s.len(),
{
    if s.len() == 0 || s[0] == c {
        0
    } else {
        1 + first_index(s.drop_first(), c)
    }
}

/// The first index lies within `s` or at its end; where it lies within,
/// `c` stands there; and no `c` stands before it.
pub proof fn lemma_first_index(s: Seq<char>, c: char)
    ensures
        0 <= first_index(s, c) <= s.len(),
        first_index(s, c) < s.len() ==> s[first_index(s, c)] == c,
        forall|j: int| 0 <= j < first_index(s, c) ==> #[trigger] s[j] != c,
    decreases s.len(),
{
    if s.len() > 0 && s[0] != c {
        let rest = s.drop_first();
        let k = first_index(rest, c);
        lemma_first_index(rest, c);
        assert(first_index(s, c) == k + 1);
        assert forall|j: int| 0 <= j < k + 1 implies #[trigger] s[j] != c by {
            if j > 0 {
                assert(s[j] == rest[j - 1]);
            }
        }
        if k < rest.len() {
            assert(s[k + 1] == rest[k]);
        }
    }
}

/// The first `c` of a window is where no earlier one is.
pub proof fn lemma_first_index_window(s: Seq<char>, c: char, lo: int, k: int, hi: int)
    requires
        0 <= lo <= k <= hi <= s.len(),
        forall|i: int| lo <= i < k ==> #[trigger] s[i] != c,
        k == hi || s[k] == c,
    ensures
        first_index(s.subrange(lo, hi), c) == k - lo,
    decreases k - lo,
{
    let w = s.subrange(lo, hi);
    if lo < k {
        assert(w[0] == s[lo]);
        assert(w.drop_first() == s.subrange(lo + 1, hi));
        lemma_first_index_window(s, c, lo + 1, k, hi);
    } else if k < hi {
        assert(w[0] == s[k]);
    }
}

/// The index of the first `c` in `chars[lo..hi]`, or `hi`.
pub fn find_char(chars: &Vec<char>, lo: usize, hi: usize, c: char) -> (k: usize)
    requires
        lo <= hi <= chars@.len(),
    ensures
        lo <= k <= hi,
        k - lo == first_index(chars@.subrange(lo as int, hi as int), c),
        k < hi ==> chars@[k as int] == c,
{
    let mut k: usize = lo;
    while k < hi && chars[k] != c
        invariant
            lo <= k <= hi <= chars@.len(),
            forall|i: int| lo <= i < k ==> #[trigger] chars@[i] != c,
        decreases hi - k,
    {
        k = k + 1;
    }
    proof {
        lemma_first_index_window(chars@, c, lo as int, k as int, hi as int);
    }
    k
}

/// Appends `src[from..to]` to `out`.
pub fn append_window(out: &mut Vec<char>, src: &Vec<char>, from: usize, to: usize)
    requires
        from <= to <= src@.len(),
    ensures
        final(out)@ == old(out)@ + src@.subrange(from as int, to as int),
{
    let mut i: usize = from;
    while i < to
        invariant
            from <= i <= to <= src@.len(),
            out@ == old(out)@ + src@.subrange(from as int, i as int),
        decreases to - i,
    {
        out.push(src[i]);
        proof {
            assert(src@.subrange(from as int, i + 1) == src@.subrange(from as int, i as int).push(
                src@[i as int],
            ));
        }
        i = i + 1;
    }
}

} // verus!
