//! The time until the next run, read off a cron expression for the
//! countdown between runs.

use vstd::prelude::*;
use crate::decimal::{parse_decimal, parse_window};
use crate::text::{char_is_space, is_space, to_chars};

verus! {

/// The length of the word that `s` begins with: the characters before its
/// first white space.
pub open spec fn word_len(s: Seq<char>) -> int
    decreases s.len(),
{
    if s.len() == 0 || is_space(s[0]) {
        0
    } else {
        1 + word_len(s.drop_first())
    }
}

/// The words of `s`: its longest runs of characters that are not white
/// space, in order.
pub open spec fn words(s: Seq<char>) -> Seq<Seq<char>>
    decreases s.len(),
{
    if s.len() == 0 {
        Seq::empty()
    } else if is_space(s[0]) {
        words(s.drop_first())
    } else {
        let k = word_len(s);
        if k <= 0 || k > s.len() {
            Seq::empty()
        } else {
            seq![s.subrange(0, k)] + words(s.subrange(k, s.len() as int))
        }
    }
}

/// The number below 2^32 that `s` writes in decimal, with `+` allowed
/// before it and no other sign.
pub open spec fn parse_unsigned(s: Seq<char>) -> Option<u32> {
    if s.len() > 0 && s[0] == '-' {
        None
    } else {
        match parse_decimal(s) {
            Some(value) => if value <= u32::MAX {
                Some(value as u32)
            } else {
                None
            },
            None => None,
        }
    }
}

/// How the minute field of a cron expression is read.
pub enum MinuteRule {
    /// `*/n`: the minutes that `n` divides.
    Every { step: u32 },
    /// `n`: that minute of the hour.
    At { minute: u32 },
    /// Anything else: the next full minute.
    Any,
}

/// The rule that the minute field `field` stands for.
pub open spec fn minute_rule(field: Seq<char>) -> MinuteRule {
    if field.len() >= 2 && field[0] == '*' && field[1] == '/' {
        match parse_unsigned(field.subrange(2, field.len() as int)) {
            Some(step) => MinuteRule::Every { step },
            None => MinuteRule::Any,
        }
    } else {
        match parse_unsigned(field) {
            Some(minute) => MinuteRule::At { minute },
            None => MinuteRule::Any,
        }
    }
}

/// Whether a run is due in minute `minute` of the hour under `rule`.
pub open spec fn minute_matches(rule: MinuteRule, minute: int) -> bool {
    match rule {
        MinuteRule::Every { step } => step > 0 && minute % (step as int) == 0,
        MinuteRule::At { minute: wanted } => minute == wanted,
        MinuteRule::Any => true,
    }
}

/// Whether `wait` is the number of whole minutes from minute `from` of the
/// hour to the first minute in which a run is due.
pub open spec fn is_first_match(rule: MinuteRule, from: int, wait: int) -> bool {
    &&& 0 <= wait < 60
    &&& minute_matches(rule, minute_after(from, wait))
    &&& forall|earlier: int|
        0 <= earlier < wait ==> !minute_matches(rule, #[trigger] minute_after(from, earlier))
}

/// The minute of the hour that comes `wait` minutes after minute `from`.
pub open spec fn minute_after(from: int, wait: int) -> int {
    (from + wait) % 60
}

/// The minute of the hour from which a due minute is looked for: the
/// current one at second 0, else the next.
pub open spec fn start_minute(minute: u32, second: u32) -> int {
    if second == 0 {
        minute as int
    } else {
        (minute + 1) % 60
    }
}

/// Whether a run is due in some minute of the hour under `rule`.
pub open spec fn has_match(rule: MinuteRule) -> bool {
    match rule {
        MinuteRule::Every { step } => step > 0,
        MinuteRule::At { minute } => minute < 60,
        MinuteRule::Any => true,
    }
}

/// Whether `seconds` is the time until the next run under the cron
/// expression `cron`, at second `second` of minute `minute` of the hour.
/// Only an expression of six fields whose seconds field is `0` is read.
/// The time is then that to the next full minute (none at second 0), and
/// from there to the first minute in which a run is due.
pub open spec fn is_next_run(cron: Seq<char>, minute: u32, second: u32, seconds: Option<u64>) -> bool {
    let fields = words(cron);
    if fields.len() == 6 && fields[0] == seq!['0'] && minute < 60 && second < 60 && has_match(
        minute_rule(fields[1]),
    ) {
        exists|wait: int|
            #![trigger is_first_match(minute_rule(fields[1]), start_minute(minute, second), wait)]
            is_first_match(minute_rule(fields[1]), start_minute(minute, second), wait) && seconds
                == Some(((60 - second) % 60 + 60 * wait) as u64)
    } else {
        seconds is None
    }
}

/// The words of a window lie where the white space is not.
proof fn lemma_words_skip(s: Seq<char>, lo: int, k: int, hi: int)
    requires
        0 <= lo <= k <= hi <= s.len(),
        forall|i: int| lo <= i < k ==> is_space(#[trigger] s[i]),
    ensures
        words(s.subrange(lo, hi)) == words(s.subrange(k, hi)),
    decreases k - lo,
{
    if lo < k {
        let w = s.subrange(lo, hi);
        assert(w[0] == s[lo]);
        assert(w.drop_first() == s.subrange(lo + 1, hi));
        lemma_words_skip(s, lo + 1, k, hi);
    }
}

/// The word at the start of a window ends at the first white space.
proof fn lemma_word_len(s: Seq<char>, lo: int, k: int, hi: int)
    requires
        0 <= lo <= k <= hi <= s.len(),
        forall|i: int| lo <= i < k ==> !is_space(#[trigger] s[i]),
        k == hi || is_space(s[k]),
    ensures
        word_len(s.subrange(lo, hi)) == k - lo,
    decreases k - lo,
{
    let w = s.subrange(lo, hi);
    if lo < k {
        assert(w[0] == s[lo]);
        assert(w.drop_first() == s.subrange(lo + 1, hi));
        lemma_word_len(s, lo + 1, k, hi);
    } else if k < hi {
        assert(w[0] == s[k]);
    }
}

/// Where the words of `chars` begin and end.
pub fn word_bounds(chars: &Vec<char>) -> (bounds: Vec<(usize, usize)>)
    ensures
        bounds@.len() == words(chars@).len(),
        forall|i: int|
            0 <= i < bounds@.len() ==> {
                &&& (#[trigger] bounds@[i]).0 <= bounds@[i].1 <= chars@.len()
                &&& chars@.subrange(bounds@[i].0 as int, bounds@[i].1 as int) == words(chars@)[i]
            },
{
    let n: usize = chars.len();
    let mut bounds: Vec<(usize, usize)> = Vec::new();
    let mut pos: usize = 0;
    let ghost mut found: Seq<Seq<char>> = Seq::empty();
    proof {
        assert(chars@.subrange(0, n as int) == chars@);
        assert(found + words(chars@) == words(chars@));
    }
    while pos < n
        invariant
            pos <= n,
            n == chars@.len(),
            words(chars@) == found + words(chars@.subrange(pos as int, n as int)),
            bounds@.len() == found.len(),
            forall|i: int|
                0 <= i < bounds@.len() ==> {
                    &&& (#[trigger] bounds@[i]).0 <= bounds@[i].1 <= chars@.len()
                    &&& chars@.subrange(bounds@[i].0 as int, bounds@[i].1 as int) == found[i]
                },
        decreases n - pos,
    {
        let ghost rest = chars@.subrange(pos as int, n as int);
        if char_is_space(chars[pos]) {
            proof {
                assert(rest[0] == chars@[pos as int]);
                assert(rest.drop_first() == chars@.subrange(pos + 1, n as int));
            }
            pos = pos + 1;
        } else {
            let start: usize = pos;
            let mut end: usize = pos + 1;
            while end < n && !char_is_space(chars[end])
                invariant
                    start < end <= n,
                    n == chars@.len(),
                    forall|i: int| start <= i < end ==> !is_space(#[trigger] chars@[i]),
                decreases n - end,
            {
                end = end + 1;
            }
            proof {
                lemma_word_len(chars@, start as int, end as int, n as int);
                assert(rest[0] == chars@[pos as int]);
                assert(rest.subrange(0, end - start) == chars@.subrange(start as int, end as int));
                assert(rest.subrange(end - start, rest.len() as int) == chars@.subrange(
                    end as int,
                    n as int,
                ));
                let word = chars@.subrange(start as int, end as int);
                let tail = words(chars@.subrange(end as int, n as int));
                assert(words(rest) == seq![word] + tail);
                assert(found + (seq![word] + tail) == found.push(word) + tail);
                found = found.push(word);
            }
            bounds.push((start, end));
            pos = end;
        }
    }
    proof {
        assert(words(chars@.subrange(n as int, n as int)) == Seq::<Seq<char>>::empty());
        assert(found + Seq::<Seq<char>>::empty() == found);
    }
    bounds
}

/// The number below 2^32 that `chars[lo..hi]` writes, if it writes one.
pub fn parse_unsigned_window(chars: &Vec<char>, lo: usize, hi: usize) -> (parsed: Option<u32>)
    requires
        lo <= hi <= chars@.len(),
    ensures
        parsed == parse_unsigned(chars@.subrange(lo as int, hi as int)),
{
    if lo < hi && chars[lo] == '-' {
        assert(chars@.subrange(lo as int, hi as int)[0] == chars@[lo as int]);
        return None;
    }
    proof {
        if lo < hi {
            assert(chars@.subrange(lo as int, hi as int)[0] == chars@[lo as int]);
        }
    }
    match parse_window(chars, lo, hi) {
        Some(value) => {
            if value <= 0xffff_ffff {
                proof {
                    // A number without a minus sign is not negative.
                    assert(value >= 0);
                }
                Some(value as u32)
            } else {
                None
            }
        },
        None => None,
    }
}

/// The rule that the minute field `chars[lo..hi]` stands for.
pub fn read_minute_rule(chars: &Vec<char>, lo: usize, hi: usize) -> (rule: MinuteRule)
    requires
        lo <= hi <= chars@.len(),
    ensures
        rule == minute_rule(chars@.subrange(lo as int, hi as int)),
{
    let ghost field = chars@.subrange(lo as int, hi as int);
    if hi - lo >= 2 && chars[lo] == '*' && chars[lo + 1] == '/' {
        proof {
            assert(field[0] == chars@[lo as int]);
            assert(field[1] == chars@[lo + 1]);
            assert(field.subrange(2, field.len() as int) == chars@.subrange(lo + 2, hi as int));
        }
        match parse_unsigned_window(chars, lo + 2, hi) {
            Some(step) => MinuteRule::Every { step },
            None => MinuteRule::Any,
        }
    } else {
        proof {
            if hi - lo >= 2 {
                assert(field[0] == chars@[lo as int]);
                assert(field[1] == chars@[lo + 1]);
            }
        }
        match parse_unsigned_window(chars, lo, hi) {
            Some(minute) => MinuteRule::At { minute },
            None => MinuteRule::Any,
        }
    }
}

/// Whether a run is due in minute `minute` of the hour under `rule`.
pub fn run_is_due(rule: &MinuteRule, minute: u32) -> (due: bool)
    ensures
        due == minute_matches(*rule, minute as int),
{
    match rule {
        MinuteRule::Every { step } => *step > 0 && minute % *step == 0,
        MinuteRule::At { minute: wanted } => minute == *wanted,
        MinuteRule::Any => true,
    }
}

/// The number of whole minutes from minute `from` of the hour to the first
/// minute in which a run is due, or `None` where none is due in any.
pub fn minutes_until_due(rule: &MinuteRule, from: u32) -> (wait: Option<u32>)
    requires
        from < 60,
    ensures
        match wait {
            Some(w) => is_first_match(*rule, from as int, w as int),
            None => forall|m: int| 0 <= m < 60 ==> !minute_matches(*rule, m),
        },
{
    let mut w: u32 = 0;
    while w < 60
        invariant
            w <= 60,
            from < 60,
            forall|earlier: int|
                0 <= earlier < w ==> !minute_matches(
                    *rule,
                    #[trigger] minute_after(from as int, earlier),
                ),
        decreases 60 - w,
    {
        let minute: u32 = (from + w) % 60;
        if run_is_due(rule, minute) {
            return Some(w);
        }
        w = w + 1;
    }
    proof {
        assert forall|m: int| 0 <= m < 60 implies !minute_matches(*rule, m) by {
            let earlier = if m >= from {
                m - from
            } else {
                m + 60 - from
            };
            assert(minute_after(from as int, earlier) == m);
        }
    }
    None
}

/// The time in seconds until the next run under `cron`, at second `second`
/// of minute `minute` of the hour: see [`is_next_run`].
pub fn next_run_in(cron: &str, minute: u32, second: u32) -> (seconds: Option<u64>)
    ensures
        is_next_run(cron@, minute, second, seconds),
{
    let chars = to_chars(cron);
    let bounds = word_bounds(&chars);
    let ghost fields = words(cron@);
    if bounds.len() != 6 || minute >= 60 || second >= 60 {
        return None;
    }
    let (a, b) = bounds[0];
    let (c, d) = bounds[1];
    assert(chars@.subrange(a as int, b as int) == fields[0]);
    assert(chars@.subrange(c as int, d as int) == fields[1]);
    if !(b - a == 1 && chars[a] == '0') {
        proof {
            if fields[0] == seq!['0'] {
                assert(fields[0].len() == 1);
                assert(fields[0][0] == chars@[a as int]);
            }
        }
        return None;
    }
    proof {
        assert(fields[0].len() == 1);
        assert(fields[0][0] == chars@[a as int]);
        assert(fields[0] == seq!['0']);
    }
    let rule = read_minute_rule(&chars, c, d);
    let to_full_minute: u32 = (60 - second) % 60;
    let from: u32 = if second == 0 {
        minute
    } else {
        (minute + 1) % 60
    };
    match minutes_until_due(&rule, from) {
        Some(wait) => {
            let seconds: u64 = (to_full_minute as u64) + 60 * (wait as u64);
            proof {
                lemma_match_exists(rule, from as int, wait as int);
                assert(fields.len() == 6);
                assert(from == start_minute(minute, second));
                assert(is_first_match(
                    minute_rule(fields[1]),
                    start_minute(minute, second),
                    wait as int,
                ));
                assert(seconds == ((60 - second) % 60 + 60 * (wait as int)) as u64);
            }
            Some(seconds)
        },
        None => {
            proof {
                lemma_no_match(rule);
                assert(!has_match(minute_rule(fields[1])));
            }
            None
        },
    }
}

/// A rule under which a run is due in some minute has a match.
proof fn lemma_match_exists(rule: MinuteRule, from: int, wait: int)
    requires
        0 <= from < 60,
        is_first_match(rule, from, wait),
    ensures
        has_match(rule),
{
    let m = minute_after(from, wait);
    assert(minute_matches(rule, m));
    assert(0 <= m < 60);
}

/// A rule under which no run is due in any minute has no match.
proof fn lemma_no_match(rule: MinuteRule)
    requires
        forall|m: int| 0 <= m < 60 ==> !minute_matches(rule, m),
    ensures
        !has_match(rule),
{
    match rule {
        MinuteRule::Every { step } => {
            if step > 0 {
                assert(0int % (step as int) == 0);
                assert(minute_matches(rule, 0));
            }
        },
        MinuteRule::At { minute } => {
            if minute < 60 {
                assert(minute_matches(rule, minute as int));
            }
        },
        MinuteRule::Any => {
            assert(minute_matches(rule, 0));
        },
    }
}

} // verus!
