//! What a run says of itself: the words for each outcome and the lines of
//! the progress display.

use vstd::prelude::*;
use vstd::string::StringExecFns;
use crate::decimal::{decimal_digits, push_decimal};
use crate::pipeline::ProcessAction;
use crate::run::ActionCounts;
use crate::text::{from_chars, to_chars};

verus! {

/// The sign that stands for what was cut off.
pub open spec fn ellipsis() -> char {
    '\u{2026}'
}

/// `s` in at most `max` characters: `s` itself where it is short enough,
/// else its first `max - 1` characters and an ellipsis (with `max` zero,
/// the ellipsis alone).
pub open spec fn truncated(s: Seq<char>, max: nat) -> Seq<char> {
    if s.len() <= max {
        s
    } else {
        s.subrange(
            0,
            if max == 0 {
                0
            } else {
                max - 1
            },
        ).push(ellipsis())
    }
}

/// Shortens `s` to at most `max` characters: see [`truncated`].
pub fn truncate(s: &str, max: usize) -> (out: String)
    ensures
        out@ == truncated(s@, max as nat),
{
    let chars = to_chars(s);
    if chars.len() <= max {
        return String::from_str(s);
    }
    let keep: usize = if max == 0 {
        0
    } else {
        max - 1
    };
    let mut out = from_chars(&chars, 0, keep);
    out.push('\u{2026}');
    out
}

/// The words for an outcome.
pub open spec fn label_of(action: ProcessAction) -> Seq<char> {
    match action {
        ProcessAction::SkippedExists => "跳过(已处理)"@,
        ProcessAction::Kept => "保留"@,
        ProcessAction::MarkedRead => "标记已读"@,
        ProcessAction::Labeled => "打标签"@,
        ProcessAction::Deleted => "删除"@,
        ProcessAction::WouldAct => "预演(不改动)"@,
    }
}

/// The words for an outcome.
pub fn action_label(action: ProcessAction) -> (label: String)
    ensures
        label@ == label_of(action),
{
    match action {
        ProcessAction::SkippedExists => String::from_str("跳过(已处理)"),
        ProcessAction::Kept => String::from_str("保留"),
        ProcessAction::MarkedRead => String::from_str("标记已读"),
        ProcessAction::Labeled => String::from_str("打标签"),
        ProcessAction::Deleted => String::from_str("删除"),
        ProcessAction::WouldAct => String::from_str("预演(不改动)"),
    }
}

/// How a finished item is shown in the log of the run.
#[derive(Clone, Copy, Debug, PartialEq, Eq, Structural)]
pub enum Tone {
    /// The item stays in the feed.
    Good,
    /// The item was taken out of sight.
    Bad,
}

/// How an item with outcome `action` is shown: kept items and those marked
/// read or labelled get a line of their own, the others none.
pub open spec fn tone_of(action: ProcessAction) -> Option<Tone> {
    match action {
        ProcessAction::Kept => Some(Tone::Good),
        ProcessAction::MarkedRead => Some(Tone::Bad),
        ProcessAction::Labeled => Some(Tone::Bad),
        _ => None,
    }
}

/// How an item with outcome `action` is shown: see [`tone_of`].
pub fn action_tone(action: ProcessAction) -> (tone: Option<Tone>)
    ensures
        tone == tone_of(action),
{
    match action {
        ProcessAction::Kept => Some(Tone::Good),
        ProcessAction::MarkedRead => Some(Tone::Bad),
        ProcessAction::Labeled => Some(Tone::Bad),
        _ => None,
    }
}

/// The words for the outcome of an item, or for its failure.
pub open spec fn outcome_words(outcome: Option<ProcessAction>) -> Seq<char> {
    match outcome {
        Some(action) => label_of(action),
        None => "出错"@,
    }
}

/// The words for the outcome of an item, or for its failure.
pub fn outcome_label(outcome: Option<ProcessAction>) -> (label: String)
    ensures
        label@ == outcome_words(outcome),
{
    match outcome {
        Some(action) => action_label(action),
        None => String::from_str("出错"),
    }
}

/// The message of the progress bar once an item has ended (`None` for a
/// failure) and `left` are left.
pub open spec fn progress_message_of(outcome: Option<ProcessAction>, left: nat) -> Seq<char> {
    "动作: "@ + outcome_words(outcome) + " | 剩余: "@ + decimal_digits(left)
}

/// The message of the progress bar: see [`progress_message_of`].
pub fn progress_message(outcome: Option<ProcessAction>, left: usize) -> (message: String)
    ensures
        message@ == progress_message_of(outcome, left as nat),
{
    let mut message = String::from_str("动作: ");
    let label = outcome_label(outcome);
    message.append(label.as_str());
    message.append(" | 剩余: ");
    push_decimal(&mut message, left as u64);
    message
}

/// The status line for the item that ended last: the words for its
/// outcome, and its title in at most 60 characters.
pub open spec fn item_status_of(outcome: Option<ProcessAction>, title: Seq<char>) -> Seq<char> {
    outcome_words(outcome) + " · "@ + truncated(title, 60)
}

/// The status line for the item that ended last: see [`item_status_of`].
pub fn item_status(outcome: Option<ProcessAction>, title: &str) -> (status: String)
    ensures
        status@ == item_status_of(outcome, title@),
{
    let mut status = outcome_label(outcome);
    status.append(" · ");
    let short = truncate(title, 60);
    status.append(short.as_str());
    status
}

/// The status of the last run: how many items ended without a failure, of
/// how many.
pub open spec fn status_line_of(reviewed: nat, total: nat) -> Seq<char> {
    "reviewed_items="@ + decimal_digits(reviewed) + "/"@ + decimal_digits(total)
}

/// The status of the last run: see [`status_line_of`].
pub fn status_line(reviewed: u64, total: usize) -> (line: String)
    ensures
        line@ == status_line_of(reviewed as nat, total as nat),
{
    let mut line = String::from_str("reviewed_items=");
    push_decimal(&mut line, reviewed);
    line.append("/");
    push_decimal(&mut line, total as u64);
    line
}

/// The closing line of a run: how many items ended without a failure, of
/// how many, and each count.
pub open spec fn summary_line_of(counts: ActionCounts, reviewed: nat, total: nat) -> Seq<char> {
    "完成 "@ + decimal_digits(reviewed) + "/"@ + decimal_digits(total) + " | 保留="@
        + decimal_digits(counts.kept as nat) + " 已读="@ + decimal_digits(
        counts.marked_read as nat,
    ) + " 已打标="@ + decimal_digits(counts.labeled as nat) + " 已删除="@ + decimal_digits(
        counts.deleted as nat,
    ) + " 已存在="@ + decimal_digits(counts.skipped_exists as nat) + " 预演="@
        + decimal_digits(counts.would_act as nat)
}

/// The closing line of a run: see [`summary_line_of`].
pub fn summary_line(counts: &ActionCounts, total: usize) -> (line: String)
    ensures
        line@ == summary_line_of(*counts, counts.capped_total(), total as nat),
{
    let mut line = String::from_str("完成 ");
    push_decimal(&mut line, counts.reviewed());
    line.append("/");
    push_decimal(&mut line, total as u64);
    line.append(" | 保留=");
    push_decimal(&mut line, counts.kept);
    line.append(" 已读=");
    push_decimal(&mut line, counts.marked_read);
    line.append(" 已打标=");
    push_decimal(&mut line, counts.labeled);
    line.append(" 已删除=");
    push_decimal(&mut line, counts.deleted);
    line.append(" 已存在=");
    push_decimal(&mut line, counts.skipped_exists);
    line.append(" 预演=");
    push_decimal(&mut line, counts.would_act);
    line
}

/// What is shown of the processor between runs.
#[derive(Clone, Debug)]
pub struct ProcessorState {
    /// The status of the last run.
    pub last_run_status: String,
}

impl Default for ProcessorState {
    /// The state before any run: no status.
    fn default() -> (state: ProcessorState)
        ensures
            state.last_run_status@ == Seq::<char>::empty(),
    {
        ProcessorState { last_run_status: String::new() }
    }
}

impl ProcessorState {
    /// The state before any run: no status.
    pub fn new() -> (state: ProcessorState)
        ensures
            state.last_run_status@ == Seq::<char>::empty(),
    {
        ProcessorState { last_run_status: String::new() }
    }

    /// Replaces the status by that of a run in which `reviewed` of `total`
    /// items ended without a failure.
    pub fn record_run(&mut self, reviewed: u64, total: usize)
        ensures
            final(self).last_run_status@ == status_line_of(reviewed as nat, total as nat),
    {
        self.last_run_status = status_line(reviewed, total);
    }
}

} // verus!
