use freshrss_filter::coordinator::{Firing, RunGate};
use freshrss_filter::pipeline::{FailureKind, ItemError, ProcessAction};
use freshrss_filter::report::{
    action_label, action_tone, item_status, outcome_label, progress_message, status_line,
    summary_line, ProcessorState, Tone,
};
use freshrss_filter::run::{tally, ActionCounts, RunState, CONCURRENCY};

fn failed(message: &str) -> Result<ProcessAction, ItemError> {
    Err(ItemError { kind: FailureKind::Classify, message: message.to_string() })
}

#[test]
fn gate_runs_the_first_firing() {
    let mut gate = RunGate::new();
    assert!(!gate.running);
    assert_eq!(gate.fire(), Firing::Run);
    assert!(gate.running);
}

#[test]
fn gate_drops_a_firing_during_a_run() {
    let mut gate = RunGate::new();
    assert_eq!(gate.fire(), Firing::Run);
    assert_eq!(gate.fire(), Firing::Skip);
    assert_eq!(gate.fire(), Firing::Skip);
    assert!(gate.running);
}

#[test]
fn gate_is_free_again_after_release() {
    let mut gate = RunGate::new();
    assert_eq!(gate.fire(), Firing::Run);
    gate.release();
    assert!(!gate.running);
    assert_eq!(gate.fire(), Firing::Run);
    gate.release();
    gate.release();
    assert!(!gate.running);
}

#[test]
fn gate_never_lets_two_runs_overlap() {
    // Firings every tick, runs that last three ticks.
    let mut gate = RunGate::new();
    let mut in_progress: u32 = 0;
    let mut remaining: u32 = 0;
    let mut runs = 0;
    let mut skips = 0;
    let mut releases = 0;
    for _tick in 0..30 {
        match gate.fire() {
            Firing::Run => {
                in_progress += 1;
                remaining = 3;
                runs += 1;
            }
            Firing::Skip => skips += 1,
        }
        assert!(in_progress <= 1);
        if in_progress == 1 {
            remaining -= 1;
            if remaining == 0 {
                in_progress -= 1;
                gate.release();
                releases += 1;
            }
        }
    }
    assert_eq!(runs, 10);
    assert_eq!(skips, 20);
    assert_eq!(releases, 10);
    assert!(!gate.running);
}

#[test]
fn tally_counts_each_outcome() {
    let results = vec![
        Ok(ProcessAction::Kept),
        Ok(ProcessAction::SkippedExists),
        failed("a"),
        Ok(ProcessAction::Kept),
        Ok(ProcessAction::MarkedRead),
        Ok(ProcessAction::Labeled),
        Ok(ProcessAction::Deleted),
        Ok(ProcessAction::WouldAct),
        Ok(ProcessAction::WouldAct),
        failed("b"),
        Ok(ProcessAction::Kept),
    ];
    let counts = tally(&results);
    assert_eq!(
        counts,
        ActionCounts {
            skipped_exists: 1,
            kept: 3,
            marked_read: 1,
            labeled: 1,
            deleted: 1,
            would_act: 2,
        }
    );
    assert_eq!(counts.reviewed(), 9);
    assert_eq!(counts.get(ProcessAction::Kept), 3);
    assert_eq!(counts.get(ProcessAction::WouldAct), 2);
}

#[test]
fn tally_of_nothing_is_zero() {
    let counts = tally(&Vec::new());
    assert_eq!(counts, ActionCounts::new());
    assert_eq!(counts.reviewed(), 0);
}

#[test]
fn tally_does_not_depend_on_the_order() {
    let forward = vec![Ok(ProcessAction::Kept), failed("x"), Ok(ProcessAction::Deleted)];
    let backward = vec![Ok(ProcessAction::Deleted), failed("x"), Ok(ProcessAction::Kept)];
    assert_eq!(tally(&forward), tally(&backward));
}

#[test]
fn tally_is_unchanged_by_a_failure() {
    let without = vec![Ok(ProcessAction::MarkedRead), Ok(ProcessAction::Kept)];
    let with = vec![Ok(ProcessAction::MarkedRead), failed("x"), Ok(ProcessAction::Kept)];
    assert_eq!(tally(&without), tally(&with));
}

#[test]
fn reviewed_saturates() {
    let counts = ActionCounts {
        skipped_exists: u64::MAX,
        kept: 1,
        marked_read: 0,
        labeled: 0,
        deleted: 0,
        would_act: u64::MAX,
    };
    assert_eq!(counts.reviewed(), u64::MAX);
}

#[test]
fn record_counts_one_more() {
    let mut counts = ActionCounts::new();
    counts.record(ProcessAction::Labeled);
    counts.record(ProcessAction::Labeled);
    counts.record(ProcessAction::SkippedExists);
    assert_eq!(counts.labeled, 2);
    assert_eq!(counts.skipped_exists, 1);
    assert_eq!(counts.reviewed(), 3);
}

#[test]
fn concurrency_is_five() {
    assert_eq!(CONCURRENCY, 5);
}

#[test]
fn run_starts_items_in_order_up_to_the_limit() {
    let mut run = RunState::new(17, 5);
    for expected in 0..5 {
        assert_eq!(run.next_start(), Some(expected));
    }
    assert_eq!(run.next_start(), None);
    assert_eq!(run.under_way(), 5);
    assert_eq!(run.complete(), 16);
    assert_eq!(run.next_start(), Some(5));
    assert_eq!(run.next_start(), None);
}

#[test]
fn run_of_seventeen_never_has_more_than_five_under_way() {
    let mut run = RunState::new(17, CONCURRENCY);
    let mut under_way: Vec<usize> = Vec::new();
    let mut started: Vec<usize> = Vec::new();
    let mut most = 0;
    let mut arrived: Vec<Result<ProcessAction, ItemError>> = Vec::new();
    let mut seed: u64 = 12345;
    while !run.is_done() {
        while let Some(index) = run.next_start() {
            under_way.push(index);
            started.push(index);
        }
        assert!(under_way.len() <= 5);
        assert_eq!(under_way.len(), run.under_way());
        most = most.max(under_way.len());
        // Any of the items under way may be the next to end.
        seed = seed.wrapping_mul(6364136223846793005).wrapping_add(1442695040888963407);
        let pick = (seed >> 33) as usize % under_way.len();
        let ended = under_way.swap_remove(pick);
        arrived.push(if ended % 4 == 0 { failed("x") } else { Ok(ProcessAction::Kept) });
        let left = run.complete();
        assert_eq!(left, 17 - arrived.len());
    }
    assert_eq!(most, 5);
    assert_eq!(started, (0..17).collect::<Vec<usize>>());
    assert_eq!(run.finished, 17);
    assert_eq!(run.next_start(), None);
    let counts = tally(&arrived);
    assert_eq!(counts.kept, 12);
    assert_eq!(counts.reviewed(), 12);
}

#[test]
fn empty_run_is_done_at_once() {
    let mut run = RunState::new(0, 5);
    assert!(run.is_done());
    assert_eq!(run.next_start(), None);
}

#[test]
fn run_with_fewer_items_than_places() {
    let mut run = RunState::new(2, 5);
    assert_eq!(run.next_start(), Some(0));
    assert_eq!(run.next_start(), Some(1));
    assert_eq!(run.next_start(), None);
    assert_eq!(run.complete(), 1);
    assert!(!run.is_done());
    assert_eq!(run.complete(), 0);
    assert!(run.is_done());
    assert_eq!(run.under_way(), 0);
}

#[test]
fn labels_of_outcomes() {
    assert_eq!(action_label(ProcessAction::SkippedExists), "跳过(已处理)");
    assert_eq!(action_label(ProcessAction::Kept), "保留");
    assert_eq!(action_label(ProcessAction::MarkedRead), "标记已读");
    assert_eq!(action_label(ProcessAction::Labeled), "打标签");
    assert_eq!(action_label(ProcessAction::Deleted), "删除");
    assert_eq!(action_label(ProcessAction::WouldAct), "预演(不改动)");
    assert_eq!(outcome_label(None), "出错");
    assert_eq!(outcome_label(Some(ProcessAction::Kept)), "保留");
}

#[test]
fn tones_of_outcomes() {
    assert_eq!(action_tone(ProcessAction::Kept), Some(Tone::Good));
    assert_eq!(action_tone(ProcessAction::MarkedRead), Some(Tone::Bad));
    assert_eq!(action_tone(ProcessAction::Labeled), Some(Tone::Bad));
    assert_eq!(action_tone(ProcessAction::SkippedExists), None);
    assert_eq!(action_tone(ProcessAction::Deleted), None);
    assert_eq!(action_tone(ProcessAction::WouldAct), None);
}

#[test]
fn progress_messages() {
    assert_eq!(progress_message(Some(ProcessAction::Kept), 12), "动作: 保留 | 剩余: 12");
    assert_eq!(progress_message(None, 0), "动作: 出错 | 剩余: 0");
}

#[test]
fn item_status_shortens_the_title() {
    assert_eq!(item_status(Some(ProcessAction::Deleted), "short"), "删除 · short");
    let long: String = "x".repeat(61);
    let expected = format!("出错 · {}\u{2026}", "x".repeat(59));
    assert_eq!(item_status(None, &long), expected);
    let exact: String = "y".repeat(60);
    assert_eq!(item_status(None, &exact), format!("出错 · {}", exact));
}

#[test]
fn status_lines() {
    assert_eq!(status_line(0, 0), "reviewed_items=0/0");
    assert_eq!(status_line(16, 17), "reviewed_items=16/17");
}

#[test]
fn summary_lines() {
    let counts = ActionCounts {
        skipped_exists: 5,
        kept: 1,
        marked_read: 2,
        labeled: 3,
        deleted: 4,
        would_act: 6,
    };
    assert_eq!(
        summary_line(&counts, 23),
        "完成 21/23 | 保留=1 已读=2 已打标=3 已删除=4 已存在=5 预演=6"
    );
}

#[test]
fn processor_state_holds_the_last_status() {
    let mut state = ProcessorState::new();
    assert_eq!(state.last_run_status, "");
    state.record_run(3, 4);
    assert_eq!(state.last_run_status, "reviewed_items=3/4");
    state.record_run(0, 0);
    assert_eq!(state.last_run_status, "reviewed_items=0/0");
}
