//! The per-item procedure: look the item up in the review store, classify
//! it, record the verdict, then remediate. The procedure is a state machine
//! that answers each reply of a collaborator with the next call to make.

use vstd::prelude::*;
use vstd::string::StringExecFns;
use crate::confidence::Confidence;
use crate::decimal::{decimal, signed_decimal};
use crate::feed::{item_review_text, item_text, FeverItem};
use crate::verdict::{actionable, ClassifierResponse, VerdictView};

verus! {

/// How the procedure ended for one item.
#[derive(Clone, Copy, Debug, PartialEq, Eq, Structural)]
pub enum ProcessAction {
    /// The store already held a record: nothing was done.
    SkippedExists,
    /// Classified and left alone.
    Kept,
    /// Classified as an advertisement and marked read.
    MarkedRead,
    /// Classified as an advertisement, labelled and marked read.
    Labeled,
    /// Classified as an advertisement and soft-deleted.
    Deleted,
    /// Classified as an advertisement in a dry run: nothing was changed.
    WouldAct,
}

/// What is done to an advertisement.
#[derive(Clone, Copy, Debug, PartialEq, Eq, Structural)]
pub enum RemediationMode {
    MarkRead,
    Label,
    Other,
}

/// Which collaborator failed.
#[derive(Clone, Copy, Debug, PartialEq, Eq, Structural)]
pub enum FailureKind {
    /// The review store, on the lookup or on the write.
    Store,
    /// The classifier.
    Classify,
    /// The feed source or the labeller, after the verdict was recorded.
    Remediation,
}

/// The failure of one item. It ends that item only.
#[derive(Clone, Debug)]
pub struct ItemError {
    pub kind: FailureKind,
    pub message: String,
}

/// An item failure as a mathematical value.
pub struct ItemErrorView {
    pub kind: FailureKind,
    pub message: Seq<char>,
}

impl View for ItemError {
    type V = ItemErrorView;

    open spec fn view(&self) -> ItemErrorView {
        ItemErrorView { kind: self.kind, message: self.message@ }
    }
}

/// The settings that the procedure reads.
#[derive(Clone, Debug)]
pub struct Policy {
    /// Least confidence at which an advertisement is acted upon.
    pub threshold: Confidence,
    /// In a dry run advertisements are found and nothing is changed.
    pub dry_run: bool,
    pub mode: RemediationMode,
    /// Whether a labelling collaborator is at hand.
    pub labeler: bool,
    /// The label put on advertisements.
    pub spam_label: String,
}

/// The settings as a mathematical value.
pub struct PolicyView {
    pub threshold: u32,
    pub dry_run: bool,
    pub mode: RemediationMode,
    pub labeler: bool,
    pub spam_label: Seq<char>,
}

impl View for Policy {
    type V = PolicyView;

    open spec fn view(&self) -> PolicyView {
        PolicyView {
            threshold: self.threshold.bits,
            dry_run: self.dry_run,
            mode: self.mode,
            labeler: self.labeler,
            spam_label: self.spam_label@,
        }
    }
}

/// Where the procedure stands: which reply it waits for.
#[derive(Debug)]
pub enum Stage {
    /// Waiting for the store to say whether the item has a record.
    CheckingStore,
    /// Waiting for the classifier.
    Classifying { fingerprint: String },
    /// Waiting for the store to take the verdict.
    Saving { actionable: bool },
    /// Waiting for the labeller.
    Labelling,
    /// Waiting for the feed source to mark the item read.
    MarkingRead { labeled: bool },
    /// Waiting for the feed source to soft-delete the item.
    Deleting,
    /// Over.
    Finished { outcome: Result<ProcessAction, ItemError> },
}

/// An outcome as a mathematical value.
pub open spec fn outcome_view(outcome: Result<ProcessAction, ItemError>) -> Result<
    ProcessAction,
    ItemErrorView,
> {
    match outcome {
        Ok(action) => Ok(action),
        Err(error) => Err(error@),
    }
}

/// A stage as a mathematical value.
pub enum StageView {
    CheckingStore,
    Classifying { fingerprint: Seq<char> },
    Saving { actionable: bool },
    Labelling,
    MarkingRead { labeled: bool },
    Deleting,
    Finished { outcome: Result<ProcessAction, ItemErrorView> },
}

impl View for Stage {
    type V = StageView;

    open spec fn view(&self) -> StageView {
        match *self {
            Stage::CheckingStore => StageView::CheckingStore,
            Stage::Classifying { fingerprint } => StageView::Classifying {
                fingerprint: fingerprint@,
            },
            Stage::Saving { actionable } => StageView::Saving { actionable },
            Stage::Labelling => StageView::Labelling,
            Stage::MarkingRead { labeled } => StageView::MarkingRead { labeled },
            Stage::Deleting => StageView::Deleting,
            Stage::Finished { outcome } => StageView::Finished { outcome: outcome_view(outcome) },
        }
    }
}

/// The call to make next.
#[derive(Debug)]
pub enum Command {
    /// Ask the store whether `key` has a record.
    CheckReviewed { key: String },
    /// Ask the classifier for a verdict on `text`.
    Classify { text: String },
    /// Write the record of `key` to the store.
    SaveReview { key: String, fingerprint: String, is_ad: bool, confidence: Confidence, reason: String },
    /// Have the labeller put `label` on the item.
    AddLabel { item_id: i64, label: String },
    /// Have the feed source mark the item read.
    MarkRead { item_id: i64 },
    /// Have the feed source soft-delete the item.
    SoftDelete { item_id: i64 },
    /// Nothing: the procedure is over.
    Stop,
}

/// A command as a mathematical value.
pub enum CommandView {
    CheckReviewed { key: Seq<char> },
    Classify { text: Seq<char> },
    SaveReview { key: Seq<char>, fingerprint: Seq<char>, is_ad: bool, confidence: u32, reason: Seq<char> },
    AddLabel { item_id: i64, label: Seq<char> },
    MarkRead { item_id: i64 },
    SoftDelete { item_id: i64 },
    Stop,
}

impl View for Command {
    type V = CommandView;

    open spec fn view(&self) -> CommandView {
        match *self {
            Command::CheckReviewed { key } => CommandView::CheckReviewed { key: key@ },
            Command::Classify { text } => CommandView::Classify { text: text@ },
            Command::SaveReview { key, fingerprint, is_ad, confidence, reason } => {
                CommandView::SaveReview {
                    key: key@,
                    fingerprint: fingerprint@,
                    is_ad,
                    confidence: confidence.bits,
                    reason: reason@,
                }
            },
            Command::AddLabel { item_id, label } => CommandView::AddLabel { item_id, label: label@ },
            Command::MarkRead { item_id } => CommandView::MarkRead { item_id },
            Command::SoftDelete { item_id } => CommandView::SoftDelete { item_id },
            Command::Stop => CommandView::Stop,
        }
    }
}

/// What a collaborator answered.
#[derive(Debug)]
pub enum Reply {
    /// The store: whether the item has a record.
    Reviewed { exists: bool },
    /// The classifier: its verdict.
    Verdict { verdict: ClassifierResponse },
    /// A call without a result went through.
    Done,
    /// The call failed.
    Failed { message: String },
}

/// A reply as a mathematical value.
pub enum ReplyView {
    Reviewed { exists: bool },
    Verdict { verdict: VerdictView },
    Done,
    Failed { message: Seq<char> },
}

impl View for Reply {
    type V = ReplyView;

    open spec fn view(&self) -> ReplyView {
        match *self {
            Reply::Reviewed { exists } => ReplyView::Reviewed { exists },
            Reply::Verdict { verdict } => ReplyView::Verdict { verdict: verdict@ },
            Reply::Done => ReplyView::Done,
            Reply::Failed { message } => ReplyView::Failed { message: message@ },
        }
    }
}

/// The new stage and the call to make.
#[derive(Debug)]
pub struct Step {
    pub stage: Stage,
    pub command: Command,
}

/// A step as a mathematical value.
pub struct StepView {
    pub stage: StageView,
    pub command: CommandView,
}

impl View for Step {
    type V = StepView;

    open spec fn view(&self) -> StepView {
        StepView { stage: self.stage@, command: self.command@ }
    }
}

/// What `md5::compute` gives for the bytes of `text`, written by the
/// `LowerHex` form of the digest.
pub uninterp spec fn md5_hex_of(text: Seq<char>) -> Seq<char>;

/// Calls `md5::compute` on the UTF-8 bytes of `text` and writes the digest
/// with `{:x}`. The contract claims only that the result is a function of
/// the text, named [`md5_hex_of`].
#[verifier::external_body]
fn md5_hex(text: &str) -> (hex: String)
    ensures
        hex@ == md5_hex_of(text@),
{
    format!("{:x}", md5::compute(text))
}

/// The content fingerprint of a review text.
pub fn fingerprint_of(text: &str) -> (hex: String)
    ensures
        hex@ == md5_hex_of(text@),
{
    md5_hex(text)
}

/// What is reported when a reply does not answer the call that was made.
pub open spec fn unexpected_reply() -> Seq<char> {
    seq!['u', 'n', 'e', 'x', 'p', 'e', 'c', 't', 'e', 'd', ' ', 'r', 'e', 'p', 'l', 'y']
}

/// The step that ends the procedure with `outcome`.
pub open spec fn finish(outcome: Result<ProcessAction, ItemErrorView>) -> StepView {
    StepView { stage: StageView::Finished { outcome }, command: CommandView::Stop }
}

/// The step that ends the procedure because the awaited call did not go
/// through: with the message of the failure, or because the reply was not
/// the awaited one.
pub open spec fn fail(kind: FailureKind, reply: ReplyView) -> StepView {
    let message = match reply {
        ReplyView::Failed { message } => message,
        _ => unexpected_reply(),
    };
    finish(Err(ItemErrorView { kind, message }))
}

/// The step once the verdict is recorded. An item that is not actionable is
/// kept. In a dry run an actionable item is only reported. Else the mode
/// decides: mark read; label, then mark read; or soft-delete. Label mode
/// without a labeller falls back to mark read, so that an actionable item
/// is never left as it is.
pub open spec fn decide(policy: PolicyView, item_id: i64, actionable: bool) -> StepView {
    if !actionable {
        finish(Ok(ProcessAction::Kept))
    } else if policy.dry_run {
        finish(Ok(ProcessAction::WouldAct))
    } else {
        match policy.mode {
            RemediationMode::MarkRead => StepView {
                stage: StageView::MarkingRead { labeled: false },
                command: CommandView::MarkRead { item_id },
            },
            RemediationMode::Label => if policy.labeler {
                StepView {
                    stage: StageView::Labelling,
                    command: CommandView::AddLabel { item_id, label: policy.spam_label },
                }
            } else {
                StepView {
                    stage: StageView::MarkingRead { labeled: false },
                    command: CommandView::MarkRead { item_id },
                }
            },
            RemediationMode::Other => StepView {
                stage: StageView::Deleting,
                command: CommandView::SoftDelete { item_id },
            },
        }
    }
}

/// The first step: ask the store about the item.
pub open spec fn begin_spec(item_id: i64) -> StepView {
    StepView {
        stage: StageView::CheckingStore,
        command: CommandView::CheckReviewed { key: decimal(item_id as int) },
    }
}

/// The step that answers `reply` at `stage`, for the item `item_id` whose
/// review text is `text`.
pub open spec fn step_spec(
    policy: PolicyView,
    item_id: i64,
    text: Seq<char>,
    stage: StageView,
    reply: ReplyView,
) -> StepView {
    match stage {
        StageView::CheckingStore => match reply {
            ReplyView::Reviewed { exists } => if exists {
                finish(Ok(ProcessAction::SkippedExists))
            } else {
                StepView {
                    stage: StageView::Classifying { fingerprint: md5_hex_of(text) },
                    command: CommandView::Classify { text },
                }
            },
            _ => fail(FailureKind::Store, reply),
        },
        StageView::Classifying { fingerprint } => match reply {
            ReplyView::Verdict { verdict } => StepView {
                stage: StageView::Saving { actionable: actionable(verdict, policy.threshold) },
                command: CommandView::SaveReview {
                    key: decimal(item_id as int),
                    fingerprint,
                    is_ad: verdict.is_ad,
                    confidence: verdict.confidence,
                    reason: verdict.reason,
                },
            },
            _ => fail(FailureKind::Classify, reply),
        },
        StageView::Saving { actionable } => match reply {
            ReplyView::Done => decide(policy, item_id, actionable),
            _ => fail(FailureKind::Store, reply),
        },
        StageView::Labelling => match reply {
            ReplyView::Done => StepView {
                stage: StageView::MarkingRead { labeled: true },
                command: CommandView::MarkRead { item_id },
            },
            _ => fail(FailureKind::Remediation, reply),
        },
        StageView::MarkingRead { labeled } => match reply {
            ReplyView::Done => finish(
                Ok(
                    if labeled {
                        ProcessAction::Labeled
                    } else {
                        ProcessAction::MarkedRead
                    },
                ),
            ),
            _ => fail(FailureKind::Remediation, reply),
        },
        StageView::Deleting => match reply {
            ReplyView::Done => finish(Ok(ProcessAction::Deleted)),
            _ => fail(FailureKind::Remediation, reply),
        },
        StageView::Finished { outcome } => finish(outcome),
    }
}

/// The step that ends the procedure with `action`.
fn finish_with(action: ProcessAction) -> (step: Step)
    ensures
        step@ == finish(Ok(action)),
{
    Step { stage: Stage::Finished { outcome: Ok(action) }, command: Command::Stop }
}

/// The step that ends the procedure with a failure of `kind`.
fn fail_with(kind: FailureKind, reply: Reply) -> (step: Step)
    ensures
        step@ == fail(kind, reply@),
{
    let message: String = match reply {
        Reply::Failed { message } => message,
        _ => {
            proof {
                reveal_strlit("unexpected reply");
                assert("unexpected reply"@ == unexpected_reply());
            }
            String::from_str("unexpected reply")
        },
    };
    Step {
        stage: Stage::Finished { outcome: Err(ItemError { kind, message }) },
        command: Command::Stop,
    }
}

/// The step once the verdict is recorded: see [`decide`].
pub fn decide_action(policy: &Policy, item_id: i64, actionable: bool) -> (step: Step)
    ensures
        step@ == decide(policy@, item_id, actionable),
{
    if !actionable {
        finish_with(ProcessAction::Kept)
    } else if policy.dry_run {
        finish_with(ProcessAction::WouldAct)
    } else {
        match policy.mode {
            RemediationMode::MarkRead => Step {
                stage: Stage::MarkingRead { labeled: false },
                command: Command::MarkRead { item_id },
            },
            RemediationMode::Label => {
                if policy.labeler {
                    Step {
                        stage: Stage::Labelling,
                        command: Command::AddLabel { item_id, label: policy.spam_label.clone() },
                    }
                } else {
                    Step {
                        stage: Stage::MarkingRead { labeled: false },
                        command: Command::MarkRead { item_id },
                    }
                }
            },
            RemediationMode::Other => Step {
                stage: Stage::Deleting,
                command: Command::SoftDelete { item_id },
            },
        }
    }
}

/// Starts the procedure for `item`: the store is asked first.
pub fn begin(item: &FeverItem) -> (step: Step)
    ensures
        step@ == begin_spec(item.id),
{
    Step {
        stage: Stage::CheckingStore,
        command: Command::CheckReviewed { key: signed_decimal(item.id) },
    }
}

/// Answers `reply` at `stage`: see [`step_spec`].
pub fn step(policy: &Policy, item: &FeverItem, stage: Stage, reply: Reply) -> (next: Step)
    ensures
        next@ == step_spec(policy@, item.id, item_review_text(*item), stage@, reply@),
{
    match stage {
        Stage::CheckingStore => match reply {
            Reply::Reviewed { exists } => {
                if exists {
                    finish_with(ProcessAction::SkippedExists)
                } else {
                    let text = item_text(item);
                    let fingerprint = fingerprint_of(text.as_str());
                    Step { stage: Stage::Classifying { fingerprint }, command: Command::Classify { text } }
                }
            },
            other => fail_with(FailureKind::Store, other),
        },
        Stage::Classifying { fingerprint } => match reply {
            Reply::Verdict { verdict } => {
                let actionable = verdict.is_actionable(&policy.threshold);
                Step {
                    stage: Stage::Saving { actionable },
                    command: Command::SaveReview {
                        key: signed_decimal(item.id),
                        fingerprint,
                        is_ad: verdict.is_ad,
                        confidence: verdict.confidence,
                        reason: verdict.reason,
                    },
                }
            },
            other => fail_with(FailureKind::Classify, other),
        },
        Stage::Saving { actionable } => match reply {
            Reply::Done => decide_action(policy, item.id, actionable),
            other => fail_with(FailureKind::Store, other),
        },
        Stage::Labelling => match reply {
            Reply::Done => Step {
                stage: Stage::MarkingRead { labeled: true },
                command: Command::MarkRead { item_id: item.id },
            },
            other => fail_with(FailureKind::Remediation, other),
        },
        Stage::MarkingRead { labeled } => match reply {
            Reply::Done => finish_with(
                if labeled {
                    ProcessAction::Labeled
                } else {
                    ProcessAction::MarkedRead
                },
            ),
            other => fail_with(FailureKind::Remediation, other),
        },
        Stage::Deleting => match reply {
            Reply::Done => finish_with(ProcessAction::Deleted),
            other => fail_with(FailureKind::Remediation, other),
        },
        Stage::Finished { outcome } => Step {
            stage: Stage::Finished { outcome },
            command: Command::Stop,
        },
    }
}

/// The stage reached from `stage` once `replies` have been answered in turn.
pub open spec fn stage_after(
    policy: PolicyView,
    item_id: i64,
    text: Seq<char>,
    stage: StageView,
    replies: Seq<ReplyView>,
) -> StageView
    decreases replies.len(),
{
    if replies.len() == 0 {
        stage
    } else {
        stage_after(
            policy,
            item_id,
            text,
            step_spec(policy, item_id, text, stage, replies[0]).stage,
            replies.drop_first(),
        )
    }
}

/// The calls made from `stage` while `replies` are answered in turn, one for
/// each reply.
pub open spec fn commands_after(
    policy: PolicyView,
    item_id: i64,
    text: Seq<char>,
    stage: StageView,
    replies: Seq<ReplyView>,
) -> Seq<CommandView>
    decreases replies.len(),
{
    if replies.len() == 0 {
        Seq::empty()
    } else {
        let first = step_spec(policy, item_id, text, stage, replies[0]);
        seq![first.command] + commands_after(
            policy,
            item_id,
            text,
            first.stage,
            replies.drop_first(),
        )
    }
}

/// Whether `command` reaches a collaborator: every command but `Stop`.
pub open spec fn is_call(command: CommandView) -> bool {
    !(command is Stop)
}

/// Whether `command` changes the feed: a label, a mark-read or a
/// soft-delete.
pub open spec fn is_remediation(command: CommandView) -> bool {
    command is AddLabel || command is MarkRead || command is SoftDelete
}

/// Whether `stage` waits for a remediation call.
pub open spec fn awaits_remediation(stage: StageView) -> bool {
    stage is Labelling || stage is MarkingRead || stage is Deleting
}

/// How far the procedure has come at `stage`.
pub open spec fn progress_of(stage: StageView) -> int {
    match stage {
        StageView::CheckingStore => 0,
        StageView::Classifying { .. } => 1,
        StageView::Saving { .. } => 2,
        StageView::Labelling => 3,
        StageView::MarkingRead { .. } => 4,
        StageView::Deleting => 4,
        StageView::Finished { .. } => 5,
    }
}

/// The stage of the procedure at which `command` is made.
pub open spec fn place_of(command: CommandView) -> int {
    match command {
        CommandView::CheckReviewed { .. } => 0,
        CommandView::Classify { .. } => 1,
        CommandView::SaveReview { .. } => 2,
        CommandView::AddLabel { .. } => 3,
        CommandView::MarkRead { .. } => 4,
        CommandView::SoftDelete { .. } => 4,
        CommandView::Stop => 5,
    }
}

/// Every step moves the procedure forward, and the call it makes is the
/// one that the new stage waits for.
pub proof fn lemma_step_moves_forward(
    policy: PolicyView,
    item_id: i64,
    text: Seq<char>,
    stage: StageView,
    reply: ReplyView,
)
    ensures
        ({
            let next = step_spec(policy, item_id, text, stage, reply);
            &&& place_of(next.command) == progress_of(next.stage)
            &&& progress_of(next.stage) >= progress_of(stage)
            &&& !(stage is Finished) ==> progress_of(next.stage) > progress_of(stage)
        }),
{
}

/// The calls of a procedure come in order, each at a later place than the
/// one before, until it is over.
pub proof fn lemma_calls_in_order(
    policy: PolicyView,
    item_id: i64,
    text: Seq<char>,
    stage: StageView,
    replies: Seq<ReplyView>,
    i: int,
    j: int,
)
    requires
        0 <= i < j < replies.len(),
    ensures
        ({
            let commands = commands_after(policy, item_id, text, stage, replies);
            &&& commands.len() == replies.len()
            &&& place_of(commands[i]) <= place_of(commands[j])
            &&& is_call(commands[j]) ==> place_of(commands[i]) < place_of(commands[j])
        }),
    decreases replies.len(),
{
    let first = step_spec(policy, item_id, text, stage, replies[0]);
    let rest = replies.drop_first();
    let commands = commands_after(policy, item_id, text, stage, replies);
    let later = commands_after(policy, item_id, text, first.stage, rest);
    lemma_step_moves_forward(policy, item_id, text, stage, replies[0]);
    lemma_calls_counted(policy, item_id, text, first.stage, rest);
    assert(commands == seq![first.command] + later);
    assert(commands[j] == later[j - 1]);
    if i == 0 {
        assert(commands[0] == first.command);
        lemma_call_is_later(policy, item_id, text, first.stage, rest, j - 1);
    } else {
        assert(commands[i] == later[i - 1]);
        lemma_calls_in_order(policy, item_id, text, first.stage, rest, i - 1, j - 1);
    }
}

/// There is one call for each reply.
proof fn lemma_calls_counted(
    policy: PolicyView,
    item_id: i64,
    text: Seq<char>,
    stage: StageView,
    replies: Seq<ReplyView>,
)
    ensures
        commands_after(policy, item_id, text, stage, replies).len() == replies.len(),
    decreases replies.len(),
{
    if replies.len() > 0 {
        let first = step_spec(policy, item_id, text, stage, replies[0]);
        lemma_calls_counted(policy, item_id, text, first.stage, replies.drop_first());
    }
}

/// A call made from `stage` on stands at a later place than `stage`, and
/// what is made once the procedure is over is no call.
proof fn lemma_call_is_later(
    policy: PolicyView,
    item_id: i64,
    text: Seq<char>,
    stage: StageView,
    replies: Seq<ReplyView>,
    k: int,
)
    requires
        0 <= k < replies.len(),
    ensures
        ({
            let command = commands_after(policy, item_id, text, stage, replies)[k];
            &&& place_of(command) >= progress_of(stage)
            &&& is_call(command) ==> place_of(command) > progress_of(stage)
        }),
    decreases replies.len(),
{
    let first = step_spec(policy, item_id, text, stage, replies[0]);
    let rest = replies.drop_first();
    let commands = commands_after(policy, item_id, text, stage, replies);
    let later = commands_after(policy, item_id, text, first.stage, rest);
    lemma_step_moves_forward(policy, item_id, text, stage, replies[0]);
    assert(commands == seq![first.command] + later);
    if k == 0 {
        assert(commands[0] == first.command);
    } else {
        lemma_calls_counted(policy, item_id, text, first.stage, rest);
        assert(commands[k] == later[k - 1]);
        lemma_call_is_later(policy, item_id, text, first.stage, rest, k - 1);
    }
}

/// At most once. In one procedure no call is made twice: two calls of the
/// same kind, be it the classification, the write to the store or a
/// remediation, are one and the same call.
pub proof fn lemma_each_call_at_most_once(
    policy: PolicyView,
    item_id: i64,
    text: Seq<char>,
    replies: Seq<ReplyView>,
    i: int,
    j: int,
)
    requires
        0 <= i < replies.len(),
        0 <= j < replies.len(),
        is_call(commands_after(policy, item_id, text, StageView::CheckingStore, replies)[i]),
        place_of(commands_after(policy, item_id, text, StageView::CheckingStore, replies)[i])
            == place_of(
            commands_after(policy, item_id, text, StageView::CheckingStore, replies)[j],
        ),
    ensures
        i == j,
{
    if i < j {
        lemma_calls_in_order(policy, item_id, text, StageView::CheckingStore, replies, i, j);
    } else if j < i {
        lemma_calls_in_order(policy, item_id, text, StageView::CheckingStore, replies, j, i);
    }
}

/// An actionable item is acted upon. Outside a dry run the step after the
/// write of its verdict is a remediation call, whatever the mode and
/// whether a labeller is at hand or not: the item is never kept. An item
/// that is not actionable is kept and no call is made.
pub proof fn lemma_actionable_is_acted_upon(policy: PolicyView, item_id: i64)
    ensures
        !policy.dry_run ==> is_remediation(decide(policy, item_id, true).command)
            && awaits_remediation(decide(policy, item_id, true).stage),
        !policy.dry_run && !policy.labeler ==> !(decide(policy, item_id, true).command
            is AddLabel),
        decide(policy, item_id, false) == finish(Ok(ProcessAction::Kept)),
{
}

/// Record before acting. A remediation call is made only after the write
/// of the verdict to the store, and only once the store has acknowledged
/// that write.
pub proof fn lemma_remediation_follows_write(
    policy: PolicyView,
    item_id: i64,
    text: Seq<char>,
    replies: Seq<ReplyView>,
    j: int,
)
    requires
        0 <= j < replies.len(),
        is_remediation(
            commands_after(policy, item_id, text, StageView::CheckingStore, replies)[j],
        ),
    ensures
        j >= 2,
        commands_after(policy, item_id, text, StageView::CheckingStore, replies)[1] is SaveReview,
        replies[2] == ReplyView::Done,
{
    let c = commands_after(policy, item_id, text, StageView::CheckingStore, replies);
    let s1 = step_spec(policy, item_id, text, StageView::CheckingStore, replies[0]);
    let r1 = replies.drop_first();
    let c1 = commands_after(policy, item_id, text, s1.stage, r1);
    assert(c == seq![s1.command] + c1);
    lemma_calls_counted(policy, item_id, text, s1.stage, r1);
    assert(!is_remediation(s1.command));
    assert(c[0] == s1.command);
    assert(j >= 1);
    assert(c[j] == c1[j - 1]);
    if s1.stage is Finished {
        lemma_finished_is_final(policy, item_id, text, s1.stage->outcome, r1);
        assert(!is_call(c1[j - 1]));
    } else {
        let s2 = step_spec(policy, item_id, text, s1.stage, r1[0]);
        let r2 = r1.drop_first();
        let c2 = commands_after(policy, item_id, text, s2.stage, r2);
        assert(c1 == seq![s2.command] + c2);
        lemma_calls_counted(policy, item_id, text, s2.stage, r2);
        assert(!is_remediation(s2.command));
        assert(c1[0] == s2.command);
        assert(j >= 2);
        assert(c1[j - 1] == c2[j - 2]);
        assert(c[1] == c1[0]);
        if s2.stage is Finished {
            lemma_finished_is_final(policy, item_id, text, s2.stage->outcome, r2);
            assert(!is_call(c2[j - 2]));
        } else {
            let s3 = step_spec(policy, item_id, text, s2.stage, r2[0]);
            let r3 = r2.drop_first();
            let c3 = commands_after(policy, item_id, text, s3.stage, r3);
            assert(c2 == seq![s3.command] + c3);
            lemma_calls_counted(policy, item_id, text, s3.stage, r3);
            assert(r2[0] == replies[2]);
            if replies[2] != ReplyView::Done {
                assert(s3.stage is Finished);
                lemma_finished_is_final(policy, item_id, text, s3.stage->outcome, r3);
                if j == 2 {
                    assert(c2[0] == s3.command);
                } else {
                    assert(c2[j - 2] == c3[j - 3]);
                    assert(!is_call(c3[j - 3]));
                }
            }
        }
    }
}

/// Once over, the procedure stays over and makes no call, whatever is
/// replied.
pub proof fn lemma_finished_is_final(
    policy: PolicyView,
    item_id: i64,
    text: Seq<char>,
    outcome: Result<ProcessAction, ItemErrorView>,
    replies: Seq<ReplyView>,
)
    ensures
        stage_after(policy, item_id, text, StageView::Finished { outcome }, replies)
            == (StageView::Finished { outcome }),
        forall|i: int|
            0 <= i < replies.len() ==> !is_call(
                #[trigger] commands_after(
                    policy,
                    item_id,
                    text,
                    StageView::Finished { outcome },
                    replies,
                )[i],
            ),
        commands_after(policy, item_id, text, StageView::Finished { outcome }, replies).len()
            == replies.len(),
    decreases replies.len(),
{
    if replies.len() > 0 {
        lemma_finished_is_final(policy, item_id, text, outcome, replies.drop_first());
    }
}

/// An item that the store already holds is skipped: whatever is replied
/// after the store's answer, the outcome is `SkippedExists` and no call is
/// made, to the classifier, the store, the labeller or the feed source.
pub proof fn lemma_reviewed_item_is_skipped(
    policy: PolicyView,
    item_id: i64,
    text: Seq<char>,
    replies: Seq<ReplyView>,
)
    requires
        replies.len() > 0,
        replies[0] == (ReplyView::Reviewed { exists: true }),
    ensures
        stage_after(policy, item_id, text, StageView::CheckingStore, replies)
            == (StageView::Finished { outcome: Ok(ProcessAction::SkippedExists) }),
        forall|i: int|
            0 <= i < replies.len() ==> !is_call(
                #[trigger] commands_after(policy, item_id, text, StageView::CheckingStore, replies)[i],
            ),
{
    lemma_finished_is_final(
        policy,
        item_id,
        text,
        Ok(ProcessAction::SkippedExists),
        replies.drop_first(),
    );
}

/// In a dry run no stage that waits for a remediation call is reached, and
/// no remediation call is made, from any stage that does not wait for one
/// and whatever is replied.
pub proof fn lemma_dry_run_changes_nothing(
    policy: PolicyView,
    item_id: i64,
    text: Seq<char>,
    stage: StageView,
    replies: Seq<ReplyView>,
)
    requires
        policy.dry_run,
        !awaits_remediation(stage),
    ensures
        !awaits_remediation(stage_after(policy, item_id, text, stage, replies)),
        commands_after(policy, item_id, text, stage, replies).len() == replies.len(),
        forall|i: int|
            0 <= i < replies.len() ==> !is_remediation(
                #[trigger] commands_after(policy, item_id, text, stage, replies)[i],
            ),
    decreases replies.len(),
{
    if replies.len() > 0 {
        let first = step_spec(policy, item_id, text, stage, replies[0]);
        lemma_dry_run_changes_nothing(policy, item_id, text, first.stage, replies.drop_first());
    }
}

/// In a dry run an actionable item that the store does not hold yet is
/// reported as `WouldAct`, and its verdict is still written to the store:
/// the calls are the classification and the write, and nothing else.
pub proof fn lemma_dry_run_records_verdict(
    policy: PolicyView,
    item_id: i64,
    text: Seq<char>,
    verdict: VerdictView,
)
    requires
        policy.dry_run,
        actionable(verdict, policy.threshold),
    ensures
        ({
            let replies = seq![
                ReplyView::Reviewed { exists: false },
                ReplyView::Verdict { verdict },
                ReplyView::Done,
            ];
            &&& stage_after(policy, item_id, text, StageView::CheckingStore, replies)
                == (StageView::Finished { outcome: Ok(ProcessAction::WouldAct) })
            &&& commands_after(policy, item_id, text, StageView::CheckingStore, replies) == seq![
                CommandView::Classify { text },
                CommandView::SaveReview {
                    key: decimal(item_id as int),
                    fingerprint: md5_hex_of(text),
                    is_ad: verdict.is_ad,
                    confidence: verdict.confidence,
                    reason: verdict.reason,
                },
                CommandView::Stop,
            ]
        }),
{
    let r0 = ReplyView::Reviewed { exists: false };
    let r1 = ReplyView::Verdict { verdict };
    let r2 = ReplyView::Done;
    let replies = seq![r0, r1, r2];
    let tail1 = replies.drop_first();
    let tail2 = tail1.drop_first();
    let tail3 = tail2.drop_first();
    assert(tail1[0] == r1);
    assert(tail2[0] == r2);
    assert(tail3.len() == 0);
    let s1 = step_spec(policy, item_id, text, StageView::CheckingStore, r0);
    let s2 = step_spec(policy, item_id, text, s1.stage, r1);
    let s3 = step_spec(policy, item_id, text, s2.stage, r2);
    assert(stage_after(policy, item_id, text, s3.stage, tail3) == s3.stage);
    assert(stage_after(policy, item_id, text, s2.stage, tail2) == s3.stage);
    assert(stage_after(policy, item_id, text, s1.stage, tail1) == s3.stage);
    assert(commands_after(policy, item_id, text, s3.stage, tail3) == Seq::<CommandView>::empty());
    assert(commands_after(policy, item_id, text, s2.stage, tail2) == seq![s3.command]);
    assert(commands_after(policy, item_id, text, s1.stage, tail1) == seq![s2.command, s3.command]);
    assert(commands_after(policy, item_id, text, StageView::CheckingStore, replies) == seq![
        s1.command,
        s2.command,
        s3.command,
    ]);
}

/// A failure of the classifier ends the item with an error of kind
/// `Classify`, and nothing is written to the store: the one call made is
/// the classification.
pub proof fn lemma_classifier_failure_writes_nothing(
    policy: PolicyView,
    item_id: i64,
    text: Seq<char>,
    message: Seq<char>,
)
    ensures
        ({
            let replies = seq![
                ReplyView::Reviewed { exists: false },
                ReplyView::Failed { message },
            ];
            &&& stage_after(policy, item_id, text, StageView::CheckingStore, replies)
                == (StageView::Finished {
                outcome: Err(ItemErrorView { kind: FailureKind::Classify, message }),
            })
            &&& commands_after(policy, item_id, text, StageView::CheckingStore, replies) == seq![
                CommandView::Classify { text },
                CommandView::Stop,
            ]
        }),
{
    let r0 = ReplyView::Reviewed { exists: false };
    let r1 = ReplyView::Failed { message };
    let replies = seq![r0, r1];
    let tail1 = replies.drop_first();
    let tail2 = tail1.drop_first();
    assert(tail1[0] == r1);
    assert(tail2.len() == 0);
    let s1 = step_spec(policy, item_id, text, StageView::CheckingStore, r0);
    let s2 = step_spec(policy, item_id, text, s1.stage, r1);
    assert(stage_after(policy, item_id, text, s2.stage, tail2) == s2.stage);
    assert(stage_after(policy, item_id, text, s1.stage, tail1) == s2.stage);
    assert(commands_after(policy, item_id, text, s2.stage, tail2) == Seq::<CommandView>::empty());
    assert(commands_after(policy, item_id, text, s1.stage, tail1) == seq![s2.command]);
    assert(commands_after(policy, item_id, text, StageView::CheckingStore, replies) == seq![
        s1.command,
        s2.command,
    ]);
}

} // verus!
