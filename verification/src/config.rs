//! The settings, their defaults, and what the pipeline reads of them.

use vstd::prelude::*;
use vstd::string::StringExecFns;
use crate::confidence::{Confidence, HALF_BITS};
use crate::pipeline::{Policy, PolicyView, RemediationMode};
use crate::text::same_text;

verus! {

/// The settings of the classifier.
#[derive(Clone, Debug)]
pub struct OpenAiConfig {
    pub api_key: String,
    pub api_base: String,
    pub model: String,
    /// The sampling temperature, as the bit pattern of a single-precision
    /// number.
    pub temperature: Option<u32>,
    pub max_tokens: Option<u32>,
    pub system_prompt: String,
    /// Least confidence at which an advertisement is acted upon.
    pub threshold: Confidence,
}

/// The settings of the feed source.
#[derive(Clone, Debug)]
pub struct FreshRssConfig {
    pub base_url: String,
    /// The key of the feed API.
    pub fever_api_key: String,
    pub user_agent: String,
    /// What is done to an advertisement: `mark_read`, `label`, or anything
    /// else for a soft delete.
    pub delete_mode: String,
    /// The credentials of the labeller, where there is one.
    pub greader_username: Option<String>,
    pub greader_password: Option<String>,
    /// The label put on advertisements.
    pub spam_label: String,
}

/// The settings of the schedule.
#[derive(Clone, Debug)]
pub struct SchedulerConfig {
    /// The cron expression of the runs, with seconds.
    pub cron: String,
}

/// The settings of the review store.
#[derive(Clone, Debug)]
pub struct DatabaseConfig {
    pub path: String,
}

/// All settings.
#[derive(Clone, Debug)]
pub struct Config {
    pub openai: OpenAiConfig,
    pub freshrss: FreshRssConfig,
    pub scheduler: SchedulerConfig,
    pub database: DatabaseConfig,
    pub dry_run: bool,
}

pub open spec fn default_api_base_text() -> Seq<char> {
    "https://api.openai.com/v1"@
}

pub open spec fn default_model_text() -> Seq<char> {
    "gpt-4o-mini"@
}

pub open spec fn default_system_prompt_text() -> Seq<char> {
    "You are a strict classifier. Decide if an RSS item is an advertisement or sponsored content. Reply JSON: {\"is_ad\": boolean, \"confidence\": 0..1, \"reason\": string}."@
}

pub open spec fn default_user_agent_text() -> Seq<char> {
    "freshrss-filter/0.1"@
}

pub open spec fn default_delete_mode_text() -> Seq<char> {
    "mark_read"@
}

pub open spec fn default_spam_label_text() -> Seq<char> {
    "Ads"@
}

pub open spec fn default_cron_text() -> Seq<char> {
    "0 */10 * * * *"@
}

pub open spec fn default_db_path_text() -> Seq<char> {
    "freshrss-filter.db"@
}

/// The base address of the classifier where none is set.
pub fn default_api_base() -> (text: String)
    ensures
        text@ == default_api_base_text(),
{
    String::from_str("https://api.openai.com/v1")
}

/// The model where none is set.
pub fn default_model() -> (text: String)
    ensures
        text@ == default_model_text(),
{
    String::from_str("gpt-4o-mini")
}

/// The instruction given to the classifier where none is set.
pub fn default_system_prompt() -> (text: String)
    ensures
        text@ == default_system_prompt_text(),
{
    String::from_str(
        "You are a strict classifier. Decide if an RSS item is an advertisement or sponsored content. Reply JSON: {\"is_ad\": boolean, \"confidence\": 0..1, \"reason\": string}.",
    )
}

/// The threshold where none is set: one half.
pub fn default_threshold() -> (threshold: Confidence)
    ensures
        threshold.bits == HALF_BITS,
{
    Confidence::from_bits(HALF_BITS)
}

/// The user agent where none is set.
pub fn default_user_agent() -> (text: String)
    ensures
        text@ == default_user_agent_text(),
{
    String::from_str("freshrss-filter/0.1")
}

/// The remediation mode where none is set.
pub fn default_delete_mode() -> (text: String)
    ensures
        text@ == default_delete_mode_text(),
{
    String::from_str("mark_read")
}

/// The label where none is set.
pub fn default_spam_label() -> (text: String)
    ensures
        text@ == default_spam_label_text(),
{
    String::from_str("Ads")
}

/// The schedule where none is set: every ten minutes.
pub fn default_cron() -> (text: String)
    ensures
        text@ == default_cron_text(),
{
    String::from_str("0 */10 * * * *")
}

/// The path of the review store where none is set.
pub fn default_db_path() -> (text: String)
    ensures
        text@ == default_db_path_text(),
{
    String::from_str("freshrss-filter.db")
}

/// `value`, or `fallback` where `value` is empty.
pub open spec fn or_default(value: Seq<char>, fallback: Seq<char>) -> Seq<char> {
    if value.len() == 0 {
        fallback
    } else {
        value
    }
}

/// The remediation mode that `name` stands for.
pub open spec fn mode_of(name: Seq<char>) -> RemediationMode {
    if name == "mark_read"@ {
        RemediationMode::MarkRead
    } else if name == "label"@ {
        RemediationMode::Label
    } else {
        RemediationMode::Other
    }
}

/// The remediation mode that `name` stands for: `mark_read`, `label`, and
/// any other name for a soft delete.
pub fn remediation_mode(name: &str) -> (mode: RemediationMode)
    ensures
        mode == mode_of(name@),
{
    if same_text(name, "mark_read") {
        RemediationMode::MarkRead
    } else if same_text(name, "label") {
        RemediationMode::Label
    } else {
        RemediationMode::Other
    }
}

impl OpenAiConfig {
    /// The settings with the defaults in place of an empty base address and
    /// an empty model.
    pub fn fill_defaults(self) -> (filled: OpenAiConfig)
        ensures
            filled.api_base@ == or_default(self.api_base@, default_api_base_text()),
            filled.model@ == or_default(self.model@, default_model_text()),
            filled == (OpenAiConfig { api_base: filled.api_base, model: filled.model, ..self }),
    {
        let mut filled = self;
        if filled.api_base.as_str().is_empty() {
            filled.api_base = default_api_base();
        }
        if filled.model.as_str().is_empty() {
            filled.model = default_model();
        }
        filled
    }
}

impl FreshRssConfig {
    /// The settings with the default in place of an empty user agent.
    pub fn fill_defaults(self) -> (filled: FreshRssConfig)
        ensures
            filled.user_agent@ == or_default(self.user_agent@, default_user_agent_text()),
            filled == (FreshRssConfig { user_agent: filled.user_agent, ..self }),
    {
        let mut filled = self;
        if filled.user_agent.as_str().is_empty() {
            filled.user_agent = default_user_agent();
        }
        filled
    }

    /// Whether the credentials of a labeller are set.
    pub fn has_labeler(&self) -> (has: bool)
        ensures
            has == (self.greader_username is Some && self.greader_password is Some),
    {
        self.greader_username.is_some() && self.greader_password.is_some()
    }
}

impl SchedulerConfig {
    /// The settings with the default in place of an empty schedule.
    pub fn fill_defaults(self) -> (filled: SchedulerConfig)
        ensures
            filled.cron@ == or_default(self.cron@, default_cron_text()),
    {
        if self.cron.as_str().is_empty() {
            SchedulerConfig { cron: default_cron() }
        } else {
            self
        }
    }
}

impl DatabaseConfig {
    /// The settings with the default in place of an empty path.
    pub fn fill_defaults(self) -> (filled: DatabaseConfig)
        ensures
            filled.path@ == or_default(self.path@, default_db_path_text()),
    {
        if self.path.as_str().is_empty() {
            DatabaseConfig { path: default_db_path() }
        } else {
            self
        }
    }
}

impl Config {
    /// The settings with the defaults in place of the empty base address,
    /// model, user agent, schedule and store path; nothing else changes.
    pub fn fill_defaults(self) -> (filled: Config)
        ensures
            filled.openai.api_base@ == or_default(self.openai.api_base@, default_api_base_text()),
            filled.openai.model@ == or_default(self.openai.model@, default_model_text()),
            filled.openai == (OpenAiConfig {
                api_base: filled.openai.api_base,
                model: filled.openai.model,
                ..self.openai
            }),
            filled.freshrss.user_agent@ == or_default(
                self.freshrss.user_agent@,
                default_user_agent_text(),
            ),
            filled.freshrss == (FreshRssConfig {
                user_agent: filled.freshrss.user_agent,
                ..self.freshrss
            }),
            filled.scheduler.cron@ == or_default(self.scheduler.cron@, default_cron_text()),
            filled.database.path@ == or_default(self.database.path@, default_db_path_text()),
            filled.dry_run == self.dry_run,
    {
        Config {
            openai: self.openai.fill_defaults(),
            freshrss: self.freshrss.fill_defaults(),
            scheduler: self.scheduler.fill_defaults(),
            database: self.database.fill_defaults(),
            dry_run: self.dry_run,
        }
    }

    /// The settings with the dry run switched on where `dry_run` asks for
    /// it; it is never switched off.
    pub fn with_overrides(self, dry_run: bool) -> (out: Config)
        ensures
            out == (Config { dry_run: self.dry_run || dry_run, ..self }),
    {
        let mut out = self;
        if dry_run {
            out.dry_run = true;
        }
        out
    }

    /// What the pipeline reads of the settings, with `labeler` saying
    /// whether a labelling collaborator is at hand.
    pub fn policy(&self, labeler: bool) -> (policy: Policy)
        ensures
            policy@ == (PolicyView {
                threshold: self.openai.threshold.bits,
                dry_run: self.dry_run,
                mode: mode_of(self.freshrss.delete_mode@),
                labeler,
                spam_label: self.freshrss.spam_label@,
            }),
    {
        Policy {
            threshold: self.openai.threshold,
            dry_run: self.dry_run,
            mode: remediation_mode(self.freshrss.delete_mode.as_str()),
            labeler,
            spam_label: self.freshrss.spam_label.clone(),
        }
    }
}

} // verus!
