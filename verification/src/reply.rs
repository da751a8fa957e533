//! What is made of the classifier's answer: where to ask, which answers are
//! failures, and how the content of an answer becomes one verdict.

use vstd::prelude::*;
use vstd::string::StringExecFns;
use crate::decimal::{decimal_digits, push_decimal};
use crate::feed::opt_view;
use crate::fences::{strip_code_fences, unfenced};
use crate::text::{from_chars, skip_matches_backward, to_chars, trim_end_matches};
use crate::verdict::{choose_verdict, is_choice, verdict_views, ClassifierResponse, VerdictView};

verus! {

/// The address of the completion endpoint under `api_base`: the base
/// without the slashes that it ends with, then `/chat/completions`.
pub open spec fn completions_url_of(api_base: Seq<char>) -> Seq<char> {
    trim_end_matches(api_base, seq!['/']) + "/chat/completions"@
}

/// The address of the completion endpoint: see [`completions_url_of`].
pub fn completions_url(api_base: &str) -> (url: String)
    ensures
        url@ == completions_url_of(api_base@),
{
    let chars = to_chars(api_base);
    let mut slash: Vec<char> = Vec::new();
    slash.push('/');
    proof {
        assert(slash@ == seq!['/']);
        assert(chars@.subrange(0, chars@.len() as int) == chars@);
    }
    let end = skip_matches_backward(&chars, 0, chars.len(), &slash);
    let mut url = from_chars(&chars, 0, end);
    url.append("/chat/completions");
    url
}

/// Whether an HTTP status says success: 200 to 299.
pub open spec fn status_is_success(status: u16) -> bool {
    200 <= status < 300
}

/// Whether an HTTP status says success.
pub fn is_success(status: u16) -> (success: bool)
    ensures
        success == status_is_success(status),
{
    200 <= status && status < 300
}

/// What the classifier's endpoint answered, as far as it is looked at.
#[derive(Debug)]
pub struct CompletionReply {
    /// The HTTP status.
    pub status: u16,
    /// The `error` member of the answer, where it has one.
    pub error: Option<String>,
    /// The whole answer.
    pub body: String,
    /// The text of the first choice's message, where it is a string.
    pub content: Option<String>,
}

/// Why no verdict was had.
#[derive(Debug)]
pub enum ClassifyError {
    /// The endpoint reported an error or did not answer with success.
    Api { status: u16, body: String },
    /// The content of the answer is no verdict and no list of verdicts.
    Unparsable { object_error: String, list_error: String, raw: String },
    /// The content of the answer is a list without a verdict in it.
    EmptyList { raw: String },
}

/// A failure as a mathematical value.
pub enum ClassifyErrorView {
    Api { status: u16, body: Seq<char> },
    Unparsable { object_error: Seq<char>, list_error: Seq<char>, raw: Seq<char> },
    EmptyList { raw: Seq<char> },
}

impl View for ClassifyError {
    type V = ClassifyErrorView;

    open spec fn view(&self) -> ClassifyErrorView {
        match *self {
            ClassifyError::Api { status, body } => ClassifyErrorView::Api { status, body: body@ },
            ClassifyError::Unparsable { object_error, list_error, raw } => {
                ClassifyErrorView::Unparsable {
                    object_error: object_error@,
                    list_error: list_error@,
                    raw: raw@,
                }
            },
            ClassifyError::EmptyList { raw } => ClassifyErrorView::EmptyList { raw: raw@ },
        }
    }
}

/// The failure in words.
pub open spec fn error_message(error: ClassifyErrorView) -> Seq<char> {
    match error {
        ClassifyErrorView::Api { status, body } => "openai_error: status="@ + decimal_digits(
            status as nat,
        ) + " body="@ + body,
        ClassifyErrorView::Unparsable { object_error, list_error, raw } => {
            "parse_classifier_response_failed: "@ + object_error + " (array_parse_error: "@
                + list_error + ") raw="@ + raw
        },
        ClassifyErrorView::EmptyList { raw } => {
            "parse_classifier_response_failed: empty array raw="@ + raw
        },
    }
}

impl ClassifyError {
    /// The failure in words.
    pub fn message(&self) -> (text: String)
        ensures
            text@ == error_message(self@),
    {
        match self {
            ClassifyError::Api { status, body } => {
                let mut text = String::from_str("openai_error: status=");
                push_decimal(&mut text, *status as u64);
                text.append(" body=");
                text.append(body.as_str());
                text
            },
            ClassifyError::Unparsable { object_error, list_error, raw } => {
                let mut text = String::from_str("parse_classifier_response_failed: ");
                text.append(object_error.as_str());
                text.append(" (array_parse_error: ");
                text.append(list_error.as_str());
                text.append(") raw=");
                text.append(raw.as_str());
                text
            },
            ClassifyError::EmptyList { raw } => {
                let mut text = String::from_str(
                    "parse_classifier_response_failed: empty array raw=",
                );
                text.append(raw.as_str());
                text
            },
        }
    }
}

/// The content of an answer that is no failure: as it came, and without
/// its code fence.
#[derive(Debug)]
pub struct Content {
    pub raw: String,
    pub stripped: String,
}

/// The content of an answer as a mathematical value.
pub struct ContentView {
    pub raw: Seq<char>,
    pub stripped: Seq<char>,
}

impl View for Content {
    type V = ContentView;

    open spec fn view(&self) -> ContentView {
        ContentView { raw: self.raw@, stripped: self.stripped@ }
    }
}

/// The content that stands for an answer without one: an empty object.
pub open spec fn empty_object() -> Seq<char> {
    seq!['{', '}']
}

/// What an answer comes to. An answer with an `error` member is a failure
/// with that member, whatever its status; else one whose status is not a
/// success is a failure with the whole answer. Else the content is that of
/// the first choice, or an empty object where there is none.
pub open spec fn content_of(
    status: u16,
    error: Option<Seq<char>>,
    body: Seq<char>,
    content: Option<Seq<char>>,
) -> Result<ContentView, ClassifyErrorView> {
    match error {
        Some(member) => Err(ClassifyErrorView::Api { status, body: member }),
        None => if !status_is_success(status) {
            Err(ClassifyErrorView::Api { status, body })
        } else {
            let raw = match content {
                Some(text) => text,
                None => empty_object(),
            };
            Ok(ContentView { raw, stripped: unfenced(raw) })
        },
    }
}

/// A result as a mathematical value.
pub open spec fn content_result_view(result: Result<Content, ClassifyError>) -> Result<
    ContentView,
    ClassifyErrorView,
> {
    match result {
        Ok(content) => Ok(content@),
        Err(error) => Err(error@),
    }
}

/// Tells a failure from an answer and takes the content out of the answer:
/// see [`content_of`].
pub fn extract_content(reply: CompletionReply) -> (result: Result<Content, ClassifyError>)
    ensures
        content_result_view(result) == content_of(
            reply.status,
            opt_view(reply.error),
            reply.body@,
            opt_view(reply.content),
        ),
{
    match reply.error {
        Some(member) => Err(ClassifyError::Api { status: reply.status, body: member }),
        None => {
            if !is_success(reply.status) {
                Err(ClassifyError::Api { status: reply.status, body: reply.body })
            } else {
                let raw: String = match reply.content {
                    Some(text) => text,
                    None => {
                        proof {
                            reveal_strlit("{}");
                            assert("{}"@ == empty_object());
                        }
                        String::from_str("{}")
                    },
                };
                let stripped = strip_code_fences(raw.as_str());
                Ok(Content { raw, stripped })
            }
        },
    }
}

/// What reading the content as a verdict, and failing that as a list of
/// verdicts, gave.
#[derive(Debug)]
pub enum ParsedVerdicts {
    /// The content is one verdict.
    Single { verdict: ClassifierResponse },
    /// The content is a list of verdicts.
    List { verdicts: Vec<ClassifierResponse> },
    /// The content is neither: why it is no verdict, and why no list.
    Invalid { object_error: String, list_error: String },
}

/// A reading as a mathematical value.
pub enum ParsedVerdictsView {
    Single { verdict: VerdictView },
    List { verdicts: Seq<VerdictView> },
    Invalid { object_error: Seq<char>, list_error: Seq<char> },
}

impl View for ParsedVerdicts {
    type V = ParsedVerdictsView;

    open spec fn view(&self) -> ParsedVerdictsView {
        match *self {
            ParsedVerdicts::Single { verdict } => ParsedVerdictsView::Single { verdict: verdict@ },
            ParsedVerdicts::List { verdicts } => ParsedVerdictsView::List {
                verdicts: verdict_views(verdicts@),
            },
            ParsedVerdicts::Invalid { object_error, list_error } => ParsedVerdictsView::Invalid {
                object_error: object_error@,
                list_error: list_error@,
            },
        }
    }
}

/// Whether `result` is what `parsed` resolves to. One verdict is taken as
/// it is. From a list the chosen entry is taken: the advertisement of
/// greatest confidence, else the entry of greatest confidence. An empty
/// list and a content that is neither are failures that quote the raw
/// content.
pub open spec fn resolves_to(
    parsed: ParsedVerdictsView,
    raw: Seq<char>,
    result: Result<VerdictView, ClassifyErrorView>,
) -> bool {
    match parsed {
        ParsedVerdictsView::Single { verdict } => result == Ok::<VerdictView, ClassifyErrorView>(
            verdict,
        ),
        ParsedVerdictsView::List { verdicts } => if verdicts.len() == 0 {
            result == Err::<VerdictView, ClassifyErrorView>(ClassifyErrorView::EmptyList { raw })
        } else {
            exists|i: int| is_choice(verdicts, i) && result == Ok::<VerdictView, ClassifyErrorView>(
                #[trigger] verdicts[i],
            )
        },
        ParsedVerdictsView::Invalid { object_error, list_error } => result == Err::<
            VerdictView,
            ClassifyErrorView,
        >(ClassifyErrorView::Unparsable { object_error, list_error, raw }),
    }
}

/// A result as a mathematical value.
pub open spec fn verdict_result_view(result: Result<ClassifierResponse, ClassifyError>) -> Result<
    VerdictView,
    ClassifyErrorView,
> {
    match result {
        Ok(verdict) => Ok(verdict@),
        Err(error) => Err(error@),
    }
}

/// Resolves what was read from the content of an answer to one verdict or
/// a failure: see [`resolves_to`].
pub fn parse_classifier_response(parsed: ParsedVerdicts, raw: &str) -> (result: Result<
    ClassifierResponse,
    ClassifyError,
>)
    ensures
        resolves_to(parsed@, raw@, verdict_result_view(result)),
{
    match parsed {
        ParsedVerdicts::Single { verdict } => Ok(verdict),
        ParsedVerdicts::List { verdicts } => {
            match choose_verdict(&verdicts) {
                Some(verdict) => {
                    proof {
                        let views = verdict_views(verdicts@);
                        let i = choose|i: int|
                            is_choice(views, i) && verdict@ == #[trigger] verdicts@[i]@;
                        assert(views[i] == verdicts@[i]@);
                    }
                    Ok(verdict)
                },
                None => Err(ClassifyError::EmptyList { raw: String::from_str(raw) }),
            }
        },
        ParsedVerdicts::Invalid { object_error, list_error } => Err(
            ClassifyError::Unparsable { object_error, list_error, raw: String::from_str(raw) },
        ),
    }
}

} // verus!
