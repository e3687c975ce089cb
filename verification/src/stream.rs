//! Messages delivered on a per-request response stream, and the
//! mathematical model of a stream's history.
//!
//! Every admitted request owns an unbounded channel; the dispatcher
//! pushes `StreamItem` values into it through a `ResponseStream`,
//! which records each pushed value in a ghost history. The spec
//! functions here classify the recorded values and state the shape of
//! a whole stream: a well-formed stream is `Prefill? Token* (End |
//! Error)`.

use vstd::prelude::*;
use vstd::string::StringExecFns;

verus! {

/// One generated token. Log-probabilities are carried as raw `f32`
/// bit patterns (`f32::to_bits`): the scheduler never interprets
/// them, it only routes them.
#[derive(Debug)]
pub struct Token {
    pub id: u32,
    pub text: String,
    pub logprob_bits: u32,
}

/// The prompt's tokens with their log-probabilities, reported once by
/// the backend's prefill step.
#[derive(Debug)]
pub struct PrefillTokens {
    pub ids: Vec<u32>,
    pub logprob_bits: Vec<u32>,
    pub texts: Vec<String>,
}

/// The finished output of one request: full text, token count, the
/// stopping criterion that ended it, and the sampling seed if any.
#[derive(Debug)]
pub struct GeneratedText {
    pub text: String,
    pub generated_tokens: u32,
    pub finish_reason: String,
    pub seed: Option<u64>,
}

/// One value on a per-request stream.
#[derive(Debug)]
pub enum InferStreamResponse {
    /// At most once, first: the prompt tokens.
    Prefill(PrefillTokens),
    /// Zero or more intermediate tokens.
    Token(Token),
    /// Exactly once, terminal: the final token, the whole output, and
    /// the timing marks recorded at queueing and at batch start.
    End { token: Token, generated_text: GeneratedText, start: u64, queued: u64 },
}

/// The scheduler's error kinds.
#[derive(Debug)]
pub enum InferError {
    /// The backend failed while this request's batch was running.
    GenerationError(String),
    /// The admission gate was full; the request never entered the queue.
    Overloaded,
    /// The validator rejected the input.
    ValidationError(String),
    /// The stream closed without an `End` message.
    IncompleteGeneration,
}

/// One value pushed on a per-request stream: a response, or the one
/// error that aborts the request's batch.
pub type StreamItem = Result<InferStreamResponse, InferError>;

impl InferError {
    /// A human-readable description, in place of `Display`.
    pub fn message(&self) -> (r: String)
        ensures
            self matches InferError::GenerationError(m) ==> r@ == m@,
            self matches InferError::ValidationError(m) ==> r@ == m@,
            self is Overloaded ==> r@ == "Model is overloaded"@,
            self is IncompleteGeneration ==> r@ == "Incomplete generation"@,
    {
        match self {
            InferError::GenerationError(m) => m.clone(),
            InferError::Overloaded => String::from_str("Model is overloaded"),
            InferError::ValidationError(m) => m.clone(),
            InferError::IncompleteGeneration => String::from_str("Incomplete generation"),
        }
    }
}

/// The value carries prompt tokens.
pub open spec fn is_prefill_item(m: StreamItem) -> bool {
    m matches Ok(InferStreamResponse::Prefill(_))
}

/// The value carries one intermediate token.
pub open spec fn is_token_item(m: StreamItem) -> bool {
    m matches Ok(InferStreamResponse::Token(_))
}

/// The value is the terminal `End`.
pub open spec fn is_end_item(m: StreamItem) -> bool {
    m matches Ok(InferStreamResponse::End { .. })
}

/// The value is the one error that closes a stream on batch abort.
pub open spec fn is_error_item(m: StreamItem) -> bool {
    m is Err
}

/// A terminal value closes the stream.
pub open spec fn is_terminal(m: StreamItem) -> bool {
    is_end_item(m) || is_error_item(m)
}

/// No value of the history closes the stream.
pub open spec fn no_terminal(s: Seq<StreamItem>) -> bool {
    forall|i: int| 0 <= i < s.len() ==> !is_terminal(#[trigger] s[i])
}

/// The history of a stream that is still live: an optional leading
/// `Prefill`, then only `Token`s.
pub open spec fn open_stream(s: Seq<StreamItem>) -> bool {
    forall|i: int| 0 <= i < s.len()
        ==> (is_token_item(#[trigger] s[i]) || (i == 0 && is_prefill_item(s[i])))
}

/// The history of a stream that ended normally: `Prefill? Token* End`.
pub open spec fn ended_stream(s: Seq<StreamItem>) -> bool {
    s.len() >= 1 && is_end_item(s.last()) && open_stream(s.drop_last())
}

/// The history of a stream closed by a batch abort: non-terminal
/// values, then exactly one error.
pub open spec fn errored_stream(s: Seq<StreamItem>) -> bool {
    s.len() >= 1 && is_error_item(s.last()) && no_terminal(s.drop_last())
}

/// How many terminal values a history holds.
pub closed spec fn terminal_count(s: Seq<StreamItem>) -> nat
    decreases s.len(),
{
    if s.len() == 0 {
        0
    } else {
        terminal_count(s.drop_last()) + if is_terminal(s.last()) {
            1nat
        } else {
            0nat
        }
    }
}

/// A live stream's history never contains a terminal value.
pub proof fn lemma_open_stream_no_terminal(s: Seq<StreamItem>)
    requires
        open_stream(s),
    ensures
        no_terminal(s),
{
}

/// A history without terminal values counts zero of them.
pub proof fn lemma_no_terminal_count(s: Seq<StreamItem>)
    requires
        no_terminal(s),
    ensures
        terminal_count(s) == 0,
    decreases s.len(),
{
    if s.len() > 0 {
        assert(no_terminal(s.drop_last()));
        lemma_no_terminal_count(s.drop_last());
    }
}

/// An open stream stays open under one more token.
pub proof fn lemma_open_push_token(s: Seq<StreamItem>, m: StreamItem)
    requires
        open_stream(s),
        is_token_item(m),
    ensures
        open_stream(s.push(m)),
{
    assert forall|i: int| 0 <= i < s.push(m).len()
        implies (is_token_item(#[trigger] s.push(m)[i])
            || (i == 0 && is_prefill_item(s.push(m)[i]))) by {
        if i < s.len() {
            assert(s.push(m)[i] == s[i]);
        }
    }
}

/// A fresh stream is open after its leading prefill value.
pub proof fn lemma_open_push_prefill(s: Seq<StreamItem>, m: StreamItem)
    requires
        s.len() == 0,
        is_prefill_item(m),
    ensures
        open_stream(s.push(m)),
{
}

/// Law: a stream that was still open gains exactly one terminal
/// value when its `End` or error marker is pushed — each admitted
/// request sees at most one terminal outcome on its stream.
pub proof fn lemma_single_terminal(s: Seq<StreamItem>, m: StreamItem)
    requires
        no_terminal(s),
        is_terminal(m),
    ensures
        terminal_count(s.push(m)) == 1,
{
    assert(s.push(m).drop_last() =~= s);
    lemma_no_terminal_count(s);
}

/// Law: pushing the `End` value onto a well-formed open stream yields
/// the regular sequence `Prefill? Token* End`, with a single terminal.
pub proof fn lemma_regular_end(s: Seq<StreamItem>, m: StreamItem)
    requires
        open_stream(s),
        is_end_item(m),
    ensures
        ended_stream(s.push(m)),
        terminal_count(s.push(m)) == 1,
{
    assert(s.push(m).drop_last() =~= s);
    lemma_open_stream_no_terminal(s);
    lemma_single_terminal(s, m);
}

/// Law: pushing the error value onto a stream with no terminal yet
/// yields a stream closed by exactly one error.
pub proof fn lemma_regular_error(s: Seq<StreamItem>, m: StreamItem)
    requires
        no_terminal(s),
        is_error_item(m),
    ensures
        errored_stream(s.push(m)),
        terminal_count(s.push(m)) == 1,
{
    assert(s.push(m).drop_last() =~= s);
    lemma_single_terminal(s, m);
}

} // verus!
