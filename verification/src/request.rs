//! Validated request payloads and the batch descriptors exchanged
//! with the inference backend.
//!
//! Validation itself is an external collaborator: the scheduler only
//! receives its output, already tokenized and bounded. Sampling
//! probabilities are carried as raw `f32` bit patterns
//! (`f32::to_bits`); the scheduler routes them untouched.

use vstd::prelude::*;
use crate::stream::{GeneratedText, PrefillTokens};

verus! {

/// Validated generation parameters: next-token sampling and stopping
/// criteria, as the validator produced them.
#[derive(Debug)]
pub struct ValidParameters {
    pub temperature_bits: u32,
    pub top_k: u32,
    pub top_p_bits: u32,
    pub do_sample: bool,
    pub seed: Option<u64>,
    pub max_new_tokens: u32,
    pub stop_sequences: Vec<String>,
}

/// A validated request: the input text, its token count, and the
/// parameters the backend will generate under.
#[derive(Debug)]
pub struct ValidRequest {
    pub inputs: String,
    pub input_length: u32,
    pub parameters: ValidParameters,
}

/// One member of a batch descriptor: a queue id with its validated
/// request.
#[derive(Debug)]
pub struct Request {
    pub id: u64,
    pub request: ValidRequest,
}

/// A batch descriptor handed to the backend. For batches this
/// scheduler assembles, `size` equals `requests.len()`; descriptors
/// returned by the backend describe the subset still generating and
/// may carry no request payloads.
#[derive(Debug)]
pub struct Batch {
    pub id: u64,
    pub requests: Vec<Request>,
    pub size: usize,
}

/// One per-request result from a backend `prefill` or `decode` call:
/// optional prompt tokens, the next token, and the finished output
/// once the request's stopping criterion is met.
#[derive(Debug)]
pub struct Generation {
    pub request_id: u64,
    pub prefill_tokens: Option<PrefillTokens>,
    pub token_id: u32,
    pub token_text: String,
    pub token_logprob_bits: u32,
    pub generated_text: Option<GeneratedText>,
}

} // verus!
