//! Reassembly of a full response from one request's stream — the
//! unary path — and the timing arithmetic reported in its headers.

use vstd::prelude::*;
use crate::stream::{GeneratedText, InferError, InferStreamResponse, PrefillTokens, Token};

verus! {

/// A complete response: prompt tokens, generated tokens, the
/// finished output, and both timing marks.
#[derive(Debug)]
pub struct InferResponse {
    pub prefill: Vec<Token>,
    pub tokens: Vec<Token>,
    pub generated_text: GeneratedText,
    pub queued: u64,
    pub start: u64,
}

/// Folds one request's stream values into an `InferResponse`.
pub struct ResponseBuilder {
    pub prefill: Vec<Token>,
    pub tokens: Vec<Token>,
    pub generated_text: Option<GeneratedText>,
    pub queued: u64,
    pub start: u64,
}

/// Turns reported prompt tokens into `Token` values, pairing each id
/// with its log-probability and text; extra elements of a longer
/// column are dropped, as pairing stops at the shortest.
pub fn zip_prefill(p: PrefillTokens) -> (r: Vec<Token>)
    ensures
        r@.len() == vstd::math::min(
            vstd::math::min(p.ids@.len() as int, p.logprob_bits@.len() as int),
            p.texts@.len() as int,
        ),
        forall|i: int| 0 <= i < r@.len()
            ==> (#[trigger] r@[i]).id == p.ids@[i] && r@[i].logprob_bits == p.logprob_bits@[i]
                && r@[i].text == p.texts@[i],
{
    let PrefillTokens { ids, logprob_bits, texts } = p;
    let mut out: Vec<Token> = Vec::new();
    let mut texts = texts;
    let n = if ids.len() < logprob_bits.len() {
        ids.len()
    } else {
        logprob_bits.len()
    };
    let n = if texts.len() < n {
        texts.len()
    } else {
        n
    };
    let ghost texts0 = texts@;
    let mut i: usize = 0;
    while i < n
        invariant
            i <= n,
            n <= ids@.len(),
            n <= logprob_bits@.len(),
            n <= texts0.len(),
            out@.len() == i,
            texts@ =~= texts0.subrange(i as int, texts0.len() as int),
            forall|k: int| 0 <= k < i
                ==> (#[trigger] out@[k]).id == ids@[k] && out@[k].logprob_bits == logprob_bits@[k]
                    && out@[k].text == texts0[k],
        decreases n - i,
    {
        let text = texts.remove(0);
        proof {
            assert(text == texts0[i as int]);
            assert(texts@ =~= texts0.subrange(i + 1, texts0.len() as int));
        }
        out.push(Token { id: ids[i], text, logprob_bits: logprob_bits[i] });
        i = i + 1;
    }
    out
}

impl ResponseBuilder {
    pub fn new() -> (b: ResponseBuilder)
        ensures
            b.prefill@.len() == 0,
            b.tokens@.len() == 0,
            b.generated_text is None,
    {
        ResponseBuilder {
            prefill: Vec::new(),
            tokens: Vec::new(),
            generated_text: None,
            queued: 0,
            start: 0,
        }
    }

    /// Folds one stream value in: prompt tokens replace the prefill
    /// list, an intermediate token is appended, and the terminal
    /// `End` appends its final token and records the finished output
    /// with both timing marks.
    pub fn absorb(&mut self, msg: InferStreamResponse)
        ensures
            msg matches InferStreamResponse::Prefill(p) ==> *final(self) == (ResponseBuilder {
                prefill: final(self).prefill,
                ..*old(self)
            }) && final(self).prefill@.len() == vstd::math::min(
                vstd::math::min(p.ids@.len() as int, p.logprob_bits@.len() as int),
                p.texts@.len() as int,
            ) && (forall|i: int| 0 <= i < final(self).prefill@.len()
                ==> (#[trigger] final(self).prefill@[i]).id == p.ids@[i]
                    && final(self).prefill@[i].logprob_bits == p.logprob_bits@[i]
                    && final(self).prefill@[i].text == p.texts@[i]),
            msg matches InferStreamResponse::Token(t) ==> *final(self) == (ResponseBuilder {
                tokens: final(self).tokens,
                ..*old(self)
            }) && final(self).tokens@ == old(self).tokens@.push(t),
            msg matches InferStreamResponse::End { token, generated_text, start, queued }
                ==> final(self).tokens@ == old(self).tokens@.push(token)
                    && final(self).generated_text == Some(generated_text)
                    && final(self).start == start
                    && final(self).queued == queued
                    && final(self).prefill == old(self).prefill,
    {
        match msg {
            InferStreamResponse::Prefill(p) => {
                self.prefill = zip_prefill(p);
            },
            InferStreamResponse::Token(t) => {
                self.tokens.push(t);
            },
            InferStreamResponse::End { token, generated_text, start, queued } => {
                self.tokens.push(token);
                self.generated_text = Some(generated_text);
                self.start = start;
                self.queued = queued;
            },
        }
    }

    /// Law: the unary path yields a response exactly when the stream
    /// carried its terminal `End`; a stream that closed without one
    /// yields `IncompleteGeneration`.
    pub fn finish(self) -> (r: Result<InferResponse, InferError>)
        ensures
            r is Ok <==> self.generated_text is Some,
            r matches Ok(resp) ==> {
                &&& resp.prefill == self.prefill
                &&& resp.tokens == self.tokens
                &&& Some(resp.generated_text) == self.generated_text
                &&& resp.queued == self.queued
                &&& resp.start == self.start
            },
            r matches Err(e) ==> e is IncompleteGeneration,
    {
        let ResponseBuilder { prefill, tokens, generated_text, queued, start } = self;
        match generated_text {
            Some(generated_text) => Ok(
                InferResponse { prefill, tokens, generated_text, queued, start },
            ),
            None => Err(InferError::IncompleteGeneration),
        }
    }
}

/// The streaming path's closing decision — the law the unary path
/// proves through `finish`, stated for the event stream: a stream
/// that neither delivered its `End` nor reported an error closes
/// with `IncompleteGeneration`, and only such a stream does.
pub fn incomplete_after(end_reached: bool, errored: bool) -> (r: Option<InferError>)
    ensures
        r is Some <==> !end_reached && !errored,
        r matches Some(e) ==> e is IncompleteGeneration,
{
    if !end_reached && !errored {
        Some(InferError::IncompleteGeneration)
    } else {
        None
    }
}

/// The timing figures reported on a unary response, all in the
/// caller's clock ticks.
pub struct Timings {
    pub total: u64,
    pub validation: u64,
    pub queue_wait: u64,
    pub inference: u64,
    pub time_per_token: u64,
}

/// The unary path's timing arithmetic: the request arrived at
/// `received`, entered the queue at `queued`, joined its first batch
/// at `start`, and finished at `now`, producing `generated_tokens`
/// tokens.
pub fn response_timings(received: u64, queued: u64, start: u64, now: u64, generated_tokens: u32)
    -> (t: Timings)
    requires
        received <= queued <= start <= now,
        generated_tokens >= 1,
    ensures
        t.total == now - received,
        t.validation == queued - received,
        t.queue_wait == start - queued,
        t.inference == now - start,
        t.time_per_token == (now - start) as int / (generated_tokens as int),
{
    Timings {
        total: now - received,
        validation: queued - received,
        queue_wait: start - queued,
        inference: now - start,
        time_per_token: (now - start) / (generated_tokens as u64),
    }
}

} // verus!
