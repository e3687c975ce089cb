//! One admitted request, before and during batching.
//!
//! An `Entry` waits in the queue with its validated payload. When the
//! dispatcher selects it into a batch the payload moves into the batch
//! descriptor and the entry becomes a `LiveEntry`: the stream, the
//! timing marks, and — through the stream — the ghost history of
//! every value pushed toward the client. The send methods here are
//! verified: each states exactly which value it pushes.

use vstd::prelude::*;
use crate::channel::ResponseStream;
use crate::request::{Request, ValidRequest};
use crate::stream::{
    ended_stream, errored_stream, lemma_regular_end, lemma_regular_error, no_terminal, open_stream,
    terminal_count, GeneratedText, InferError, InferStreamResponse, PrefillTokens, StreamItem,
    Token,
};

verus! {

/// An admitted request waiting in the queue. Nothing has been pushed
/// onto its stream yet.
pub struct Entry {
    /// Assigned at append time; strictly increasing across the queue.
    pub id: u64,
    /// The validated payload, handed to the backend at batch start.
    pub request: ValidRequest,
    /// The request's response stream (producing end plus history).
    pub stream: ResponseStream,
    /// Clock mark taken when the request entered the queue.
    pub queued_at: u64,
}

/// An admitted request participating in a batch: what the dispatcher
/// needs to route generations and to close the stream.
pub struct LiveEntry {
    pub id: u64,
    pub stream: ResponseStream,
    pub queued_at: u64,
    /// Clock mark taken when the request first entered a prefill call.
    pub batch_started_at: u64,
}

/// The fields a send leaves untouched: everything but the history.
pub open spec fn same_but_history(a: LiveEntry, b: LiveEntry) -> bool {
    &&& a.id == b.id
    &&& a.stream.sender() == b.stream.sender()
    &&& a.queued_at == b.queued_at
    &&& a.batch_started_at == b.batch_started_at
}

impl LiveEntry {
    /// What has been pushed onto this request's stream, oldest first.
    pub open spec fn history(self) -> Seq<StreamItem> {
        self.stream.history()
    }

    /// The terminal `End` value this entry sends when its request
    /// finishes: the final token, the finished output, and the
    /// entry's own timing marks.
    pub open spec fn end_item(self, token: Token, generated_text: GeneratedText) -> StreamItem {
        Ok(
            InferStreamResponse::End {
                token,
                generated_text,
                start: self.batch_started_at,
                queued: self.queued_at,
            },
        )
    }

    /// Moves a queued entry into a batch: the payload goes to the
    /// batch descriptor, the stream comes along unchanged, and the
    /// batch-start mark is taken now.
    pub fn begin_batch(e: Entry, now: u64) -> (r: (LiveEntry, Request))
        ensures
            r.0.id == e.id,
            r.0.stream == e.stream,
            r.0.queued_at == e.queued_at,
            r.0.batch_started_at == now,
            r.1.id == e.id,
            r.1.request == e.request,
    {
        let Entry { id, request, stream, queued_at } = e;
        let live = LiveEntry { id, stream, queued_at, batch_started_at: now };
        (live, Request { id, request })
    }

    /// Pushes the prompt tokens onto the stream.
    pub fn send_prefill(&mut self, tokens: PrefillTokens)
        ensures
            same_but_history(*old(self), *final(self)),
            final(self).history() == old(self).history().push(
                Ok(InferStreamResponse::Prefill(tokens)),
            ),
    {
        self.stream.push(Ok(InferStreamResponse::Prefill(tokens)));
    }

    /// Pushes one intermediate token onto the stream.
    pub fn send_token(&mut self, token: Token)
        ensures
            same_but_history(*old(self), *final(self)),
            final(self).history() == old(self).history().push(
                Ok(InferStreamResponse::Token(token)),
            ),
    {
        self.stream.push(Ok(InferStreamResponse::Token(token)));
    }

    /// Pushes the terminal `End` with the final token, the finished
    /// output and both timing marks. If the stream was well formed so
    /// far, its whole history is now `Prefill? Token* End` with
    /// exactly one terminal value.
    pub fn send_end(&mut self, token: Token, generated_text: GeneratedText)
        ensures
            same_but_history(*old(self), *final(self)),
            final(self).history() == old(self).history().push(
                old(self).end_item(token, generated_text),
            ),
            open_stream(old(self).history()) ==> ended_stream(final(self).history())
                && terminal_count(final(self).history()) == 1,
    {
        let ghost pre = self.history();
        let ghost item = self.end_item(token, generated_text);
        let msg = InferStreamResponse::End {
            token,
            generated_text,
            start: self.batch_started_at,
            queued: self.queued_at,
        };
        self.stream.push(Ok(msg));
        proof {
            if open_stream(pre) {
                lemma_regular_end(pre, item);
            }
        }
    }

    /// Pushes the one `GenerationError` that a backend failure
    /// delivers to every entry of the aborted batch. If no terminal
    /// value was pushed before, exactly one stands now, last.
    pub fn send_error(&mut self, message: String)
        ensures
            same_but_history(*old(self), *final(self)),
            final(self).history() == old(self).history().push(
                Err(InferError::GenerationError(message)),
            ),
            no_terminal(old(self).history()) ==> errored_stream(final(self).history())
                && terminal_count(final(self).history()) == 1,
    {
        let ghost pre = self.history();
        let ghost item: StreamItem = Err(InferError::GenerationError(message));
        self.stream.push(Err(InferError::GenerationError(message)));
        proof {
            if no_terminal(pre) {
                lemma_regular_error(pre, item);
            }
        }
    }
}

} // verus!
