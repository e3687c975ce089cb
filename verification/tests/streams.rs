//! Stream round trips, disconnect pruning, and the unary-path
//! response reassembly.

use text_generation_router::infer::{Action, Infer, InferEvent};
use text_generation_router::request::{Batch, Generation, ValidParameters, ValidRequest};
use text_generation_router::response::{incomplete_after, response_timings, zip_prefill, ResponseBuilder};
use text_generation_router::stream::{
    GeneratedText, InferError, InferStreamResponse, PrefillTokens, Token,
};
use tokio::sync::mpsc::unbounded_channel;

fn str_request() -> ValidRequest {
    ValidRequest {
        inputs: "inputs".to_string(),
        input_length: 2,
        parameters: ValidParameters {
            temperature_bits: 1.0f32.to_bits(),
            top_k: 0,
            top_p_bits: 1.0f32.to_bits(),
            do_sample: false,
            seed: None,
            max_new_tokens: 8,
            stop_sequences: vec![],
        },
    }
}

fn str_gen(request_id: u64, token_id: u32, terminal: bool) -> Generation {
    Generation {
        request_id,
        prefill_tokens: None,
        token_id,
        token_text: format!("t{token_id}"),
        token_logprob_bits: 0,
        generated_text: if terminal {
            Some(GeneratedText {
                text: "done".to_string(),
                generated_tokens: 2,
                finish_reason: "eos_token".to_string(),
                seed: None,
            })
        } else {
            None
        },
    }
}

fn str_cached(size: usize) -> Batch {
    Batch { id: 77, requests: vec![], size }
}

#[test]
fn echoed_tokens_reproduced_verbatim() {
    // A mock backend echoes the fixed token stream [5, 6] to every
    // request; each client stream carries it back verbatim.
    let mut inf = Infer::new(8, 10, 16);
    let mut receivers = vec![];
    for now in [1, 2] {
        assert!(inf.try_admit());
        let (tx, rx) = unbounded_channel();
        inf.enqueue(str_request(), tx, now);
        receivers.push(rx);
    }
    let a = inf.step(InferEvent::Notified, 3).0;
    assert!(matches!(a, Action::Prefill(ref b) if b.size == 2));
    let a = inf
        .step(
            InferEvent::Completed {
                generations: vec![str_gen(0, 5, false), str_gen(1, 5, false)],
                cached: Some(str_cached(2)),
            },
            4,
        )
        .0;
    assert!(matches!(a, Action::Decode(_)));
    let a = inf
        .step(
            InferEvent::Completed {
                generations: vec![str_gen(0, 6, true), str_gen(1, 6, true)],
                cached: None,
            },
            5,
        )
        .0;
    assert!(matches!(a, Action::Wait));

    for mut rx in receivers {
        let mut seen = vec![];
        while let Ok(Ok(msg)) = rx.try_recv() {
            match msg {
                InferStreamResponse::Token(t) => seen.push(t.id),
                InferStreamResponse::End { token, .. } => seen.push(token.id),
                InferStreamResponse::Prefill(_) => panic!("no prefill was sent"),
            }
        }
        assert_eq!(seen, vec![5, 6]);
    }
}

#[test]
fn disconnect_pruning_empties_queue() {
    // Receivers are destroyed before consumption; re-running the
    // dispatcher leaves the queue empty and the permits released.
    let mut inf = Infer::new(8, 10, 16);
    for now in [1, 2, 3] {
        assert!(inf.try_admit());
        let (tx, rx) = unbounded_channel();
        inf.enqueue(str_request(), tx, now);
        drop(rx);
    }
    assert_eq!(inf.queue_len(), 3);
    let a = inf.step(InferEvent::Notified, 4).0;
    assert!(matches!(a, Action::Wait));
    assert_eq!(inf.queue_len(), 0);
    assert_eq!(inf.permits_in_use(), 0);
    assert!(inf.is_idle());
}

#[test]
fn disconnected_entry_pruned_before_batch() {
    // Request 1's client disconnects before the dispatcher runs;
    // request 2 alone enters the batch, and request 1's permit is
    // released before that batch starts.
    let mut inf = Infer::new(8, 10, 16);
    assert!(inf.try_admit());
    let (tx1, rx1) = unbounded_channel();
    inf.enqueue(str_request(), tx1, 1);
    drop(rx1);

    assert!(inf.try_admit());
    let (tx2, _rx2) = unbounded_channel();
    let id2 = inf.enqueue(str_request(), tx2, 2);

    let a = inf.step(InferEvent::Notified, 3).0;
    match a {
        Action::Prefill(b) => {
            assert_eq!(b.size, 1);
            assert_eq!(b.requests[0].id, id2);
        },
        _ => panic!("expected a prefill for the live request"),
    }
    assert_eq!(inf.permits_in_use(), 1);
}

#[test]
fn builder_reassembles_full_response() {
    let mut b = ResponseBuilder::new();
    b.absorb(InferStreamResponse::Prefill(PrefillTokens {
        ids: vec![11, 12],
        logprob_bits: vec![1, 2],
        texts: vec!["a".to_string(), "b".to_string()],
    }));
    b.absorb(InferStreamResponse::Token(Token {
        id: 21,
        text: "c".to_string(),
        logprob_bits: 3,
    }));
    b.absorb(InferStreamResponse::End {
        token: Token { id: 22, text: "d".to_string(), logprob_bits: 4 },
        generated_text: GeneratedText {
            text: "cd".to_string(),
            generated_tokens: 2,
            finish_reason: "length".to_string(),
            seed: Some(3),
        },
        start: 30,
        queued: 20,
    });
    let resp = b.finish().unwrap();
    assert_eq!(resp.prefill.len(), 2);
    assert_eq!(resp.prefill[0].id, 11);
    assert_eq!(resp.prefill[1].text, "b");
    assert_eq!(resp.tokens.len(), 2);
    assert_eq!(resp.tokens[0].id, 21);
    assert_eq!(resp.tokens[1].id, 22);
    assert_eq!(resp.generated_text.text, "cd");
    assert_eq!(resp.queued, 20);
    assert_eq!(resp.start, 30);
}

#[test]
fn stream_without_end_is_incomplete() {
    let mut b = ResponseBuilder::new();
    b.absorb(InferStreamResponse::Token(Token {
        id: 1,
        text: "x".to_string(),
        logprob_bits: 0,
    }));
    match b.finish() {
        Err(InferError::IncompleteGeneration) => {},
        other => panic!("expected an incomplete generation, got {other:?}"),
    }
}

#[test]
fn zip_prefill_pairs_columns() {
    let toks = zip_prefill(PrefillTokens {
        ids: vec![1, 2, 3],
        logprob_bits: vec![10, 20],
        texts: vec!["a".to_string(), "b".to_string(), "c".to_string()],
    });
    // Pairing stops at the shortest column.
    assert_eq!(toks.len(), 2);
    assert_eq!(toks[0].id, 1);
    assert_eq!(toks[0].logprob_bits, 10);
    assert_eq!(toks[1].text, "b");
}

#[test]
fn timing_arithmetic_is_exact() {
    let t = response_timings(100, 130, 150, 250, 4);
    assert_eq!(t.total, 150);
    assert_eq!(t.validation, 30);
    assert_eq!(t.queue_wait, 20);
    assert_eq!(t.inference, 100);
    assert_eq!(t.time_per_token, 25);
}

#[test]
fn incomplete_decision_matches_flags() {
    assert!(matches!(
        incomplete_after(false, false),
        Some(InferError::IncompleteGeneration)
    ));
    assert!(incomplete_after(true, false).is_none());
    assert!(incomplete_after(false, true).is_none());
    assert!(incomplete_after(true, true).is_none());
}

#[test]
fn error_messages_name_their_kind() {
    assert_eq!(InferError::Overloaded.message(), "Model is overloaded");
    assert_eq!(InferError::IncompleteGeneration.message(), "Incomplete generation");
    assert_eq!(InferError::GenerationError("boom".to_string()).message(), "boom");
    assert_eq!(InferError::ValidationError("too long".to_string()).message(), "too long");
}
