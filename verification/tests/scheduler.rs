//! Scenario tests driving the dispatcher state machine with a
//! scripted backend.

use text_generation_router::infer::{Action, Infer, InferEvent};
use text_generation_router::request::{Batch, Generation, ValidParameters, ValidRequest};
use text_generation_router::stream::{GeneratedText, InferError, InferStreamResponse, PrefillTokens};
use tokio::sync::mpsc::error::TryRecvError;
use tokio::sync::mpsc::{unbounded_channel, UnboundedReceiver};

type Rx = UnboundedReceiver<Result<InferStreamResponse, InferError>>;

fn sched_request(inputs: &str) -> ValidRequest {
    ValidRequest {
        inputs: inputs.to_string(),
        input_length: 3,
        parameters: ValidParameters {
            temperature_bits: 1.0f32.to_bits(),
            top_k: 0,
            top_p_bits: 1.0f32.to_bits(),
            do_sample: false,
            seed: None,
            max_new_tokens: 16,
            stop_sequences: vec![],
        },
    }
}

fn sched_gen(request_id: u64, token_id: u32, text: &str) -> Generation {
    Generation {
        request_id,
        prefill_tokens: None,
        token_id,
        token_text: text.to_string(),
        token_logprob_bits: 0,
        generated_text: None,
    }
}

fn sched_gen_final(request_id: u64, token_id: u32, text: &str, full: &str) -> Generation {
    Generation {
        generated_text: Some(GeneratedText {
            text: full.to_string(),
            generated_tokens: 3,
            finish_reason: "length".to_string(),
            seed: None,
        }),
        ..sched_gen(request_id, token_id, text)
    }
}

fn sched_cached(size: usize) -> Batch {
    Batch { id: 900, requests: vec![], size }
}

fn sched_submit(inf: &mut Infer, now: u64) -> (u64, Rx) {
    assert!(inf.try_admit());
    let (tx, rx) = unbounded_channel();
    let id = inf.enqueue(sched_request("hello"), tx, now);
    (id, rx)
}

fn sched_step(inf: &mut Infer, ev: InferEvent, now: u64) -> Action {
    assert!(inf.event_admissible(&ev));
    inf.step(ev, now).0
}

#[test]
fn single_request_three_tokens() {
    let mut inf = Infer::new(8, 10, 16);
    let (id, mut rx) = sched_submit(&mut inf, 5);
    assert_eq!(id, 0);

    let a = sched_step(&mut inf, InferEvent::Notified, 10);
    let batch = match a {
        Action::Prefill(b) => b,
        _ => panic!("expected a prefill"),
    };
    assert_eq!(batch.size, 1);
    assert_eq!(batch.requests.len(), 1);
    assert_eq!(batch.requests[0].id, 0);
    assert!(batch.size <= 8);

    // Prefill returns the prompt tokens and the first generated token.
    let gen_a = Generation {
        prefill_tokens: Some(PrefillTokens {
            ids: vec![101, 102],
            logprob_bits: vec![0, 0],
            texts: vec!["he".to_string(), "llo".to_string()],
        }),
        ..sched_gen(0, 1, "A")
    };
    let a = sched_step(
        &mut inf,
        InferEvent::Completed { generations: vec![gen_a], cached: Some(sched_cached(1)) },
        11,
    );
    assert!(matches!(a, Action::Decode(ref bs) if bs.len() == 1));

    let a = sched_step(
        &mut inf,
        InferEvent::Completed {
            generations: vec![sched_gen(0, 2, "B")],
            cached: Some(sched_cached(1)),
        },
        12,
    );
    assert!(matches!(a, Action::Decode(ref bs) if bs.len() == 1));

    let a = sched_step(
        &mut inf,
        InferEvent::Completed {
            generations: vec![sched_gen_final(0, 3, "C", "ABC")],
            cached: None,
        },
        13,
    );
    assert!(matches!(a, Action::Wait));
    assert_eq!(inf.permits_in_use(), 0);

    // The stream reads Prefill, Token(A), Token(B), End(C) and then
    // closes; the timing marks are those recorded at queueing and at
    // batch start.
    match rx.try_recv().unwrap().unwrap() {
        InferStreamResponse::Prefill(p) => assert_eq!(p.ids, vec![101, 102]),
        other => panic!("expected prefill, got {other:?}"),
    }
    match rx.try_recv().unwrap().unwrap() {
        InferStreamResponse::Token(t) => {
            assert_eq!(t.id, 1);
            assert_eq!(t.text, "A");
        },
        other => panic!("expected token, got {other:?}"),
    }
    match rx.try_recv().unwrap().unwrap() {
        InferStreamResponse::Token(t) => assert_eq!(t.id, 2),
        other => panic!("expected token, got {other:?}"),
    }
    match rx.try_recv().unwrap().unwrap() {
        InferStreamResponse::End { token, generated_text, start, queued } => {
            assert_eq!(token.id, 3);
            assert_eq!(generated_text.text, "ABC");
            assert_eq!(queued, 5);
            assert_eq!(start, 10);
        },
        other => panic!("expected end, got {other:?}"),
    }
    assert!(matches!(rx.try_recv(), Err(TryRecvError::Disconnected)));
}

#[test]
fn in_flight_extension_accepted() {
    let mut inf = Infer::new(4, 10, 16);
    let (_, _rx0) = sched_submit(&mut inf, 1);
    let (_, _rx1) = sched_submit(&mut inf, 2);

    let a = sched_step(&mut inf, InferEvent::Notified, 3);
    assert!(matches!(a, Action::Prefill(ref b) if b.size == 2));

    // No queued newcomers yet: the batch goes straight to decode.
    let a = sched_step(
        &mut inf,
        InferEvent::Completed {
            generations: vec![sched_gen(0, 1, "a"), sched_gen(1, 1, "a")],
            cached: Some(sched_cached(2)),
        },
        4,
    );
    assert!(matches!(a, Action::Decode(ref bs) if bs.len() == 1));

    // Two more requests arrive while the batch decodes.
    let (_, _rx2) = sched_submit(&mut inf, 5);
    let (_, _rx3) = sched_submit(&mut inf, 6);

    // Next decision: size 2 <= 4 / 2 and two newcomers meet the
    // minimum of 2, so the extension prefill is issued.
    let a = sched_step(
        &mut inf,
        InferEvent::Completed {
            generations: vec![sched_gen(0, 2, "b"), sched_gen(1, 2, "b")],
            cached: Some(sched_cached(2)),
        },
        7,
    );
    let ext = match a {
        Action::Prefill(b) => b,
        _ => panic!("expected an extension prefill"),
    };
    assert_eq!(ext.size, 2);
    assert_eq!(ext.requests[0].id, 2);
    assert_eq!(ext.requests[1].id, 3);

    // The extension merges: four entries decode together and the
    // waiting counter resets.
    let a = sched_step(
        &mut inf,
        InferEvent::Completed {
            generations: vec![sched_gen(2, 1, "a"), sched_gen(3, 1, "a")],
            cached: Some(sched_cached(2)),
        },
        8,
    );
    assert!(matches!(a, Action::Decode(ref bs) if bs.len() == 2));
    assert_eq!(inf.batch_len(), 4);
    assert_eq!(inf.waiting_count(), 1);
}

#[test]
fn in_flight_extension_deferred_then_forced() {
    let mut inf = Infer::new(8, 3, 16);
    let (_, _rx0) = sched_submit(&mut inf, 1);
    let (_, _rx1) = sched_submit(&mut inf, 2);

    let a = sched_step(&mut inf, InferEvent::Notified, 3);
    assert!(matches!(a, Action::Prefill(ref b) if b.size == 2));

    // One newcomer waits; it is below the minimum of 8 / 2 = 4.
    let (_, _rx2) = sched_submit(&mut inf, 4);

    let decode_round = |inf: &mut Infer, now: u64| -> Action {
        let ev = InferEvent::Completed {
            generations: vec![sched_gen(0, 1, "x"), sched_gen(1, 1, "x")],
            cached: Some(sched_cached(2)),
        };
        assert!(inf.event_admissible(&ev));
        inf.step(ev, now).0
    };

    // waiting_tokens 1 and 2: the single newcomer is not worthwhile.
    let a = decode_round(&mut inf, 5);
    assert!(matches!(a, Action::Decode(_)));
    let a = decode_round(&mut inf, 6);
    assert!(matches!(a, Action::Decode(_)));

    // waiting_tokens has reached 3: the minimum is waived and the
    // lone request is merged.
    let a = decode_round(&mut inf, 7);
    assert_eq!(inf.waiting_count(), 3);
    let ext = match a {
        Action::Prefill(b) => b,
        _ => panic!("expected the forced extension"),
    };
    assert_eq!(ext.size, 1);
    assert_eq!(ext.requests[0].id, 2);
}

#[test]
fn batch_capped_at_max_size() {
    let mut inf = Infer::new(4, 10, 16);
    let mut receivers = vec![];
    for now in 0..6u64 {
        let (_, rx) = sched_submit(&mut inf, now);
        receivers.push(rx);
    }
    let a = sched_step(&mut inf, InferEvent::Notified, 10);
    match a {
        Action::Prefill(b) => {
            assert_eq!(b.size, 4);
            assert_eq!(b.requests.len(), 4);
            assert_eq!(b.requests[0].id, 0);
            assert_eq!(b.requests[3].id, 3);
        },
        _ => panic!("expected a prefill capped at the maximum"),
    }
    assert_eq!(inf.queue_len(), 2);
}

#[test]
fn no_extension_while_batch_large() {
    let mut inf = Infer::new(4, 10, 16);
    let mut receivers = vec![];
    for now in [1, 2, 3] {
        let (_, rx) = sched_submit(&mut inf, now);
        receivers.push(rx);
    }
    let a = sched_step(&mut inf, InferEvent::Notified, 4);
    assert!(matches!(a, Action::Prefill(ref b) if b.size == 3));

    // A newcomer waits, but the running batch holds 3 > 4 / 2
    // entries: no extension is attempted.
    let (_, rx4) = sched_submit(&mut inf, 5);
    receivers.push(rx4);
    let a = sched_step(
        &mut inf,
        InferEvent::Completed {
            generations: vec![
                sched_gen(0, 1, "a"),
                sched_gen(1, 1, "a"),
                sched_gen(2, 1, "a"),
            ],
            cached: Some(sched_cached(3)),
        },
        6,
    );
    assert!(matches!(a, Action::Decode(_)));
    assert_eq!(inf.queue_len(), 1);
}

#[test]
fn backend_error_aborts_only_current_batch() {
    let mut inf = Infer::new(8, 10, 16);
    let (_, mut rx0) = sched_submit(&mut inf, 1);
    let (_, mut rx1) = sched_submit(&mut inf, 2);

    let a = sched_step(&mut inf, InferEvent::Notified, 3);
    assert!(matches!(a, Action::Prefill(_)));
    let a = sched_step(
        &mut inf,
        InferEvent::Completed {
            generations: vec![sched_gen(0, 1, "a"), sched_gen(1, 1, "a")],
            cached: Some(sched_cached(2)),
        },
        4,
    );
    assert!(matches!(a, Action::Decode(_)));

    // The second decode step fails: both streams receive exactly one
    // error and close; the dispatcher goes back to waiting.
    let a = sched_step(&mut inf, InferEvent::Failed { message: "shard died".to_string() }, 5);
    assert!(matches!(a, Action::Wait));
    assert_eq!(inf.permits_in_use(), 0);

    for rx in [&mut rx0, &mut rx1] {
        assert!(matches!(rx.try_recv().unwrap().unwrap(), InferStreamResponse::Token(_)));
        match rx.try_recv().unwrap() {
            Err(InferError::GenerationError(m)) => assert_eq!(m, "shard died"),
            other => panic!("expected a generation error, got {other:?}"),
        }
        assert!(matches!(rx.try_recv(), Err(TryRecvError::Disconnected)));
    }

    // A later request completes normally.
    let (id2, mut rx2) = sched_submit(&mut inf, 6);
    let a = sched_step(&mut inf, InferEvent::Notified, 7);
    assert!(matches!(a, Action::Prefill(ref b) if b.requests[0].id == id2));
    let a = sched_step(
        &mut inf,
        InferEvent::Completed {
            generations: vec![sched_gen_final(id2, 9, "z", "z")],
            cached: None,
        },
        8,
    );
    assert!(matches!(a, Action::Wait));
    assert!(matches!(
        rx2.try_recv().unwrap().unwrap(),
        InferStreamResponse::End { .. }
    ));
}
