//! Admission gate and id-assignment behaviour.

use text_generation_router::infer::{Action, Infer, InferEvent};
use text_generation_router::request::{ValidParameters, ValidRequest};
use tokio::sync::mpsc::unbounded_channel;

fn adm_request() -> ValidRequest {
    ValidRequest {
        inputs: "inputs".to_string(),
        input_length: 1,
        parameters: ValidParameters {
            temperature_bits: 1.0f32.to_bits(),
            top_k: 0,
            top_p_bits: 1.0f32.to_bits(),
            do_sample: false,
            seed: Some(7),
            max_new_tokens: 4,
            stop_sequences: vec!["\n".to_string()],
        },
    }
}

#[test]
fn overload_rejected_immediately() {
    let mut inf = Infer::new(8, 10, 1);

    // Request 1 takes the only permit and sits in the queue.
    assert!(inf.try_admit());
    let (tx1, _rx1) = unbounded_channel();
    inf.enqueue(adm_request(), tx1, 1);
    assert_eq!(inf.permits_in_use(), 1);

    // Request 2 is turned away at once; the permit count stays at 1.
    assert!(!inf.try_admit());
    assert_eq!(inf.permits_in_use(), 1);

    // When request 1 finishes, admission opens again.
    let a = inf.step(InferEvent::Notified, 2).0;
    assert!(matches!(a, Action::Prefill(_)));
    assert_eq!(inf.permits_in_use(), 1);
    drop(_rx1);
    let a = inf.step(InferEvent::Failed { message: "gone".to_string() }, 3).0;
    assert!(matches!(a, Action::Wait));
    assert_eq!(inf.permits_in_use(), 0);
    assert!(inf.try_admit());
}

#[test]
fn validation_failure_releases_permit() {
    let mut inf = Infer::new(8, 10, 2);
    assert!(inf.try_admit());
    assert_eq!(inf.permits_in_use(), 1);
    // The validator rejected the request: the permit goes back.
    inf.release_admission();
    assert_eq!(inf.permits_in_use(), 0);
}

#[test]
fn permits_never_exceed_cap() {
    let mut inf = Infer::new(8, 10, 3);
    let mut receivers = vec![];
    for i in 0..5u64 {
        let admitted = inf.try_admit();
        assert_eq!(admitted, i < 3, "admission beyond the cap");
        if admitted {
            let (tx, rx) = unbounded_channel();
            inf.enqueue(adm_request(), tx, i);
            receivers.push(rx);
        }
        assert!(inf.permits_in_use() <= 3);
    }
    assert_eq!(inf.permits_in_use(), 3);
    assert_eq!(inf.queue_len(), 3);
}

#[test]
fn append_ids_strictly_increase() {
    let mut inf = Infer::new(8, 10, 16);
    let mut last: Option<u64> = None;
    let mut receivers = vec![];
    for now in 0..4u64 {
        assert!(inf.try_admit());
        let (tx, rx) = unbounded_channel();
        let id = inf.enqueue(adm_request(), tx, now);
        receivers.push(rx);
        if let Some(prev) = last {
            assert!(id > prev, "ids must strictly increase");
        }
        last = Some(id);
    }
    assert_eq!(last, Some(3));
}
