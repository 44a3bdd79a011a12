use event_relay::buffer::{pop_outcome, queue_drained, PopOutcome};
use event_relay::inbound::{
    batch_full, on_stream_event, plan_batch, BatchAction, BatchCycle, ConsumeStep, StreamEvent,
};
use event_relay::message::{InputMessage, PredictType};
use event_relay::outbox::{DispatchStep, OutboxDaemon, Source};
use event_relay::settings::RedisQueues;
use std::collections::VecDeque;

fn record(id: &str, kind: PredictType, image: &str, result: &str) -> InputMessage {
    InputMessage {
        id: id.to_string(),
        image_path: image.to_string(),
        result_path: result.to_string(),
        predict_type: kind,
    }
}

fn same(a: &InputMessage, b: &InputMessage) -> bool {
    a.id == b.id
        && a.image_path == b.image_path
        && a.result_path == b.result_path
        && a.predict_type == b.predict_type
}

fn queues() -> RedisQueues {
    RedisQueues { inbox: "inbox".to_string(), outbox: "outbox".to_string() }
}

/// Decodes a JSON text into a record with serde_json, as the relay's
/// runner does for upstream payloads and list entries.
fn decode_entry(text: &str) -> Option<InputMessage> {
    let v: serde_json::Value = serde_json::from_str(text).ok()?;
    let o = v.as_object()?;
    if o.len() != 4 {
        return None;
    }
    let kind = match o.get("predict_type")?.as_str()? {
        "TYPE_ONE" => PredictType::TypeOne,
        "TYPE_TWO" => PredictType::TypeTwo,
        _ => return None,
    };
    Some(InputMessage {
        id: o.get("id")?.as_str()?.to_string(),
        image_path: o.get("image_path")?.as_str()?.to_string(),
        result_path: o.get("result_path")?.as_str()?.to_string(),
        predict_type: kind,
    })
}

fn decode_payload(bytes: &[u8]) -> Option<InputMessage> {
    decode_entry(std::str::from_utf8(bytes).ok()?)
}

/// Pops from a list as the store client does: entries that hold no record
/// are dropped; `None` where the list ran empty.
fn pop_record(list: &mut VecDeque<String>) -> Option<InputMessage> {
    loop {
        match pop_outcome(list.pop_front().map(|entry| decode_entry(&entry))) {
            PopOutcome::Record(m) => return Some(m),
            PopOutcome::Discard => continue,
            PopOutcome::Empty => return None,
        }
    }
}

#[test]
fn encodes_record_as_json_object() {
    let m = record("1", PredictType::TypeOne, "a", "b");
    assert_eq!(
        m.to_json(),
        "{\"id\":\"1\",\"image_path\":\"a\",\"result_path\":\"b\",\"predict_type\":\"TYPE_ONE\"}"
    );
    let t = record("x", PredictType::TypeTwo, "", "");
    assert_eq!(
        t.to_json(),
        "{\"id\":\"x\",\"image_path\":\"\",\"result_path\":\"\",\"predict_type\":\"TYPE_TWO\"}"
    );
}

#[test]
fn escapes_as_serde_json_does() {
    let text = "q\"b\\s\nr\rt\tb\u{8}f\u{c}c\u{1}\u{1f}é/€";
    let m = record(text, PredictType::TypeOne, "a", "b");
    let expected = format!(
        "{{\"id\":{},\"image_path\":\"a\",\"result_path\":\"b\",\"predict_type\":\"TYPE_ONE\"}}",
        serde_json::to_string(text).unwrap()
    );
    assert_eq!(m.to_json(), expected);
    let v: serde_json::Value = serde_json::from_str(&m.to_json()).unwrap();
    assert_eq!(v["id"].as_str().unwrap(), text);
}

#[test]
fn round_trip_keeps_every_field() {
    let cases = vec![
        record("1", PredictType::TypeOne, "a", "b"),
        record("", PredictType::TypeTwo, "", ""),
        record("\u{0}\u{7f}\"\\", PredictType::TypeTwo, "s3://bucket/key with space", "ü/ß"),
    ];
    for m in cases {
        let back = InputMessage::from_json(&m.to_json()).unwrap();
        assert!(same(&back, &m));
    }
}

#[test]
fn rejects_text_that_is_no_record() {
    let bad = vec![
        "",
        "not json",
        "{}",
        "{\"id\":\"1\",\"image_path\":\"a\",\"result_path\":\"b\",\"predict_type\":\"TYPE_THREE\"}",
        "{\"id\":\"1\",\"image_path\":\"a\",\"result_path\":\"b\",\"predict_type\":\"TYPE_ONE\"",
        "{\"id\":\"1\",\"image_path\":\"a\",\"result_path\":\"b\",\"predict_type\":\"TYPE_ONE\"}x",
        "{\"id\":\"\\q\",\"image_path\":\"a\",\"result_path\":\"b\",\"predict_type\":\"TYPE_ONE\"}",
        "{\"id\":\"\n\",\"image_path\":\"a\",\"result_path\":\"b\",\"predict_type\":\"TYPE_ONE\"}",
    ];
    for s in bad {
        assert!(InputMessage::from_json(s).is_none(), "{s}");
    }
}

#[test]
fn reads_unicode_escape_of_control_character() {
    let s = "{\"id\":\"\\u0001\\u001f\",\"image_path\":\"a\",\"result_path\":\"b\",\"predict_type\":\"TYPE_TWO\"}";
    let m = InputMessage::from_json(s).unwrap();
    assert_eq!(m.id, "\u{1}\u{1f}");
    assert_eq!(m.predict_type, PredictType::TypeTwo);
}

#[test]
fn pop_outcome_of_each_head() {
    assert!(matches!(pop_outcome(None), PopOutcome::Empty));
    assert!(matches!(pop_outcome(Some(decode_entry("garbage"))), PopOutcome::Discard));
    let m = record("7", PredictType::TypeOne, "a", "b");
    match pop_outcome(Some(decode_entry(&m.to_json()))) {
        PopOutcome::Record(x) => assert!(same(&x, &m)),
        _ => panic!("expected a record"),
    }
}

#[test]
fn pops_in_push_order() {
    let ms = vec![
        record("1", PredictType::TypeOne, "a1", "b1"),
        record("2", PredictType::TypeTwo, "a2", "b2"),
        record("3", PredictType::TypeOne, "a3", "b3"),
    ];
    let mut list = VecDeque::new();
    for m in &ms {
        list.push_back(m.to_json());
    }
    for m in &ms {
        let got = pop_record(&mut list).unwrap();
        assert!(same(&got, m));
    }
    assert!(pop_record(&mut list).is_none());
}

#[test]
fn malformed_head_is_skipped() {
    let m = record("2", PredictType::TypeTwo, "a", "b");
    let mut list = VecDeque::new();
    list.push_back("{broken".to_string());
    list.push_back(m.to_json());
    let got = pop_record(&mut list).unwrap();
    assert!(same(&got, &m));
    assert!(list.is_empty());
}

#[test]
fn batch_pushes_decodable_and_commits_all() {
    let good1 = record("1", PredictType::TypeOne, "a", "b");
    let good2 = record("2", PredictType::TypeTwo, "c", "d");
    let payloads: Vec<Option<Vec<u8>>> = vec![
        Some(good1.to_json().into_bytes()),
        Some(b"{not a record".to_vec()),
        None,
        Some(vec![0xff, 0xfe]),
        Some(good2.to_json().into_bytes()),
    ];
    let decoded = payloads.iter().map(|p| p.as_ref().and_then(|b| decode_payload(b))).collect();
    let plan = plan_batch(decoded);
    assert_eq!(plan.records.len(), 2);
    assert!(same(&plan.records[0], &good1));
    assert!(same(&plan.records[1], &good2));
    assert_eq!(plan.commit_count, 5);

    let mut cycle = BatchCycle::new(plan);
    let mut inbox = VecDeque::new();
    let mut commits = Vec::new();
    loop {
        match cycle.next_action() {
            BatchAction::Push(m) => {
                inbox.push_back(m.to_json());
                cycle.record_pushed();
            }
            BatchAction::AwaitDrain => {
                let depth = inbox.len();
                cycle.record_depth(depth);
                // the dispatcher side drains one entry per wait
                inbox.pop_front();
            }
            BatchAction::Commit(n) => {
                commits.push(n);
                break;
            }
        }
    }
    assert_eq!(commits, vec![5]);
}

#[test]
fn payload_with_whitespace_is_kept() {
    let text = "{ \"id\": \"1\", \"image_path\": \"a\",\n  \"result_path\": \"b\", \"predict_type\": \"TYPE_ONE\" }";
    let plan = plan_batch(vec![decode_payload(text.as_bytes())]);
    assert_eq!(plan.records.len(), 1);
    assert!(same(&plan.records[0], &record("1", PredictType::TypeOne, "a", "b")));
    assert_eq!(plan.commit_count, 1);
}

#[test]
fn payload_with_reordered_fields_and_escapes_is_kept() {
    let text = "{\"predict_type\":\"TYPE_TWO\",\"result_path\":\"r\\/x\",\"image_path\":\"\\u00e9\",\"id\":\"9\"}";
    let plan = plan_batch(vec![decode_payload(text.as_bytes()), None]);
    assert_eq!(plan.records.len(), 1);
    assert!(same(&plan.records[0], &record("9", PredictType::TypeTwo, "é", "r/x")));
    assert_eq!(plan.commit_count, 2);
}

#[test]
fn stream_events_drive_batching() {
    assert_eq!(on_stream_event(1, 2, StreamEvent::Arrived), ConsumeStep::Collect);
    assert_eq!(on_stream_event(2, 2, StreamEvent::Arrived), ConsumeStep::ProcessBatch);
    assert_eq!(on_stream_event(1, 2, StreamEvent::ReadFailed), ConsumeStep::Collect);
    assert_eq!(on_stream_event(1, 2, StreamEvent::Ended), ConsumeStep::Finish { flush: true });
    assert_eq!(on_stream_event(0, 2, StreamEvent::Ended), ConsumeStep::Finish { flush: false });
}

#[test]
fn drain_wait_ends_only_after_last_pop() {
    let mut list = VecDeque::new();
    for i in 0..3 {
        list.push_back(record(&i.to_string(), PredictType::TypeOne, "a", "b").to_json());
    }
    let mut pops = 0;
    // each check of the depth is followed by one pop on the other side
    while !queue_drained(list.len()) {
        assert!(pops < 3);
        pop_record(&mut list).unwrap();
        pops += 1;
    }
    assert_eq!(pops, 3);
    assert!(queue_drained(0));
    assert!(!queue_drained(1));
}

/// Runs one dispatcher iteration against two in-memory lists and a
/// producer stub; returns whether a delivery attempt was made.
fn dispatch_once(
    daemon: &OutboxDaemon,
    inbox: &mut VecDeque<String>,
    outbox: &mut VecDeque<String>,
    publish: &mut dyn FnMut(&str) -> bool,
) -> bool {
    let mut source = Source::Inbox;
    loop {
        let head = match source {
            Source::Inbox => inbox.pop_front(),
            Source::Outbox => outbox.pop_front(),
        };
        match daemon.after_pop(source, pop_outcome(head.map(|e| decode_entry(&e)))) {
            DispatchStep::Deliver(m) => {
                let ok = publish(&daemon.payload(&m));
                if let Some((key, entry)) = daemon.after_delivery(&m, ok) {
                    assert_eq!(key, "outbox");
                    outbox.push_back(entry);
                }
                return true;
            }
            DispatchStep::Pop(next) => source = next,
            DispatchStep::Idle => return false,
        }
    }
}

#[test]
fn dispatcher_retries_failed_delivery() {
    let daemon = OutboxDaemon::new(queues());
    let a = record("A", PredictType::TypeOne, "a", "b");
    let mut inbox = VecDeque::new();
    let mut outbox = VecDeque::new();
    inbox.push_back(a.to_json());
    let mut attempts = 0;
    let mut delivered = Vec::new();
    let mut publish = |p: &str| {
        attempts += 1;
        if attempts == 1 {
            false
        } else {
            delivered.push(p.to_string());
            true
        }
    };
    assert!(dispatch_once(&daemon, &mut inbox, &mut outbox, &mut publish));
    assert!(inbox.is_empty());
    // between the two attempts the record is back in the buffer
    assert_eq!(outbox.len(), 1);
    assert!(same(&InputMessage::from_json(&outbox[0]).unwrap(), &a));
    assert!(dispatch_once(&daemon, &mut inbox, &mut outbox, &mut publish));
    assert!(inbox.is_empty() && outbox.is_empty());
    assert!(!dispatch_once(&daemon, &mut inbox, &mut outbox, &mut publish));
    assert_eq!(attempts, 2);
    assert_eq!(delivered, vec![a.to_json()]);
}

#[test]
fn dispatcher_publishes_identical_payload() {
    let daemon = OutboxDaemon::new(queues());
    let m = record("1", PredictType::TypeOne, "a", "b");
    let mut inbox = VecDeque::new();
    let mut outbox = VecDeque::new();
    inbox.push_back(m.to_json());
    let mut published = Vec::new();
    let mut publish = |p: &str| {
        published.push(p.to_string());
        true
    };
    assert!(dispatch_once(&daemon, &mut inbox, &mut outbox, &mut publish));
    assert_eq!(published.len(), 1);
    let sent: serde_json::Value = serde_json::from_str(&published[0]).unwrap();
    assert_eq!(sent["id"], "1");
    assert_eq!(sent["predict_type"], "TYPE_ONE");
    assert_eq!(sent["image_path"], "a");
    assert_eq!(sent["result_path"], "b");
    assert!(outbox.is_empty() && inbox.is_empty());
}

#[test]
fn dispatcher_skips_malformed_and_goes_idle() {
    let daemon = OutboxDaemon::new(queues());
    assert!(matches!(daemon.after_pop(Source::Inbox, PopOutcome::Empty), DispatchStep::Pop(Source::Outbox)));
    assert!(matches!(daemon.after_pop(Source::Outbox, PopOutcome::Empty), DispatchStep::Idle));
    assert!(matches!(
        daemon.after_pop(Source::Outbox, PopOutcome::Discard),
        DispatchStep::Pop(Source::Outbox)
    ));
    assert_eq!(daemon.key(Source::Inbox), "inbox");
    assert_eq!(daemon.key(Source::Outbox), "outbox");
}

#[test]
fn no_commit_while_inbox_not_drained() {
    let batch_size = 2;
    let a = record("1", PredictType::TypeOne, "a", "b");
    let b = record("2", PredictType::TypeTwo, "c", "d");
    let payloads = vec![Some(a.to_json().into_bytes()), Some(b.to_json().into_bytes())];
    assert!(batch_full(payloads.len(), batch_size));
    assert!(!batch_full(1, batch_size));
    let decoded = payloads.iter().map(|p| p.as_ref().and_then(|b| decode_payload(b))).collect();
    let mut cycle = BatchCycle::new(plan_batch(decoded));
    let mut inbox: VecDeque<String> = VecDeque::new();
    for _ in 0..50 {
        match cycle.next_action() {
            BatchAction::Push(m) => {
                inbox.push_back(m.to_json());
                cycle.record_pushed();
            }
            BatchAction::AwaitDrain => {
                cycle.record_depth(inbox.len());
                assert!(!cycle.is_drained());
            }
            BatchAction::Commit(_) => panic!("committed while the inbox holds entries"),
        }
    }
    assert_eq!(inbox.len(), 2);
    inbox.clear();
    cycle.record_depth(inbox.len());
    assert!(matches!(cycle.next_action(), BatchAction::Commit(2)));
}
