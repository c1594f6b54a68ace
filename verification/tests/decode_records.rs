use dump_cat::errors::DecodeError;
use dump_cat::messages::{Message, MessageTree};

fn vint(mut v: u64) -> Vec<u8> {
    let mut out = Vec::new();
    loop {
        if v < 128 {
            out.push(v as u8);
            return out;
        }
        out.push(((v % 128) + 128) as u8);
        v /= 128;
    }
}

fn string_field(s: &str) -> Vec<u8> {
    let mut out = vint(s.len() as u64);
    out.extend_from_slice(s.as_bytes());
    out
}

fn leaf(tag: u8, ts: u64, ty: &str, name: &str, status: &str, data: &str) -> Vec<u8> {
    let mut out = vec![tag];
    out.extend_from_slice(&vint(ts));
    out.extend_from_slice(&string_field(ty));
    out.extend_from_slice(&string_field(name));
    out.extend_from_slice(&string_field(status));
    out.extend_from_slice(&string_field(data));
    out
}

fn tx_open(ts: u64, ty: &str, name: &str) -> Vec<u8> {
    let mut out = vec![b't'];
    out.extend_from_slice(&vint(ts));
    out.extend_from_slice(&string_field(ty));
    out.extend_from_slice(&string_field(name));
    out
}

fn tx_close(status: &str, data: &str, duration_us: u64) -> Vec<u8> {
    let mut out = vec![b'T'];
    out.extend_from_slice(&string_field(status));
    out.extend_from_slice(&string_field(data));
    out.extend_from_slice(&vint(duration_us));
    out
}

fn record(messages: &[Vec<u8>]) -> Vec<u8> {
    record_with_header(&["", "", "", "", "", "", "", "", "", ""], messages)
}

fn record_with_header(header: &[&str; 10], messages: &[Vec<u8>]) -> Vec<u8> {
    let mut out = b"NT1".to_vec();
    for h in header {
        out.extend_from_slice(&string_field(h));
    }
    for m in messages {
        out.extend_from_slice(m);
    }
    out
}

#[test]
fn single_leaf_event() {
    let rec = record(&[leaf(b'E', 0, "type", "name", "status", "data")]);
    let tree = MessageTree::decode(&rec).unwrap();
    assert_eq!(tree.events.len(), 1);
    assert_eq!(tree.transactions.len(), 0);
    let ev = &tree.events[0];
    assert_eq!(ev.ty, "type");
    assert_eq!(ev.name, "name");
    assert_eq!(ev.status, "status");
    assert_eq!(ev.data, "data");
    assert_eq!(ev.timestamp_in_ms, 0);
    match &tree.message {
        Message::Event(e) => assert!(std::rc::Rc::ptr_eq(e, ev)),
        other => panic!("representative should be the event, got {:?}", other),
    }
}

#[test]
fn flat_transaction() {
    let mut msgs = tx_open(1, "tx", "n");
    msgs.extend_from_slice(&tx_close("ok", "", 1000));
    let rec = record(&[msgs]);
    let tree = MessageTree::decode(&rec).unwrap();
    assert_eq!(tree.transactions.len(), 1);
    let tx = &tree.transactions[0];
    assert_eq!(tx.ty, "tx");
    assert_eq!(tx.name, "n");
    assert_eq!(tx.status, "ok");
    assert_eq!(tx.timestamp_in_ms, 1);
    assert_eq!(tx.duration_in_ms, 1);
    assert_eq!(tx.children.len(), 0);
}

#[test]
fn duration_is_floor_of_microseconds() {
    for (us, ms) in [(0u64, 0u64), (999, 0), (1000, 1), (1999, 1), (123456, 123)] {
        let mut msgs = tx_open(0, "a", "b");
        msgs.extend_from_slice(&tx_close("", "", us));
        let tree = MessageTree::decode(&record(&[msgs])).unwrap();
        assert_eq!(tree.transactions[0].duration_in_ms, ms);
    }
}

#[test]
fn nested_transactions() {
    let mut msgs = tx_open(7, "a", "x");
    msgs.extend_from_slice(&leaf(b'E', 7, "t", "n", "s", "d"));
    msgs.extend_from_slice(&tx_open(7, "b", "y"));
    msgs.extend_from_slice(&tx_close("ok", "", 0));
    msgs.extend_from_slice(&tx_close("ok", "", 0));
    let tree = MessageTree::decode(&record(&[msgs])).unwrap();
    assert_eq!(tree.transactions.len(), 2);
    assert_eq!(tree.transactions[0].ty, "b");
    assert_eq!(tree.transactions[1].ty, "a");
    let outer = &tree.transactions[1];
    assert_eq!(outer.children.len(), 2);
    match &outer.children[0] {
        Message::Event(e) => assert_eq!(e.ty, "t"),
        other => panic!("first child should be the event, got {:?}", other),
    }
    match &outer.children[1] {
        Message::Transaction(t) => {
            assert_eq!(t.ty, "b");
            assert!(std::rc::Rc::ptr_eq(t, &tree.transactions[0]));
        },
        other => panic!("second child should be the inner transaction, got {:?}", other),
    }
    assert_eq!(tree.events.len(), 1);
    match &tree.message {
        Message::Transaction(t) => assert_eq!(t.ty, "a"),
        other => panic!("representative should be the outer transaction, got {:?}", other),
    }
}

#[test]
fn name_rewrite_system_type() {
    let mut msgs = tx_open(0, "System", "Whatever");
    msgs.extend_from_slice(&tx_close("", "", 0));
    let tree = MessageTree::decode(&record(&[msgs])).unwrap();
    assert_eq!(tree.transactions[0].name, "UploadMetric");
}

#[test]
fn name_rewrite_upload_metric_prefix() {
    let mut msgs = tx_open(0, "Other", "UploadMetricExtra");
    msgs.extend_from_slice(&tx_close("", "", 0));
    let tree = MessageTree::decode(&record(&[msgs])).unwrap();
    assert_eq!(tree.transactions[0].name, "UploadMetric");
}

#[test]
fn name_not_rewritten() {
    let mut msgs = tx_open(0, "Other", "Keep");
    msgs.extend_from_slice(&tx_close("", "", 0));
    let tree = MessageTree::decode(&record(&[msgs])).unwrap();
    assert_eq!(tree.transactions[0].name, "Keep");
}

#[test]
fn header_fields_in_order() {
    let hdr = ["dom", "host", "ip", "tgn", "tid", "tname", "mid", "pmid", "rmid", "tok"];
    let rec = record_with_header(&hdr, &[leaf(b'E', 1, "t", "n", "s", "d")]);
    let tree = MessageTree::decode(&rec).unwrap();
    assert_eq!(tree.domain, "dom");
    assert_eq!(tree.hostname, "host");
    assert_eq!(tree.ip_address, "ip");
    assert_eq!(tree.thread_group_name, "tgn");
    assert_eq!(tree.thread_id, "tid");
    assert_eq!(tree.thread_name, "tname");
    assert_eq!(tree.message_id, "mid");
    assert_eq!(tree.parent_message_id, "pmid");
    assert_eq!(tree.root_message_id, "rmid");
    assert_eq!(tree.session_token, "tok");
}

#[test]
fn representative_prefers_earlier_kinds() {
    let rec = record(&[
        leaf(b'M', 1, "m", "m1", "", ""),
        leaf(b'E', 2, "e", "e1", "", ""),
        leaf(b'M', 3, "m", "m2", "", ""),
    ]);
    let tree = MessageTree::decode(&rec).unwrap();
    match &tree.message {
        Message::Event(e) => assert_eq!(e.name, "e1"),
        other => panic!("events are preferred over metrics, got {:?}", other),
    }
    let rec2 = record(&[leaf(b'H', 1, "h", "h1", "", ""), leaf(b'L', 2, "l", "l1", "", "")]);
    let tree2 = MessageTree::decode(&rec2).unwrap();
    match &tree2.message {
        Message::Heartbeat(h) => assert_eq!(h.name, "h1"),
        other => panic!("heartbeats are preferred over traces, got {:?}", other),
    }
}

#[test]
fn representative_is_last_of_catalogue() {
    let rec = record(&[leaf(b'L', 1, "l", "l1", "", ""), leaf(b'L', 2, "l", "l2", "", "")]);
    let tree = MessageTree::decode(&rec).unwrap();
    match &tree.message {
        Message::Trace(t) => assert_eq!(t.name, "l2"),
        other => panic!("representative should be the last trace, got {:?}", other),
    }
}

#[test]
fn deep_nesting_decodes() {
    let depth: usize = 1000;
    let mut msgs = Vec::new();
    for _ in 0..depth {
        msgs.extend_from_slice(&tx_open(0, "a", "b"));
    }
    for _ in 0..depth {
        msgs.extend_from_slice(&tx_close("", "", 0));
    }
    let tree = MessageTree::decode(&record(&[msgs])).unwrap();
    assert_eq!(tree.transactions.len(), depth);
}

#[test]
fn unknown_version_is_fatal() {
    let mut rec = record(&[leaf(b'E', 0, "t", "n", "s", "d")]);
    rec[2] = b'2';
    assert_eq!(MessageTree::decode(&rec), Err(DecodeError::UnknownVersion));
}

#[test]
fn unknown_tag_is_fatal() {
    let rec = record(&[vec![b'X']]);
    assert_eq!(MessageTree::decode(&rec), Err(DecodeError::UnknownMessageKind));
}

#[test]
fn unterminated_transaction_is_fatal() {
    let rec = record(&[tx_open(0, "a", "b")]);
    assert_eq!(MessageTree::decode(&rec), Err(DecodeError::UnterminatedTransaction));
}

#[test]
fn empty_record_is_empty_tree() {
    let rec = record(&[]);
    assert_eq!(MessageTree::decode(&rec), Err(DecodeError::EmptyTree));
}

#[test]
fn invalid_utf8_in_strict_field_is_fatal() {
    let mut msgs = vec![b'E'];
    msgs.extend_from_slice(&vint(0));
    msgs.extend_from_slice(&[1, 0xFF]);
    msgs.extend_from_slice(&string_field("n"));
    msgs.extend_from_slice(&string_field("s"));
    msgs.extend_from_slice(&string_field("d"));
    let rec = record(&[msgs]);
    assert_eq!(MessageTree::decode(&rec), Err(DecodeError::InvalidUtf8));
}

#[test]
fn invalid_utf8_in_transaction_data_is_lossy() {
    let mut msgs = tx_open(0, "a", "b");
    msgs.push(b'T');
    msgs.extend_from_slice(&string_field("ok"));
    msgs.extend_from_slice(&[1, 0xFF]);
    msgs.extend_from_slice(&vint(0));
    let tree = MessageTree::decode(&record(&[msgs])).unwrap();
    assert_eq!(tree.transactions[0].data, "\u{FFFD}");
}

#[test]
fn truncated_record_is_fatal() {
    let mut rec = record(&[]);
    rec.push(b'E');
    rec.extend_from_slice(&vint(0));
    assert_eq!(MessageTree::decode(&rec), Err(DecodeError::TruncatedStream));
}

#[test]
fn stray_close_tag_ends_record() {
    let mut msgs: Vec<Vec<u8>> = vec![leaf(b'E', 0, "t", "n", "s", "d")];
    msgs.push(vec![b'T']);
    msgs.push(vec![b'X', 1, 2, 3]);
    let tree = MessageTree::decode(&record(&msgs)).unwrap();
    assert_eq!(tree.events.len(), 1);
}

/// Rebuild the wire form of a decoded message, the inverse of the grammar.
fn encode_message(m: &Message) -> Vec<u8> {
    match m {
        Message::Event(e) => leaf(b'E', e.timestamp_in_ms, &e.ty, &e.name, &e.status, &e.data),
        Message::Metric(e) => leaf(b'M', e.timestamp_in_ms, &e.ty, &e.name, &e.status, &e.data),
        Message::Heartbeat(e) => leaf(b'H', e.timestamp_in_ms, &e.ty, &e.name, &e.status, &e.data),
        Message::Trace(e) => leaf(b'L', e.timestamp_in_ms, &e.ty, &e.name, &e.status, &e.data),
        Message::Transaction(t) => {
            let mut out = tx_open(t.timestamp_in_ms, &t.ty, &t.name);
            for c in &t.children {
                out.extend_from_slice(&encode_message(c));
            }
            out.extend_from_slice(&tx_close(&t.status, &t.data, t.duration_in_ms * 1000));
            out
        },
    }
}

#[test]
fn round_trip_reproduces_the_tree() {
    let mut msgs = tx_open(9, "System", "Anything");
    msgs.extend_from_slice(&leaf(b'E', 1, "et", "en", "es", "ed"));
    msgs.extend_from_slice(&tx_open(2, "inner", "UploadMetricAbc"));
    msgs.extend_from_slice(&leaf(b'M', 3, "mt", "mn", "ms", "md"));
    msgs.extend_from_slice(&tx_close("ok", "d", 2500));
    msgs.extend_from_slice(&tx_close("done", "x", 7999));
    let hdr = ["d", "h", "i", "g", "t", "n", "m", "p", "r", "s"];
    let tree = MessageTree::decode(&record_with_header(&hdr, &[msgs])).unwrap();

    // Encode the decoded tree again: the outermost transaction owns every
    // message, so its wire form is the whole message run.
    let rerec = record_with_header(&hdr, &[encode_message(&tree.message)]);
    let tree2 = MessageTree::decode(&rerec).unwrap();
    assert_eq!(tree, tree2);
    assert_eq!(tree2.transactions[1].name, "UploadMetric");
}
