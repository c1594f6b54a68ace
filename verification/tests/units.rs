use dump_cat::decoder::read_varint;
use dump_cat::dumper::MessageTreeDumper;
use dump_cat::errors::DecodeError;
use dump_cat::framing::{try_read_data, FrameOut};
use dump_cat::messages::{InnerEvent, InnerTransaction, Message, MessageTree};
use dump_cat::pipeline::{recv_step, send_step, RecvOutcome, RecvStep, SendOutcome, SendStep};
use std::rc::Rc;

#[test]
fn varint_small_values() {
    for (bytes, v) in [
        (vec![0u8], 0u64),
        (vec![1], 1),
        (vec![127], 127),
        (vec![0x80, 0x01], 128),
        (vec![0xE8, 0x07], 1000),
        (vec![0xFF, 0xFF, 0xFF, 0xFF, 0xFF, 0xFF, 0xFF, 0xFF, 0xFF, 0x01], u64::MAX),
    ] {
        let mut pos = 0usize;
        assert_eq!(read_varint(&bytes, &mut pos), Ok(v));
        assert_eq!(pos, bytes.len());
    }
}

#[test]
fn varint_saturates_to_zero_on_overflow() {
    // Ten continuation bytes push the shift past the word width; the value
    // saturates to zero instead of panicking.
    let mut bytes = vec![0x80u8; 10];
    bytes.push(0x01);
    let mut pos = 0usize;
    assert_eq!(read_varint(&bytes, &mut pos), Ok(0));
    // Saturation also ends the varint early on an overflowing continuation
    // byte.
    let mut bytes2 = vec![0xFFu8; 11];
    bytes2.push(0x00);
    let mut pos2 = 0usize;
    assert_eq!(read_varint(&bytes2, &mut pos2), Ok(0));
}

#[test]
fn varint_truncated_is_fatal() {
    let bytes = vec![0x80u8, 0x80];
    let mut pos = 0usize;
    assert_eq!(read_varint(&bytes, &mut pos), Err(DecodeError::TruncatedStream));
}

#[test]
fn frame_reader_cases() {
    // Clean end of input.
    let data: Vec<u8> = Vec::new();
    let mut pos = 0usize;
    assert!(matches!(try_read_data(&data, &mut pos), FrameOut::Eof));

    // A whole frame.
    let data = vec![0u8, 0, 0, 3, 9, 8, 7];
    let mut pos = 0usize;
    match try_read_data(&data, &mut pos) {
        FrameOut::Data(v) => {
            assert_eq!(v, vec![9, 8, 7]);
            assert_eq!(pos, 7);
        },
        other => panic!("expected a frame, got {:?}", other),
    }

    // A short length prefix.
    let data = vec![0u8, 0];
    let mut pos = 0usize;
    assert!(matches!(try_read_data(&data, &mut pos), FrameOut::Short));

    // A short body.
    let data = vec![0u8, 0, 0, 9, 1, 2];
    let mut pos = 0usize;
    assert!(matches!(try_read_data(&data, &mut pos), FrameOut::Short));

    // A negative length.
    let data = vec![0xFFu8, 0xFF, 0xFF, 0xFF];
    let mut pos = 0usize;
    assert!(matches!(try_read_data(&data, &mut pos), FrameOut::Short));
}

#[test]
fn message_getters() {
    let ev = Rc::new(InnerEvent::new(
        "ty".to_string(),
        "nm".to_string(),
        5000,
        "st".to_string(),
        "da".to_string(),
    ));
    let m = Message::Event(ev);
    assert_eq!(m.status(), "st");
    assert_eq!(m.ty(), "ty");
    assert_eq!(m.name(), "nm");
    assert_eq!(m.ts(), 5);
    assert_eq!(m.duration_in_ms(), None);

    let mut tx = InnerTransaction::new("t".to_string(), "n".to_string(), 1000);
    tx.duration_in_ms = 42;
    let mt = Message::Transaction(Rc::new(tx));
    assert_eq!(mt.duration_in_ms(), Some(42));
    assert_eq!(mt.ts(), 1);
}

#[test]
fn add_child_and_catalogues() {
    let mut tx = InnerTransaction::new("t".to_string(), "n".to_string(), 0);
    let ev = Rc::new(InnerEvent::new(
        "a".to_string(),
        "b".to_string(),
        0,
        "c".to_string(),
        "d".to_string(),
    ));
    tx.add_child(Message::Event(ev.clone()));
    assert_eq!(tx.children.len(), 1);

    let mut tree = MessageTree {
        domain: String::new(),
        hostname: String::new(),
        ip_address: String::new(),
        message: Message::Event(ev.clone()),
        message_id: String::new(),
        parent_message_id: String::new(),
        root_message_id: String::new(),
        session_token: String::new(),
        thread_group_name: String::new(),
        thread_id: String::new(),
        thread_name: String::new(),
        format_message_id: String::new(),
        discard: false,
        process_loss: false,
        hit_sample: false,
        events: Vec::new(),
        transactions: Vec::new(),
        heartbeats: Vec::new(),
        metrics: Vec::new(),
        traces: Vec::new(),
    };
    tree.add_event(ev.clone());
    tree.add_transaction(Rc::new(InnerTransaction::new(
        "t".to_string(),
        "n".to_string(),
        0,
    )));
    assert_eq!(tree.events.len(), 1);
    assert_eq!(tree.transactions.len(), 1);
}

#[test]
fn pipeline_step_decisions() {
    assert_eq!(send_step(&SendOutcome::Sent), SendStep::Proceed);
    assert_eq!(send_step(&SendOutcome::TimedOut), SendStep::RetrySame);
    assert_eq!(send_step(&SendOutcome::Disconnected), SendStep::Stop);
    assert_eq!(recv_step(&RecvOutcome::Received), RecvStep::Work);
    assert_eq!(recv_step(&RecvOutcome::TimedOut), RecvStep::WaitAgain);
    assert_eq!(recv_step(&RecvOutcome::Disconnected), RecvStep::Exit);
}

#[test]
fn dumper_defaults() {
    let d = MessageTreeDumper::new("trees.dat".to_string());
    assert_eq!(d.path, "trees.dat");
    assert_eq!(d.threads, 1);
    assert_eq!(d.block_reader_channel_buffer_size, 10);
    assert_eq!(d.tree_decoder_channel_buffer_size, 10);
}
