use pulse::common::{TraceEvent, EVENT_EXEC, EVENT_EXIT, TRACE_EVENT_SIZE};

#[test]
fn test_ebpf_trace_event_unaligned_memory_decoding() {
    // Construct unaligned raw byte buffer containing serialized TraceEvent
    let event = TraceEvent {
        pid: 9876,
        event_type: EVENT_EXEC,
        comm: *b"sample-comm\0\0\0\0\0",
    };

    let size = TRACE_EVENT_SIZE;
    let mut bytes = vec![0u8; size + 8]; // padded byte buffer

    // Place TraceEvent at an unaligned odd offset (+3)
    let offset = 3;
    let encoded = event.encode();
    bytes[offset..offset + size].copy_from_slice(&encoded);

    let decoded = TraceEvent::decode(&bytes[offset..]).expect("full event");

    assert_eq!(decoded.pid, 9876);
    assert_eq!(decoded.event_type, EVENT_EXEC);
    assert_eq!(&decoded.comm, b"sample-comm\0\0\0\0\0");
}

#[test]
fn decode_of_short_buffer_is_none() {
    assert!(TraceEvent::decode(&[0u8; 23]).is_none());
}

#[test]
fn encode_is_little_endian() {
    let e = TraceEvent { pid: 0x0102_0304, event_type: EVENT_EXIT, comm: [7u8; 16] };
    let b = e.encode();
    assert_eq!(b.len(), 24);
    assert_eq!(&b[0..8], &[4, 3, 2, 1, 1, 0, 0, 0]);
    assert_eq!(&b[8..], &[7u8; 16]);
}

#[test]
fn from_task_takes_the_thread_group_id() {
    let e = TraceEvent::from_task((4321u64 << 32) | 99, EVENT_EXIT, [0u8; 16]);
    assert_eq!(e.pid, 4321);
    assert_eq!(e.event_type, EVENT_EXIT);
}

#[test]
fn comm_text_and_lossy() {
    let e = TraceEvent { pid: 1, event_type: EVENT_EXEC, comm: *b"bash\0\0\0\0\0\0\0\0\0\0\0\0" };
    assert_eq!(e.comm_text(), "bash");
    assert_eq!(e.comm_lossy(), "bash");
    let bad = TraceEvent {
        pid: 1,
        event_type: EVENT_EXEC,
        comm: [0xFF, 0xFE, 0x80, b'b', b'a', b's', b'h', 0, 0, 0, 0, 0, 0, 0, 0, 0],
    };
    assert_eq!(bad.comm_text(), "unknown");
    assert!(bad.comm_lossy().contains("bash"));
    assert_eq!(bad.comm_len(), 7);
}

use pulse::tui::app::{TraceEventKind, TraceEventView};

#[test]
fn test_ebpf_trace_event_view_utf8_lossy_and_null_trimming() {
    // Case 1: Comm with invalid UTF-8 bytes and trailing nulls
    let invalid_utf8_comm = [
        0xFF, 0xFE, 0x80, b'b', b'a', b's', b'h', 0, 0, 0, 0, 0, 0, 0, 0, 0,
    ];
    let event1 = TraceEvent { pid: 1234, event_type: EVENT_EXEC, comm: invalid_utf8_comm };
    let view1 = TraceEventView::from(event1);
    assert_eq!(view1.pid, 1234);
    assert_eq!(view1.kind, TraceEventKind::Exec);
    assert!(view1.comm.contains("bash"));

    // Case 2: Comm without null-terminator (full 16-byte ascii string)
    let full_comm = *b"0123456789abcdef";
    let event2 = TraceEvent { pid: 5678, event_type: EVENT_EXIT, comm: full_comm };
    let view2 = TraceEventView::from(event2);
    assert_eq!(view2.pid, 5678);
    assert_eq!(view2.kind, TraceEventKind::Exit);
    assert_eq!(view2.comm, "0123456789abcdef");

    // Case 3: All-zero comm array
    let zero_comm = [0u8; 16];
    let event3 = TraceEvent { pid: 1, event_type: EVENT_EXEC, comm: zero_comm };
    let view3 = TraceEventView::from(event3);
    assert_eq!(view3.pid, 1);
    assert_eq!(view3.comm, "");
}

#[test]
fn test_ebpf_trace_event_type_classification() {
    let exec_evt = TraceEvent { pid: 10, event_type: EVENT_EXEC, comm: *b"exec-proc\0\0\0\0\0\0\0" };
    let exit_evt = TraceEvent { pid: 20, event_type: EVENT_EXIT, comm: *b"exit-proc\0\0\0\0\0\0\0" };
    let unknown_evt = TraceEvent {
        pid: 30,
        event_type: 999, // Unknown integer type
        comm: *b"unknown-proc\0\0\0\0",
    };

    assert_eq!(TraceEventView::from(exec_evt).kind, TraceEventKind::Exec);
    assert_eq!(TraceEventView::from(exit_evt).kind, TraceEventKind::Exit);
    // Unknown types default safely to Exit (non-Exec) without panic
    assert_eq!(TraceEventView::from(unknown_evt).kind, TraceEventKind::Exit);
}

#[test]
fn lossy_view_replaces_each_invalid_byte() {
    let comm = [0xFF, b'a', 0xC3, 0xA9, 0, 0, 0, 0, 0, 0, 0, 0, 0, 0, 0, 0];
    let view = TraceEventView::from(TraceEvent { pid: 2, event_type: EVENT_EXIT, comm });
    assert_eq!(view.comm, "\u{FFFD}a\u{e9}");
}

#[test]
fn decode_inverts_encode() {
    let e = TraceEvent { pid: 0xDEAD_BEEF, event_type: 7, comm: *b"abcdefghijklmnop" };
    let d = TraceEvent::decode(&e.encode()).expect("decodes");
    assert_eq!((d.pid, d.event_type, d.comm), (e.pid, e.event_type, e.comm));
}
