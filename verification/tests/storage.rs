use rocketmq::routing::exchange::ExchangeType;
use rocketmq::storage::replay::{
    collect_acked_ids, decode_declare_exchange, decode_enqueue, replay, ReplayError,
    ReplayReader,
};
use rocketmq::storage::stream::{resolve_stream_offset, StreamStore};
use rocketmq::storage::wal::{
    ack_payload, bind_payload, crc32, declare_exchange_payload, declare_queue_payload,
    encode_entry, enqueue_payload, needs_rotation, parse_entries, read_enqueue_record,
    EntryType, RecordError, WalEntry, WalWriter,
};

#[test]
fn append_and_read_single_message() {
    let mut store = StreamStore::new(1024, 0);
    let offset = store.append(b"hello".to_vec(), 0);
    assert_eq!(offset, 0);
    let msg = store.read(0).unwrap();
    assert_eq!(msg.body, b"hello");
    assert_eq!(msg.offset, 0);
}

#[test]
fn append_multiple_messages() {
    let mut store = StreamStore::new(1024, 0);
    let o1 = store.append(b"one".to_vec(), 0);
    let o2 = store.append(b"two".to_vec(), 0);
    let o3 = store.append(b"three".to_vec(), 0);
    assert_eq!(o1, 0);
    assert_eq!(o2, 1);
    assert_eq!(o3, 2);
    assert_eq!(store.total_messages(), 3);
}

#[test]
fn read_range_returns_subset() {
    let mut store = StreamStore::new(1024, 0);
    for i in 0..10 {
        store.append(format!("msg-{}", i).into_bytes(), 0);
    }
    let batch = store.read_range(3, 4);
    assert_eq!(batch.len(), 4);
    assert_eq!(batch[0].offset, 3);
    assert_eq!(batch[3].offset, 6);
}

#[test]
fn segment_rolls_when_full() {
    let mut store = StreamStore::new(10, 0);
    store.append(vec![0u8; 20], 0);
    store.append(vec![0u8; 5], 0);
    assert!(store.segment_count() >= 2);
}

#[test]
fn size_based_retention_evicts_oldest() {
    let mut store = StreamStore::new(25, 0);
    store.retention.max_age = None;
    store.retention.max_bytes = Some(60);
    store.append(vec![0u8; 30], 0);
    store.append(vec![0u8; 30], 0);
    store.append(vec![0u8; 30], 0);
    assert_eq!(store.segment_count(), 3);
    assert_eq!(store.total_bytes(), 90);
    store.apply_retention(0);
    assert!(store.segment_count() <= 2);
    assert!(store.total_bytes() <= 60, "Expected <= 60 bytes, got {}", store.total_bytes());
}

#[test]
fn first_and_last_offset() {
    let mut store = StreamStore::new(1024, 0);
    assert_eq!(store.first_offset(), 0);
    assert_eq!(store.last_offset(), 0);
    store.append(b"a".to_vec(), 0);
    store.append(b"b".to_vec(), 0);
    assert_eq!(store.first_offset(), 0);
    assert_eq!(store.last_offset(), 1);
}

#[test]
fn resolve_offset_variants() {
    let mut store = StreamStore::new(1024, 0);
    store.append(b"a".to_vec(), 0);
    store.append(b"b".to_vec(), 0);
    store.append(b"c".to_vec(), 0);
    assert_eq!(resolve_stream_offset("first", &store), 0);
    assert_eq!(resolve_stream_offset("last", &store), 2);
    assert_eq!(resolve_stream_offset("next", &store), 3);
    assert_eq!(resolve_stream_offset("1", &store), 1);
    assert_eq!(resolve_stream_offset("invalid", &store), 0);
}

#[test]
fn read_nonexistent_offset_returns_none() {
    let store = StreamStore::new(1024, 0);
    assert!(store.read(999).is_none());
}

#[test]
fn time_based_retention_keeps_active_segment() {
    let mut store = StreamStore::new(10, 0);
    store.retention.max_bytes = None;
    store.retention.max_age = Some(1_000);
    store.append(vec![1; 20], 0);
    store.append(vec![2; 20], 5_000);
    store.apply_retention(5_500);
    assert_eq!(store.segment_count(), 1);
    assert!(store.read(0).is_none());
    assert_eq!(store.read(1).unwrap().body, vec![2; 20]);
}

// ─── Write-ahead-log records ──────────────────────────────────────────

#[test]
fn wal_entry_framing_exact_bytes() {
    let data = ack_payload(7);
    let entry = encode_entry(EntryType::Ack, &data);
    assert_eq!(&entry[0..4], &[0, 0, 0, 9]);
    let mut body = vec![3u8];
    body.extend_from_slice(&data);
    assert_eq!(&entry[4..8], &crc32(&body).to_be_bytes());
    assert_eq!(entry[8], 3);
    assert_eq!(&entry[9..], &[0, 0, 0, 0, 0, 0, 0, 7]);
}

#[test]
fn wal_entries_parse_back_and_stop_at_corruption() {
    let mut log = encode_entry(EntryType::DeclareQueue, &declare_queue_payload("q", true));
    log.extend(encode_entry(EntryType::Ack, &ack_payload(5)));
    let good = parse_entries(&log);
    assert_eq!(good.len(), 2);
    assert_eq!(good[0].entry_type, EntryType::DeclareQueue);
    assert_eq!(good[1].data, ack_payload(5));
    let last = log.len() - 1;
    log[last] ^= 0xff;
    assert_eq!(parse_entries(&log).len(), 1);
}

#[test]
fn wal_enqueue_record_reads_back() {
    let payload = enqueue_payload("q", 9, "ex", "rk", b"h", b"body");
    let entry = encode_entry(EntryType::Enqueue, &payload);
    let (h, b) = read_enqueue_record(&entry).unwrap();
    assert_eq!(h, b"h");
    assert_eq!(b, b"body");
    let mut bad = entry.clone();
    bad[5] ^= 1;
    assert_eq!(read_enqueue_record(&bad).unwrap_err(), RecordError::CrcMismatch);
    let ack = encode_entry(EntryType::Ack, &ack_payload(1));
    assert_eq!(read_enqueue_record(&ack).unwrap_err(), RecordError::NotEnqueue);
    assert_eq!(read_enqueue_record(&[0; 4]).unwrap_err(), RecordError::Truncated);
}

#[test]
fn wal_rotation_threshold() {
    assert!(!needs_rotation(0, 10, 19));
    assert!(needs_rotation(1, 10, 19));
    assert!(needs_rotation(0, 100, 5));
}

#[test]
fn wal_writer_layout() {
    let mut w = WalWriter::with_capacity(4);
    w.write_str_u16("ab");
    w.write_bytes_u32(b"c");
    w.write_u8(7);
    w.write_u64(1);
    assert_eq!(w.finish(), vec![0, 2, b'a', b'b', 0, 0, 0, 1, b'c', 7, 0, 0, 0, 0, 0, 0, 0, 1]);
}

#[test]
fn entry_type_bytes_roundtrip() {
    for t in [EntryType::DeclareQueue, EntryType::Enqueue, EntryType::Ack, EntryType::DeclareExchange, EntryType::Bind] {
        assert_eq!(EntryType::try_from(t.to_byte()), Ok(t));
    }
    assert!(EntryType::try_from(0).is_err());
    assert!(EntryType::try_from(6).is_err());
}

// ─── Recovery ─────────────────────────────────────────────────────────

fn entry(t: EntryType, data: Vec<u8>) -> WalEntry {
    WalEntry { entry_type: t, data }
}

#[test]
fn replay_restores_unacked_messages_of_durable_queues() {
    let entries = vec![
        entry(EntryType::DeclareQueue, declare_queue_payload("orders", true)),
        entry(EntryType::DeclareQueue, declare_queue_payload("scratch", false)),
        entry(EntryType::Enqueue, enqueue_payload("orders", 1, "amq.direct", "orders", b"", b"one")),
        entry(EntryType::Enqueue, enqueue_payload("orders", 2, "amq.direct", "orders", b"", b"two")),
        entry(EntryType::Enqueue, enqueue_payload("scratch", 3, "", "scratch", b"", b"lost")),
        entry(EntryType::Ack, ack_payload(1)),
        entry(EntryType::DeclareExchange, declare_exchange_payload("events", 2, true)),
        entry(EntryType::DeclareExchange, declare_exchange_payload("temp", 1, false)),
        entry(EntryType::Bind, bind_payload("events", "orders", "order.*")),
    ];
    let st = replay(&entries);
    assert_eq!(st.queues.len(), 1);
    assert_eq!(st.queues[0].name, "orders");
    assert_eq!(st.queues[0].messages.len(), 1);
    let m = &st.queues[0].messages[0];
    assert_eq!(m.id, 2);
    assert_eq!(m.body, b"two");
    assert!(m.redelivered);
    assert_eq!(st.exchanges.len(), 6);
    let events = st.exchanges.iter().find(|e| e.name == "events").unwrap();
    assert_eq!(events.kind, ExchangeType::Topic);
    assert_eq!(events.bindings.len(), 1);
    assert_eq!(events.bindings[0].routing_key, "order.*");
    let default = st.exchanges.iter().find(|e| e.name.is_empty()).unwrap();
    assert_eq!(default.bindings.len(), 1);
    assert_eq!(default.bindings[0].queue_name, "orders");
    assert!(st.exchanges.iter().all(|e| e.name != "temp"));
}

#[test]
fn replay_skips_unreadable_entries() {
    let entries = vec![
        entry(EntryType::DeclareQueue, vec![0, 9, b'x']),
        entry(EntryType::DeclareExchange, declare_exchange_payload("bad", 9, true)),
    ];
    let st = replay(&entries);
    assert!(st.queues.is_empty());
    assert_eq!(st.exchanges.len(), 5);
}

#[test]
fn acked_ids_and_enqueue_decoding() {
    let entries = vec![
        entry(EntryType::Ack, ack_payload(4)),
        entry(EntryType::Ack, vec![1, 2]),
        entry(EntryType::Ack, ack_payload(8)),
    ];
    assert_eq!(collect_acked_ids(&entries), vec![4, 8]);
    let data = enqueue_payload("q", 4, "", "q", b"", b"x");
    assert!(matches!(decode_enqueue(&data, &[4]), Ok(None)));
    let rec = decode_enqueue(&data, &[5]).unwrap().unwrap();
    assert_eq!(rec.queue, "q");
    assert_eq!(rec.body, b"x");
    assert_eq!(decode_enqueue(&data[..5], &[]).unwrap_err(), ReplayError::UnexpectedEof);
    assert_eq!(
        decode_declare_exchange(&declare_exchange_payload("e", 7, true)).unwrap_err(),
        ReplayError::InvalidExchangeType(7)
    );
    assert!(matches!(decode_declare_exchange(&declare_exchange_payload("e", 7, false)), Ok(None)));
}

#[test]
fn replay_reader_reads_in_sequence() {
    let data = [0u8, 2, b'h', b'i', 0, 0, 0, 1, 9];
    let mut r = ReplayReader::new(&data);
    assert_eq!(r.read_string_u16().unwrap(), "hi");
    assert_eq!(r.read_u32().unwrap(), 1);
    assert_eq!(r.read_u8().unwrap(), 9);
    assert_eq!(r.read_u8().unwrap_err(), ReplayError::UnexpectedEof);
    let bad = [0u8, 1, 0xff];
    assert_eq!(ReplayReader::new(&bad).read_string_u16().unwrap_err(), ReplayError::InvalidUtf8);
}

use rocketmq::storage::compaction::compact;

#[test]
fn compaction_drops_acknowledged_messages_and_their_acks() {
    let entries = vec![
        entry(EntryType::DeclareQueue, declare_queue_payload("orders", true)),
        entry(EntryType::Enqueue, enqueue_payload("orders", 1, "amq.direct", "orders", b"", b"one")),
        entry(EntryType::Enqueue, enqueue_payload("orders", 2, "amq.direct", "orders", b"", b"two")),
        entry(EntryType::Ack, ack_payload(1)),
        entry(EntryType::Ack, vec![1, 2]),
        entry(EntryType::Bind, bind_payload("amq.direct", "orders", "orders")),
    ];
    assert!(compact(&entries, 7).is_none());
    let (kept, removed) = compact(&entries, 6).unwrap();
    assert_eq!(removed, 2);
    let kinds: Vec<EntryType> = kept.iter().map(|e| e.entry_type).collect();
    assert_eq!(
        kinds,
        vec![EntryType::DeclareQueue, EntryType::Enqueue, EntryType::Ack, EntryType::Bind]
    );
    assert_eq!(kept[1].data, entries[2].data);
    // Recovery gives the same queues and messages before and after.
    let before = replay(&entries);
    let after = replay(&kept);
    assert_eq!(before.queues.len(), after.queues.len());
    assert_eq!(before.queues[0].messages.len(), 1);
    assert_eq!(after.queues[0].messages.len(), 1);
    assert_eq!(after.queues[0].messages[0].id, 2);
    assert_eq!(before.exchanges.len(), after.exchanges.len());
}

#[test]
fn compaction_needs_acknowledgements() {
    let entries = vec![
        entry(EntryType::DeclareQueue, declare_queue_payload("orders", true)),
        entry(EntryType::Enqueue, enqueue_payload("orders", 1, "", "orders", b"", b"one")),
    ];
    assert!(compact(&entries, 0).is_none());
}

#[test]
fn crc32_check_value() {
    assert_eq!(crc32(b"123456789"), 0xCBF4_3926);
    assert_eq!(crc32(b""), 0);
}
