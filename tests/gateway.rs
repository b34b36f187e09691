use flodgatt::buffer::InputBuffer;
use flodgatt::cache::{TagIdCache, TagNameCache};
use flodgatt::channel::{channel_matches_namespace, channel_name, timeline_from_channel, ChannelError};
use flodgatt::command::{encode_command, CommandKind};
use flodgatt::event::{event_from_json, DecodeError, EventKind};
use flodgatt::manager::{ping_due, Manager, Polled};
use flodgatt::table::{Inserted, Removed, SubscriptionTable};
use flodgatt::timeline::Timeline;
use flodgatt::wire::{parse_frame, resync_len, ParseOutcome};

fn msg(channel: &str, payload: &str) -> Vec<u8> {
    format!(
        "*3\r\n$7\r\nmessage\r\n${}\r\n{}\r\n${}\r\n{}\r\n",
        channel.len(),
        channel,
        payload.len(),
        payload
    )
    .into_bytes()
}

const UPDATE: &str = "{\"event\":\"update\",\"payload\":{\"id\":\"1\"}}";

fn deliver(p: Polled) -> (Timeline, EventKind, Vec<u8>, Vec<u32>) {
    match p {
        Polled::Deliver { timeline, event, channels } => (timeline, event.kind, event.payload, channels),
        _ => panic!("expected a delivery"),
    }
}

#[test]
fn split_frame_is_decoded_after_second_chunk() {
    let first = b"*3\r\n$7\r\nmessage\r\n$15\r\ntimeline:pub";
    let second = b"lic\r\n$5\r\nhello\r\n";
    assert!(matches!(parse_frame(first), ParseOutcome::Incomplete));
    let mut whole = first.to_vec();
    whole.extend_from_slice(second);
    match parse_frame(&whole) {
        ParseOutcome::Message { channel, payload, consumed } => {
            assert_eq!(channel, b"timeline:public".to_vec());
            assert_eq!(payload, b"hello".to_vec());
            assert_eq!(consumed, whole.len());
        }
        _ => panic!("expected a message"),
    }
    let mut ids = TagIdCache::new(10);
    assert_eq!(timeline_from_channel(b"timeline:public", &mut ids), Ok(Timeline::Public));
}

#[test]
fn split_frame_through_the_manager() {
    let mut m = Manager::new(Vec::new(), 64, 10);
    let s = m.subscribe(Timeline::Public, None).unwrap();
    let bytes = msg("timeline:public", UPDATE);
    let (a, b) = bytes.split_at(20);
    m.receive(a);
    assert!(matches!(m.poll(&vec![s.channel]), Polled::NeedMore));
    m.receive(b);
    let (tl, kind, payload, chans) = deliver(m.poll(&vec![s.channel]));
    assert_eq!(tl, Timeline::Public);
    assert_eq!(kind, EventKind::Update);
    assert_eq!(payload, b"{\"id\":\"1\"}".to_vec());
    assert_eq!(chans, vec![s.channel]);
    assert_eq!(m.backpressure(), 0);
    assert!(matches!(m.poll(&vec![s.channel]), Polled::NeedMore));
}

#[test]
fn single_chunk_and_many_chunks_agree() {
    let bytes = msg("timeline:public", UPDATE);
    let mut one = Manager::new(Vec::new(), 16, 10);
    let c1 = one.subscribe(Timeline::Public, None).unwrap().channel;
    one.receive(&bytes);
    let r1 = deliver(one.poll(&vec![c1]));
    let mut many = Manager::new(Vec::new(), 16, 10);
    let c2 = many.subscribe(Timeline::Public, None).unwrap().channel;
    let mut got = None;
    for b in bytes.iter() {
        many.receive(&[*b]);
        match many.poll(&vec![c2]) {
            Polled::NeedMore => {}
            other => got = Some(deliver(other)),
        }
    }
    assert_eq!(got, Some(r1));
    assert_eq!(one.backpressure(), many.backpressure());
}

#[test]
fn namespace_mismatch_is_skipped() {
    let mut m = Manager::new(b"ns".to_vec(), 256, 10);
    let c = m.subscribe(Timeline::Public, None).unwrap().channel;
    m.receive(&msg("other:timeline:public", UPDATE));
    assert!(matches!(m.poll(&vec![c]), Polled::Skipped));
    assert!(matches!(m.poll(&vec![c]), Polled::NeedMore));
    assert_eq!(channel_matches_namespace(b"other:timeline:public", b"ns"), None);
    assert_eq!(channel_matches_namespace(b"ns:timeline:public", b"ns"), Some(b"timeline:public".to_vec()));
    assert_eq!(channel_matches_namespace(b"timeline:public", b""), Some(b"timeline:public".to_vec()));
}

#[test]
fn backpressure_keeps_the_message() {
    let mut m = Manager::new(Vec::new(), 256, 10);
    let a = m.subscribe(Timeline::Public, None).unwrap().channel;
    let b = m.subscribe(Timeline::Public, None).unwrap().channel;
    m.receive(&msg("timeline:public", UPDATE));
    match m.poll(&vec![a]) {
        Polled::Backpressure { timeline } => assert_eq!(timeline, Timeline::Public),
        _ => panic!("expected backpressure"),
    }
    match m.poll(&vec![a]) {
        Polled::Backpressure { .. } => {}
        _ => panic!("expected backpressure again"),
    }
    let (tl, _, _, chans) = deliver(m.poll(&vec![a, b]));
    assert_eq!(tl, Timeline::Public);
    assert_eq!(chans, vec![a, b]);
}

#[test]
fn first_and_last_subscriber_drive_commands() {
    let mut m = Manager::new(b"ns".to_vec(), 256, 10);
    let sub_a = m.subscribe(Timeline::Hashtag(7), Some(b"x".to_vec())).unwrap();
    assert_eq!(
        sub_a.command,
        Some(b"*2\r\n$9\r\nSUBSCRIBE\r\n$21\r\nns:timeline:hashtag:x\r\n".to_vec())
    );
    let sub_b = m.subscribe(Timeline::Hashtag(7), Some(b"x".to_vec())).unwrap();
    assert_eq!(sub_b.command, None);
    assert!(!sub_a.unknown_tag && !sub_b.unknown_tag);
    let first = m.ping_sweep(&vec![sub_a.channel]);
    assert!(first.emptied.is_empty());
    assert_eq!(first.command, None);
    assert_eq!(m.count(), 1);
    let second = m.ping_sweep(&vec![sub_b.channel]);
    assert_eq!(second.emptied, vec![Timeline::Hashtag(7)]);
    assert_eq!(
        second.command,
        Some(b"*2\r\n$11\r\nUNSUBSCRIBE\r\n$21\r\nns:timeline:hashtag:x\r\n".to_vec())
    );
    assert_eq!(m.count(), 0);
    let third = m.ping_sweep(&vec![]);
    assert_eq!(third.command, None);
}

#[test]
fn malformed_frame_resyncs_to_the_next_message() {
    let mut m = Manager::new(Vec::new(), 256, 10);
    let c = m.subscribe(Timeline::Public, None).unwrap().channel;
    let mut bytes = b"garbage\r\n".to_vec();
    bytes.extend(msg("timeline:public", UPDATE));
    m.receive(&bytes);
    assert!(matches!(m.poll(&vec![c]), Polled::Malformed));
    let (tl, kind, _, _) = deliver(m.poll(&vec![c]));
    assert_eq!(tl, Timeline::Public);
    assert_eq!(kind, EventKind::Update);
    let raw = b"garbage\r\n*3\r\n$7\r\nmessage\r\n$15\r\ntimeline:public\r\n$2\r\nhi\r\n";
    assert!(matches!(parse_frame(raw), ParseOutcome::Malformed));
    assert_eq!(resync_len(raw), 9);
    match parse_frame(&raw[9..]) {
        ParseOutcome::Message { payload, .. } => assert_eq!(payload, b"hi".to_vec()),
        _ => panic!("expected a message"),
    }
}

#[test]
fn compaction_moves_the_unread_suffix_to_the_front() {
    let mut b = InputBuffer::new(8);
    b.receive(b"abcdefgh");
    b.advance(6);
    b.compact();
    assert_eq!(b.read_start(), 0);
    assert_eq!(b.window(), b"gh");
    assert_eq!(b.capacity(), 8);
    let mut c = InputBuffer::new(8);
    c.receive(b"abcdefgh");
    c.advance(2);
    c.compact();
    assert_eq!(c.read_start(), 0);
    assert_eq!(c.window(), b"cdefgh");
    assert_eq!(c.capacity(), 8);
}

#[test]
fn receive_grows_the_buffer_when_needed() {
    let mut b = InputBuffer::new(4);
    b.receive(b"abc");
    b.advance(1);
    b.receive(b"defghij");
    assert_eq!(b.window(), b"bcdefghij");
    assert_eq!(b.read_start(), 0);
    assert_eq!(b.capacity(), 16);
}

#[test]
fn non_message_frames_are_consumed() {
    let ack = b"*3\r\n$9\r\nsubscribe\r\n$15\r\ntimeline:public\r\n:1\r\n";
    match parse_frame(ack) {
        ParseOutcome::NonMessage { consumed } => assert_eq!(consumed, ack.len()),
        _ => panic!("expected a non-message"),
    }
    assert!(matches!(parse_frame(b"+PONG\r\n"), ParseOutcome::NonMessage { consumed: 7 }));
    assert!(matches!(parse_frame(b":12\r\n"), ParseOutcome::NonMessage { consumed: 5 }));
    assert!(matches!(parse_frame(b"$3\r\nab"), ParseOutcome::Incomplete));
    assert!(matches!(parse_frame(b"$3\r\nabcd\r\n"), ParseOutcome::Malformed));
    assert!(matches!(parse_frame(b"$x\r\n"), ParseOutcome::Malformed));
    assert!(matches!(parse_frame(b""), ParseOutcome::Incomplete));
}

#[test]
fn payload_length_prefix_bounds_binary_payloads() {
    let mut bytes = b"*3\r\n$7\r\nmessage\r\n$15\r\ntimeline:public\r\n$4\r\n".to_vec();
    bytes.extend_from_slice(&[0xff, 0x0d, 0x0a, 0xfe]);
    bytes.extend_from_slice(b"\r\n");
    match parse_frame(&bytes) {
        ParseOutcome::Message { payload, consumed, .. } => {
            assert_eq!(payload, vec![0xff, 0x0d, 0x0a, 0xfe]);
            assert_eq!(consumed, bytes.len());
        }
        _ => panic!("expected a message"),
    }
}

#[test]
fn channel_names_round_trip() {
    let mut names = TagNameCache::new(10);
    let mut ids = TagIdCache::new(10);
    names.put(42, b"rust".to_vec());
    ids.put(b"rust".to_vec(), 42);
    let cases = vec![
        (Timeline::Public, "timeline:public"),
        (Timeline::PublicLocal, "timeline:public:local"),
        (Timeline::User(105), "timeline:105"),
        (Timeline::UserNotification(9), "timeline:9:notification"),
        (Timeline::Hashtag(42), "timeline:hashtag:rust"),
        (Timeline::HashtagLocal(42), "timeline:hashtag:rust:local"),
        (Timeline::List(30), "timeline:list:30"),
        (Timeline::Direct(0), "timeline:direct:0"),
    ];
    for (tl, name) in cases {
        assert_eq!(channel_name(b"", tl, &mut names), Some(name.as_bytes().to_vec()));
        assert_eq!(timeline_from_channel(name.as_bytes(), &mut ids), Ok(tl));
    }
    assert_eq!(channel_name(b"ns", Timeline::User(18446744073709551615), &mut names),
        Some(b"ns:timeline:18446744073709551615".to_vec()));
    assert_eq!(channel_name(b"", Timeline::Hashtag(1), &mut names), None);
}

#[test]
fn channel_name_errors() {
    let mut ids = TagIdCache::new(10);
    assert_eq!(timeline_from_channel(b"timeline:hashtag:nope", &mut ids), Err(ChannelError::UnknownHashtag));
    assert_eq!(timeline_from_channel(b"timeline:list:x", &mut ids), Err(ChannelError::BadChannel));
    assert_eq!(timeline_from_channel(b"stream:public", &mut ids), Err(ChannelError::BadChannel));
    assert_eq!(timeline_from_channel(b"timeline:18446744073709551616", &mut ids), Err(ChannelError::BadChannel));
    assert_eq!(timeline_from_channel(b"timeline:18446744073709551615", &mut ids), Ok(Timeline::User(u64::MAX)));
}

#[test]
fn events_decode_from_json() {
    let e = event_from_json(b"{\"event\":\"delete\",\"payload\":\"123\"}").unwrap();
    assert_eq!(e.kind, EventKind::Delete);
    assert_eq!(e.payload, b"\"123\"".to_vec());
    let f = event_from_json(b"{\"event\":\"filters_changed\"}").unwrap();
    assert_eq!(f.kind, EventKind::FilterChange);
    assert!(f.payload.is_empty());
    assert_eq!(event_from_json(b"{\"event\":\"bogus\",\"payload\":1}").unwrap_err(), DecodeError::UnknownEvent);
    assert_eq!(event_from_json(b"{\"event\":\"update\"}").unwrap_err(), DecodeError::MissingPayload);
    assert_eq!(event_from_json(b"hello").unwrap_err(), DecodeError::NotAnEvent);
    assert_eq!(event_from_json(b"{\"event\":3}").unwrap_err(), DecodeError::NotAnEvent);
}

#[test]
fn undecodable_messages_are_consumed() {
    let mut m = Manager::new(Vec::new(), 256, 10);
    let c = m.subscribe(Timeline::Public, None).unwrap().channel;
    m.receive(&msg("timeline:public", "hello"));
    assert!(matches!(m.poll(&vec![c]), Polled::BadEvent(DecodeError::NotAnEvent)));
    m.receive(&msg("timeline:hashtag:unknown", UPDATE));
    assert!(matches!(m.poll(&vec![c]), Polled::BadChannel(ChannelError::UnknownHashtag)));
    assert!(matches!(m.poll(&vec![c]), Polled::NeedMore));
}

#[test]
fn events_keep_bus_order() {
    let mut m = Manager::new(Vec::new(), 32, 10);
    let c = m.subscribe(Timeline::Public, None).unwrap().channel;
    let mut bytes = msg("timeline:public", "{\"event\":\"delete\",\"payload\":\"1\"}");
    bytes.extend(msg("timeline:public", "{\"event\":\"delete\",\"payload\":\"2\"}"));
    m.receive(&bytes);
    assert_eq!(deliver(m.poll(&vec![c])).2, b"\"1\"".to_vec());
    assert!(matches!(m.poll(&vec![]), Polled::Backpressure { .. }));
    assert_eq!(deliver(m.poll(&vec![c])).2, b"\"2\"".to_vec());
}

#[test]
fn subscription_table_transitions() {
    let mut t = SubscriptionTable::new();
    assert_eq!(t.insert(Timeline::Public, 0), Inserted::FirstForTimeline);
    assert_eq!(t.insert(Timeline::Public, 1), Inserted::AlreadySubscribed);
    assert_eq!(t.insert(Timeline::List(3), 2), Inserted::FirstForTimeline);
    assert!(t.contains(Timeline::Public));
    assert_eq!(t.channels_of(Timeline::Public), vec![0, 1]);
    assert_eq!(t.sweep(&vec![0, 2]), vec![Timeline::List(3)]);
    assert!(!t.contains(Timeline::List(3)));
    assert_eq!(t.sweep(&vec![1]), vec![Timeline::Public]);
    assert_eq!(t.len(), 0);
}

#[test]
fn commands_encode_as_bulk_arrays() {
    assert_eq!(encode_command(CommandKind::Ping, &vec![b"x".to_vec()]), b"*1\r\n$4\r\nPING\r\n".to_vec());
    assert_eq!(
        encode_command(CommandKind::Subscribe, &vec![b"a".to_vec(), b"bc".to_vec()]),
        b"*3\r\n$9\r\nSUBSCRIBE\r\n$1\r\na\r\n$2\r\nbc\r\n".to_vec()
    );
}

#[test]
fn ping_interval() {
    assert!(!ping_due(30000));
    assert!(ping_due(30001));
}

#[test]
fn backpressure_report_in_kib() {
    let mut m = Manager::new(Vec::new(), 8, 10);
    assert_eq!(m.capacity(), 8);
    m.receive(&vec![b'$'; 3000]);
    assert_eq!(m.backpressure(), 2);
    assert_eq!(m.unread_len(), 3000);
}

#[test]
fn list_is_right_aligned() {
    let mut m = Manager::new(Vec::new(), 64, 10);
    m.subscribe(Timeline::Public, None).unwrap();
    m.subscribe(Timeline::List(12), None).unwrap();
    m.subscribe(Timeline::Public, None).unwrap();
    let text = String::from_utf8(m.list()).unwrap();
    assert_eq!(text, "  Public: 2\nList(12): 1\n\n*may include recently disconnected clients");
}

#[test]
fn shutdown_unsubscribes_every_timeline() {
    let mut m = Manager::new(Vec::new(), 64, 10);
    assert_eq!(m.unsubscribe_all(), None);
    m.subscribe(Timeline::Public, None).unwrap();
    m.subscribe(Timeline::Direct(5), None).unwrap();
    assert_eq!(
        m.unsubscribe_all(),
        Some(b"*3\r\n$11\r\nUNSUBSCRIBE\r\n$15\r\ntimeline:public\r\n$17\r\ntimeline:direct:5\r\n".to_vec())
    );
}

#[test]
fn rewind_returns_to_the_previous_frame() {
    let mut b = InputBuffer::new(64);
    let mut bytes = b"+OK\r\n".to_vec();
    bytes.extend(msg("timeline:public", "x"));
    b.receive(&bytes);
    b.advance(bytes.len());
    b.rewind();
    assert_eq!(b.read_start(), 5);
    assert_eq!(b.window(), &bytes[5..]);
    b.rewind();
    assert_eq!(b.read_start(), 0);
    assert_eq!(b.window(), &bytes[..]);
}

#[test]
fn remove_channel_reports_the_last_one() {
    let mut t = SubscriptionTable::new();
    t.insert(Timeline::Public, 0);
    t.insert(Timeline::Public, 1);
    assert_eq!(t.remove_channel(Timeline::Public, 5), Removed::Unknown);
    assert_eq!(t.remove_channel(Timeline::List(1), 0), Removed::Unknown);
    assert_eq!(t.remove_channel(Timeline::Public, 0), Removed::StillSubscribed);
    assert_eq!(t.remove_channel(Timeline::Public, 1), Removed::LastForTimeline);
    assert!(!t.contains(Timeline::Public));
}

#[test]
fn subscribe_then_unsubscribe_leaves_the_table_empty() {
    let mut m = Manager::new(b"ns".to_vec(), 64, 10);
    let s = m.subscribe(Timeline::Public, None).unwrap();
    assert_eq!(s.command, Some(b"*2\r\n$9\r\nSUBSCRIBE\r\n$18\r\nns:timeline:public\r\n".to_vec()));
    assert_eq!(
        m.unsubscribe(Timeline::Public, s.channel),
        Some(b"*2\r\n$11\r\nUNSUBSCRIBE\r\n$18\r\nns:timeline:public\r\n".to_vec())
    );
    assert_eq!(m.count(), 0);
    assert_eq!(m.unsubscribe(Timeline::Public, s.channel), None);
    let again = m.subscribe(Timeline::Public, None).unwrap();
    assert_eq!(again.channel, s.channel + 1);
}

#[test]
fn hashtag_without_known_name_gets_no_command() {
    let mut m = Manager::new(Vec::new(), 64, 10);
    let s = m.subscribe(Timeline::Hashtag(3), None).unwrap();
    assert_eq!(s.command, None);
    assert!(s.unknown_tag);
    assert_eq!(m.count(), 1);
    let again = m.subscribe(Timeline::Hashtag(3), None).unwrap();
    assert!(!again.unknown_tag);
    let swept = m.ping_sweep(&vec![s.channel, again.channel]);
    assert_eq!(swept.emptied, vec![Timeline::Hashtag(3)]);
    assert_eq!(swept.command, None);
    assert!(swept.unknown_tag);
}
