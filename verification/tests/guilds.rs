use gateway_proxy::forward::{rewrite_sequence, Delivery, Forwarder, Passage};
use gateway_proxy::event::SequenceInfo;
use gateway_proxy::guilds::{GuildDispatch, GuildRecord, GuildTracker};
use gateway_proxy::ready::{copy_members, push_guild_stub, JsonMember, ReadyPayload, ReadySnapshot};

fn member(key: &str, value: &str) -> JsonMember {
    JsonMember { key: key.as_bytes().to_vec(), value: value.as_bytes().to_vec() }
}

fn text(frame: &[u8]) -> String {
    String::from_utf8(frame.to_vec()).unwrap()
}

fn stored_ready() -> ReadySnapshot {
    ReadySnapshot::new(vec![
        member("\"user\"", "{\"id\":\"1\"}"),
        member("\"guilds\"", "[{\"id\":\"1\"}]"),
    ])
}

fn entries(tracker: &GuildTracker) -> Vec<GuildRecord> {
    (0..tracker.len()).map(|at| tracker.record(at).clone()).collect()
}

fn record(id: u64, unavailable: bool, snapshot: &str) -> GuildRecord {
    GuildRecord { id, unavailable, snapshot: snapshot.as_bytes().to_vec() }
}

#[test]
fn a_new_tracker_knows_no_guild() {
    let tracker = GuildTracker::new();
    assert_eq!(tracker.len(), 0);
    assert_eq!(tracker.position(1), None);
}

#[test]
fn guild_create_inserts() {
    let mut tracker = GuildTracker::new();
    tracker.insert(5, b"{\"id\":\"5\"}".to_vec());
    tracker.insert(9, b"{\"id\":\"9\"}".to_vec());
    assert_eq!(
        entries(&tracker),
        vec![record(5, false, "{\"id\":\"5\"}"), record(9, false, "{\"id\":\"9\"}")]
    );
    assert_eq!(tracker.position(9), Some(1));
    assert_eq!(tracker.position(7), None);
}

#[test]
fn guild_create_replaces_and_makes_available() {
    let mut tracker = GuildTracker::new();
    tracker.insert(5, b"old".to_vec());
    tracker.insert(9, b"nine".to_vec());
    tracker.remove(5, true);
    tracker.insert(5, b"new".to_vec());
    assert_eq!(entries(&tracker), vec![record(5, false, "new"), record(9, false, "nine")]);
}

#[test]
fn guild_update_changes_the_data_in_place() {
    let mut tracker = GuildTracker::new();
    tracker.insert(5, b"five".to_vec());
    tracker.insert(9, b"nine".to_vec());
    tracker.remove(9, true);
    tracker.update(9, b"nine again".to_vec());
    tracker.update(5, b"five again".to_vec());
    assert_eq!(
        entries(&tracker),
        vec![record(5, false, "five again"), record(9, true, "nine again")]
    );
}

#[test]
fn guild_update_of_an_unknown_guild_changes_nothing() {
    let mut tracker = GuildTracker::new();
    tracker.insert(5, b"five".to_vec());
    tracker.update(6, b"six".to_vec());
    assert_eq!(entries(&tracker), vec![record(5, false, "five")]);
}

#[test]
fn guild_delete_that_reports_unavailable_keeps_the_data() {
    let mut tracker = GuildTracker::new();
    tracker.insert(5, b"five".to_vec());
    tracker.insert(9, b"nine".to_vec());
    tracker.remove(5, true);
    assert_eq!(entries(&tracker), vec![record(5, true, "five"), record(9, false, "nine")]);
    tracker.remove(5, true);
    assert_eq!(entries(&tracker), vec![record(5, true, "five"), record(9, false, "nine")]);
}

#[test]
fn guild_delete_of_an_unknown_guild_that_is_unavailable_adds_it() {
    let mut tracker = GuildTracker::new();
    tracker.insert(5, b"five".to_vec());
    tracker.remove(7, true);
    assert_eq!(entries(&tracker), vec![record(5, false, "five"), record(7, true, "")]);
}

#[test]
fn guild_delete_removes() {
    let mut tracker = GuildTracker::new();
    tracker.insert(5, b"five".to_vec());
    tracker.insert(9, b"nine".to_vec());
    tracker.insert(11, b"eleven".to_vec());
    tracker.remove(9, false);
    assert_eq!(entries(&tracker), vec![record(5, false, "five"), record(11, false, "eleven")]);
    tracker.remove(9, false);
    assert_eq!(tracker.len(), 2);
    tracker.remove(5, false);
    tracker.remove(11, false);
    assert_eq!(tracker.len(), 0);
}

#[test]
fn no_guild_has_two_entries() {
    let mut tracker = GuildTracker::new();
    for round in 0..3u64 {
        for id in 1..=4u64 {
            tracker.insert(id, vec![round as u8]);
            tracker.remove(id, true);
            tracker.update(id, vec![round as u8, 1]);
        }
    }
    assert_eq!(tracker.len(), 4);
    let mut ids: Vec<u64> = entries(&tracker).iter().map(|r| r.id).collect();
    ids.sort();
    assert_eq!(ids, vec![1, 2, 3, 4]);
}

#[test]
fn ready_snapshot_drops_the_guilds() {
    let ready = stored_ready();
    assert_eq!(ready.fields(), &vec![member("\"user\"", "{\"id\":\"1\"}")]);
    let ready = ReadySnapshot::new(vec![
        member("\"guilds\"", "[]"),
        member("\"v\"", "10"),
        member("\"guilds\"", "[1]"),
        member("\"session_id\"", "\"abc\""),
    ]);
    assert_eq!(ready.fields(), &vec![member("\"v\"", "10"), member("\"session_id\"", "\"abc\"")]);
    assert_eq!(ReadySnapshot::new(Vec::new()).fields(), &Vec::<JsonMember>::new());
}

#[test]
fn copy_members_copies() {
    let list = vec![member("\"a\"", "1"), member("\"b\"", "[2]")];
    assert_eq!(copy_members(&list), list);
}

#[test]
fn guild_stub_marks_the_guild_unavailable() {
    let mut out = Vec::new();
    push_guild_stub(&mut out, 81384788765712384);
    assert_eq!(text(&out), "{\"id\":\"81384788765712384\",\"unavailable\":true}");
}

#[test]
fn ready_payload_lists_the_tracked_guilds_as_unavailable() {
    let mut tracker = GuildTracker::new();
    tracker.insert(1, b"{\"id\":\"1\"}".to_vec());
    tracker.insert(2, b"{\"id\":\"2\"}".to_vec());
    tracker.remove(2, true);
    tracker.remove(3, true);
    let mut seq = 0u64;
    let payload = tracker.get_ready_payload(&stored_ready(), &mut seq);
    assert_eq!(seq, 1);
    assert_eq!(
        payload,
        ReadyPayload { s: 0, fields: vec![member("\"user\"", "{\"id\":\"1\"}")], guilds: vec![1, 2, 3] }
    );
    assert_eq!(
        text(&payload.to_json()),
        "{\"t\":\"READY\",\"s\":0,\"op\":0,\"d\":{\"user\":{\"id\":\"1\"},\"guilds\":[\
         {\"id\":\"1\",\"unavailable\":true},{\"id\":\"2\",\"unavailable\":true},\
         {\"id\":\"3\",\"unavailable\":true}]}}"
    );
}

#[test]
fn ready_payload_without_guilds_or_fields() {
    let tracker = GuildTracker::new();
    let mut seq = 7u64;
    let payload = tracker.get_ready_payload(&ReadySnapshot::new(Vec::new()), &mut seq);
    assert_eq!(seq, 8);
    assert_eq!(text(&payload.to_json()), "{\"t\":\"READY\",\"s\":7,\"op\":0,\"d\":{\"guilds\":[]}}");
}

#[test]
fn guild_payloads_give_one_frame_for_each_guild() {
    let mut tracker = GuildTracker::new();
    tracker.insert(1, b"{\"id\":\"1\"}".to_vec());
    tracker.insert(2, b"{\"id\":\"2\"}".to_vec());
    tracker.insert(3, b"{\"id\":\"3\"}".to_vec());
    tracker.remove(2, true);
    let mut seq = 1u64;
    let frames = tracker.get_guild_payloads(&mut seq);
    assert_eq!(seq, 4);
    assert_eq!(
        frames,
        vec![
            GuildDispatch::Create { s: 1, id: 1, snapshot: b"{\"id\":\"1\"}".to_vec() },
            GuildDispatch::Delete { s: 2, id: 2 },
            GuildDispatch::Create { s: 3, id: 3, snapshot: b"{\"id\":\"3\"}".to_vec() },
        ]
    );
    assert_eq!(
        text(&frames[0].to_json()),
        "{\"t\":\"GUILD_CREATE\",\"s\":1,\"op\":0,\"d\":{\"id\":\"1\"}}"
    );
    assert_eq!(
        text(&frames[1].to_json()),
        "{\"t\":\"GUILD_DELETE\",\"s\":2,\"op\":0,\"d\":{\"id\":\"2\",\"unavailable\":true}}"
    );
}

#[test]
fn guild_payloads_of_no_guild_are_none() {
    let tracker = GuildTracker::new();
    let mut seq = 1u64;
    assert_eq!(tracker.get_guild_payloads(&mut seq), Vec::new());
    assert_eq!(seq, 1);
}

#[test]
fn happy_identify_is_answered_with_ready_and_guild_create() {
    let mut tracker = GuildTracker::new();
    tracker.insert(1, b"{\"id\":\"1\",\"name\":\"g1\"}".to_vec());
    let mut forwarder = Forwarder::new();
    assert_eq!(forwarder.sequence(), 0);
    let frames = forwarder.handshake(&stored_ready(), &tracker);
    assert_eq!(frames.len(), 2);
    assert_eq!(
        text(&frames[0]),
        "{\"t\":\"READY\",\"s\":0,\"op\":0,\"d\":{\"user\":{\"id\":\"1\"},\"guilds\":[{\"id\":\"1\",\"unavailable\":true}]}}"
    );
    assert_eq!(
        text(&frames[1]),
        "{\"t\":\"GUILD_CREATE\",\"s\":1,\"op\":0,\"d\":{\"id\":\"1\",\"name\":\"g1\"}}"
    );
    assert_eq!(forwarder.sequence(), 2);
}

#[test]
fn sequence_renumber_after_the_handshake() {
    let mut tracker = GuildTracker::new();
    tracker.insert(1, b"{\"id\":\"1\"}".to_vec());
    let mut forwarder = Forwarder::new();
    forwarder.handshake(&stored_ready(), &tracker);
    let upstream = b"{\"op\":0,\"s\":9999,\"t\":\"MESSAGE_CREATE\",\"d\":{\"content\":\"hi\"}}".to_vec();
    let at = SequenceInfo { value: 9999, start: 12, end: 16 };
    let frame = forwarder.relay(upstream, Some(at));
    assert_eq!(
        text(&frame),
        "{\"op\":0,\"s\":2,\"t\":\"MESSAGE_CREATE\",\"d\":{\"content\":\"hi\"}}"
    );
    assert_eq!(forwarder.sequence(), 3);
}

#[test]
fn sequence_numbers_start_at_zero_and_count_up() {
    let mut tracker = GuildTracker::new();
    for id in 1..=3u64 {
        tracker.insert(id, b"{}".to_vec());
    }
    tracker.remove(2, true);
    let mut forwarder = Forwarder::new();
    let mut frames = forwarder.handshake(&stored_ready(), &tracker);
    for upstream in [5u64, 3, 100, 100, 1] {
        let payload = format!("{{\"t\":\"X\",\"s\":{},\"op\":0,\"d\":null}}", upstream).into_bytes();
        let event = gateway_proxy::event::GatewayEvent::from_json(&payload).unwrap();
        frames.push(forwarder.relay(payload, event.sequence));
    }
    let numbers: Vec<u64> = frames
        .iter()
        .map(|f| gateway_proxy::event::GatewayEvent::from_json(f).unwrap().sequence.unwrap().value)
        .collect();
    assert_eq!(numbers, (0..9u64).collect::<Vec<u64>>());
    for frame in &frames {
        assert_eq!(gateway_proxy::event::GatewayEvent::from_json(frame).unwrap().op(), 0);
    }
}

#[test]
fn an_event_without_a_sequence_number_goes_out_as_it_is() {
    let mut forwarder = Forwarder::new();
    let payload = b"{\"t\":\"X\",\"s\":null,\"op\":0,\"d\":null}".to_vec();
    assert_eq!(forwarder.relay(payload.clone(), None), payload);
    assert_eq!(forwarder.sequence(), 0);
}

#[test]
fn rewrite_sequence_may_change_the_width() {
    let payload = b"{\"s\":5,\"op\":0}";
    let at = SequenceInfo { value: 5, start: 5, end: 6 };
    assert_eq!(text(&rewrite_sequence(payload, &at, 12345)), "{\"s\":12345,\"op\":0}");
    assert_eq!(text(&rewrite_sequence(payload, &at, 0)), "{\"s\":0,\"op\":0}");
    let payload = b"{\"s\":123456789,\"op\":0}";
    let at = SequenceInfo { value: 123456789, start: 5, end: 14 };
    assert_eq!(text(&rewrite_sequence(payload, &at, 7)), "{\"s\":7,\"op\":0}");
}

#[test]
fn rewrite_sequence_keeps_all_around_the_digits() {
    let payload = b"{\"t\":\"A\",\"s\":  42 ,\"op\":0,\"d\":{\"s\":42}}".to_vec();
    let at = gateway_proxy::event::GatewayEvent::from_json(&payload).unwrap().sequence.unwrap();
    let frame = rewrite_sequence(&payload, &at, 1000);
    assert_eq!(&frame[..at.start], &payload[..at.start]);
    assert_eq!(&frame[at.start..at.start + 4], b"1000");
    assert_eq!(&frame[at.start + 4..], &payload[at.end..]);
    assert_eq!(text(&frame), "{\"t\":\"A\",\"s\":  1000 ,\"op\":0,\"d\":{\"s\":42}}");
}

#[test]
fn rewrite_sequence_at_the_ends_of_the_text() {
    let at = SequenceInfo { value: 0, start: 0, end: 1 };
    assert_eq!(rewrite_sequence(b"0", &at, 31), b"31".to_vec());
    let at = SequenceInfo { value: 0, start: 2, end: 2 };
    assert_eq!(rewrite_sequence(b"ab", &at, 31), b"ab31".to_vec());
}

#[test]
fn a_renumbered_frame_reads_back_its_number_and_its_opcode() {
    for payload in [
        &b"{\"t\":\"A\",\"s\": 41 ,\"op\":0,\"d\":{}}"[..],
        &b"{\"op\":0,\"d\":{\"x\":1},\"s\":7,\"t\":\"B\"}"[..],
        &b"{\"op\": 0 ,\"s\":18446744073709551615}"[..],
    ] {
        let event = gateway_proxy::event::GatewayEvent::from_json(payload).unwrap();
        let at = event.sequence.unwrap();
        for number in [0u64, 9, 10, 123456, u64::MAX] {
            let frame = rewrite_sequence(payload, &at, number);
            let read = gateway_proxy::event::GatewayEvent::from_json(&frame).unwrap();
            let width = number.to_string().len();
            assert_eq!(
                read.sequence,
                Some(SequenceInfo { value: number, start: at.start, end: at.start + width })
            );
            assert_eq!(read.op(), event.op());
        }
    }
}

#[test]
fn the_frames_of_a_handshake_read_back_as_dispatches() {
    let mut tracker = GuildTracker::new();
    tracker.insert(10, b"{\"id\":\"10\",\"s\":99,\"op\":5}".to_vec());
    tracker.remove(11, true);
    let mut forwarder = Forwarder::new();
    let frames = forwarder.handshake(&stored_ready(), &tracker);
    let names: [&[u8]; 3] = [b"READY", b"GUILD_CREATE", b"GUILD_DELETE"];
    for (number, frame) in frames.iter().enumerate() {
        let read = gateway_proxy::event::GatewayEvent::from_json(frame).unwrap();
        assert_eq!(read.op(), 0);
        assert_eq!(read.sequence.map(|at| at.value), Some(number as u64));
        assert!(read.is_named(frame, names[number]));
    }
}

#[test]
fn open_gives_the_frames_of_the_handshake() {
    let mut tracker = GuildTracker::new();
    tracker.insert(1, b"{\"id\":\"1\"}".to_vec());
    tracker.remove(2, true);
    let mut plain = Forwarder::new();
    let expected = plain.handshake(&stored_ready(), &tracker);
    let mut forwarder = Forwarder::new();
    assert_eq!(forwarder.open(&stored_ready(), &tracker), Some(expected));
    assert_eq!(forwarder.sequence(), 3);
}

#[test]
fn an_event_that_was_delivered_is_renumbered_and_sent() {
    let mut forwarder = Forwarder::new();
    forwarder.open(&stored_ready(), &GuildTracker::new());
    let payload = b"{\"t\":\"X\",\"s\":700,\"op\":0,\"d\":1}".to_vec();
    let sequence = Some(SequenceInfo { value: 700, start: 13, end: 16 });
    assert_eq!(
        forwarder.after_delivery(Delivery::Event { payload, sequence }),
        Passage::Frame(b"{\"t\":\"X\",\"s\":1,\"op\":0,\"d\":1}".to_vec())
    );
    assert_eq!(forwarder.sequence(), 2);
}

#[test]
fn an_event_without_a_number_is_sent_as_it_is_and_takes_none() {
    let mut forwarder = Forwarder::new();
    let payload = b"{\"t\":\"X\",\"s\":null,\"op\":0}".to_vec();
    assert_eq!(
        forwarder.after_delivery(Delivery::Event { payload: payload.clone(), sequence: None }),
        Passage::Frame(payload)
    );
    assert_eq!(forwarder.sequence(), 0);
}

#[test]
fn a_client_that_fell_behind_skips_and_goes_on() {
    let mut forwarder = Forwarder::new();
    forwarder.open(&stored_ready(), &GuildTracker::new());
    assert_eq!(forwarder.after_delivery(Delivery::Lagged), Passage::Skip);
    assert_eq!(forwarder.sequence(), 1);
    let payload = b"{\"s\":5,\"op\":0}".to_vec();
    let sequence = Some(SequenceInfo { value: 5, start: 5, end: 6 });
    assert_eq!(
        forwarder.after_delivery(Delivery::Event { payload, sequence }),
        Passage::Frame(b"{\"s\":1,\"op\":0}".to_vec())
    );
}

#[test]
fn a_closed_subscription_ends_the_forwarding() {
    let mut forwarder = Forwarder::new();
    assert_eq!(forwarder.after_delivery(Delivery::Closed), Passage::End);
    assert_eq!(forwarder.sequence(), 0);
}

#[test]
fn an_event_whose_number_lies_outside_its_text_ends_the_forwarding() {
    let mut forwarder = Forwarder::new();
    let payload = b"{\"s\":5}".to_vec();
    for (start, end) in [(5usize, 9usize), (6, 5), (9, 9)] {
        let sequence = Some(SequenceInfo { value: 5, start, end });
        assert_eq!(
            forwarder.after_delivery(Delivery::Event { payload: payload.clone(), sequence }),
            Passage::End
        );
        assert_eq!(forwarder.sequence(), 0);
    }
}
