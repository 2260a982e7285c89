//! Exact-value checks of the negotiation rules, the escaping transforms,
//! the frame builders and the compatibility table.

use telnet_core::Parser;
use telnet_core::compatibility::{CompatibilityEntry, CompatibilityTable};
use telnet_core::events::{TelnetEvents, TelnetIAC, TelnetNegotiation, TelnetSubnegotiation};
use telnet_core::telnet::{op_command as cmd, op_option as opt};

fn send_bytes(ev: &TelnetEvents) -> Vec<u8> {
    match ev {
        TelnetEvents::DataSend(b) => b.clone(),
        _ => panic!("expected a DataSend event"),
    }
}

#[test]
fn do_negotiation_sets_both_flags() {
    let mut parser = Parser::new();
    parser.options.support_local(90);

    let events = parser.receive(&[255, 253, 90]);
    assert_eq!(events.len(), 2);
    assert_eq!(send_bytes(&events[0]), vec![255, 251, 90]);
    match &events[1] {
        TelnetEvents::Negotiation(n) => {
            assert_eq!(n.command, 253);
            assert_eq!(n.option, 90);
        }
        _ => panic!("expected a Negotiation event"),
    }
    let entry = parser.options.get_option(90);
    assert!(entry.local && entry.local_state && entry.remote_state);

    // Repeating the same DO yields no further send and no state change.
    let repeat = parser.receive(&[255, 253, 90]);
    assert_eq!(repeat.len(), 0);
    let again = parser.options.get_option(90);
    assert_eq!(entry, again);
}

#[test]
fn unsupported_will_is_refused_without_notification() {
    let mut parser = Parser::new();
    let before = parser.options.get_option(70).into_u8();

    let events = parser.receive(&[255, 251, 70]);
    assert_eq!(events.len(), 1);
    assert_eq!(send_bytes(&events[0]), vec![255, 254, 70]);
    assert_eq!(parser.options.get_option(70).into_u8(), before);
}

#[test]
fn supported_will_is_accepted_with_do() {
    let mut parser = Parser::new();
    parser.options.support_remote(70);

    let events = parser.receive(&[255, 251, 70]);
    assert_eq!(events.len(), 2);
    assert_eq!(send_bytes(&events[0]), vec![255, 253, 70]);
    assert!(matches!(&events[1], TelnetEvents::Negotiation(_)));
    assert!(parser.options.get_option(70).remote_state);
}

#[test]
fn wont_clears_remote_state_and_always_notifies() {
    let mut parser = Parser::new();
    parser.options.support_remote(5);
    parser.receive(&[255, 251, 5]);
    assert!(parser.options.get_option(5).remote_state);

    // Enabled: DONT confirmation plus the notification.
    let events = parser.receive(&[255, 252, 5]);
    assert_eq!(events.len(), 2);
    assert_eq!(send_bytes(&events[0]), vec![255, 254, 5]);
    assert!(matches!(&events[1], TelnetEvents::Negotiation(_)));
    assert!(!parser.options.get_option(5).remote_state);

    // Already disabled: only the notification.
    let events = parser.receive(&[255, 252, 5]);
    assert_eq!(events.len(), 1);
    assert!(matches!(&events[0], TelnetEvents::Negotiation(_)));
}

#[test]
fn dont_clears_local_state_and_always_notifies() {
    let mut parser = Parser::new();
    parser.options.support_local(24);
    parser._will(24);
    assert!(parser.options.get_option(24).local_state);

    let events = parser.receive(&[255, 254, 24]);
    assert_eq!(events.len(), 2);
    assert_eq!(send_bytes(&events[0]), vec![255, 252, 24]);
    assert!(matches!(&events[1], TelnetEvents::Negotiation(_)));
    assert!(!parser.options.get_option(24).local_state);

    let events = parser.receive(&[255, 254, 24]);
    assert_eq!(events.len(), 1);
    assert!(matches!(&events[0], TelnetEvents::Negotiation(_)));
}

#[test]
fn subnegotiation_happy_path() {
    let mut parser = Parser::new();
    let entry = CompatibilityEntry::new(true, false, true, false);
    parser.options.set_option(86, entry);

    let events = parser.receive(&[255, 250, 86, 0x20, 255, 240]);
    assert!(!events.is_empty());
    match &events[0] {
        TelnetEvents::Subnegotiation(sub) => {
            assert_eq!(sub.option, 86);
            assert_eq!(sub.buffer, vec![0x20]);
        }
        _ => panic!("expected a Subnegotiation event"),
    }
    // Option 86 marks compressed streams, so an empty hand-off follows.
    assert_eq!(events.len(), 2);
    match &events[1] {
        TelnetEvents::DecompressImmediate(rest) => assert!(rest.is_empty()),
        _ => panic!("expected a DecompressImmediate event"),
    }

    // The residual buffer is empty: fresh plain data parses on its own.
    let follow = parser.receive(b"abc");
    assert_eq!(follow.len(), 1);
    match &follow[0] {
        TelnetEvents::DataReceive(b) => assert_eq!(b, b"abc"),
        _ => panic!("expected a DataReceive event"),
    }
}

#[test]
fn malformed_subnegotiation_does_not_corrupt_parsing() {
    let mut parser = Parser::new();
    let entry = CompatibilityEntry::new(true, false, true, false);
    parser.options.set_option(cmd::IAC, entry);

    // Option code equal to IAC itself, with no payload: dropped, no crash.
    let events = parser.receive(&[cmd::IAC, cmd::SB, cmd::IAC, cmd::SE]);
    assert_eq!(events.len(), 0);

    // Subsequent parsing is unaffected.
    let follow = parser.receive(&[b"ok", &[255, 249][..]].concat());
    assert_eq!(follow.len(), 2);
    assert!(matches!(&follow[0], TelnetEvents::DataReceive(_)));
    assert!(matches!(&follow[1], TelnetEvents::IAC(_)));
}

#[test]
fn compression_handoff_carries_trailing_bytes() {
    let mut parser = Parser::new();
    parser.options.support_local(opt::MCCP2);
    parser._will(opt::MCCP2);

    let frame = TelnetSubnegotiation::new(opt::MCCP2, vec![1, 2]).into_bytes();
    let events = parser.receive(&[&frame[..], b"compressed tail"].concat());
    assert_eq!(events.len(), 2);
    match &events[0] {
        TelnetEvents::Subnegotiation(sub) => {
            assert_eq!(sub.option, opt::MCCP2);
            assert_eq!(sub.buffer, vec![1, 2]);
        }
        _ => panic!("expected a Subnegotiation event"),
    }
    match &events[1] {
        TelnetEvents::DecompressImmediate(rest) => assert_eq!(rest, b"compressed tail"),
        _ => panic!("expected a DecompressImmediate event"),
    }

    // The accumulation buffer is empty afterwards.
    let follow = parser.receive(b"x");
    assert_eq!(follow.len(), 1);
    assert!(matches!(&follow[0], TelnetEvents::DataReceive(_)));
}

#[test]
fn escape_round_trips() {
    let cases: Vec<Vec<u8>> = vec![
        vec![],
        vec![255],
        vec![255, 255],
        vec![255, 255, 255],
        vec![1, 255, 2, 255, 255, 3],
        vec![255, 1, 6, 2],
    ];
    for x in cases {
        assert_eq!(Parser::unescape_iac(Parser::escape_iac(x.clone())), x);
    }
}

#[test]
fn escape_doubles_and_unescape_is_pairwise() {
    assert_eq!(Parser::escape_iac(vec![255, 1, 6, 2]), vec![255, 255, 1, 6, 2]);
    // A lone trailing 0xFF passes through unescaped.
    assert_eq!(Parser::unescape_iac(vec![1, 255]), vec![1, 255]);
    // Three 0xFF bytes: one pair collapses, the trailing one stays.
    assert_eq!(Parser::unescape_iac(vec![255, 255, 255]), vec![255, 255]);
    assert_eq!(Parser::unescape_iac(vec![255, 255, 255, 255]), vec![255, 255]);
}

#[test]
fn support_local_is_idempotent() {
    let mut once = CompatibilityTable::new();
    once.support_local(42);
    let mut twice = CompatibilityTable::new();
    twice.support_local(42);
    twice.support_local(42);
    assert_eq!(once.get_option(42), twice.get_option(42));
    assert_eq!(once.get_option(42).into_u8(), twice.get_option(42).into_u8());
}

#[test]
fn entry_mask_round_trips() {
    let entry = CompatibilityEntry::new(true, false, true, true);
    assert_eq!(entry.into_u8(), 1 | 4 | 8);
    assert_eq!(CompatibilityEntry::from(entry.into_u8()), entry);
    assert_eq!(CompatibilityEntry::from(0), CompatibilityEntry::new(false, false, false, false));
}

#[test]
fn from_options_last_write_wins() {
    let first = CompatibilityEntry::new(true, false, false, false).into_u8();
    let second = CompatibilityEntry::new(false, true, false, true).into_u8();
    let table = CompatibilityTable::from_options(&[(5, first), (5, second), (7, first)]);
    assert_eq!(table.get_option(5).into_u8(), second);
    assert_eq!(table.get_option(7).into_u8(), first);
    assert_eq!(table.get_option(9).into_u8(), 0);
}

#[test]
fn support_helpers_set_the_right_flags() {
    let mut table = CompatibilityTable::new();
    table.support_local(1);
    table.support_remote(2);
    table.support(3);
    let one = table.get_option(1);
    assert!(one.local && !one.remote && !one.local_state && !one.remote_state);
    let two = table.get_option(2);
    assert!(!two.local && two.remote);
    let three = table.get_option(3);
    assert!(three.local && three.remote);
}

#[test]
fn frame_builders_produce_wire_bytes() {
    assert_eq!(TelnetIAC::new(cmd::GA).into_bytes(), vec![255, 249]);
    assert_eq!(TelnetNegotiation::new(cmd::DO, 86).into_bytes(), vec![255, 253, 86]);
    assert_eq!(
        TelnetSubnegotiation::new(201, vec![104, 105]).into_bytes(),
        vec![255, 250, 201, 104, 105, 255, 240]
    );
    // The payload is escaped on the way out.
    assert_eq!(
        TelnetSubnegotiation::new(201, vec![255]).into_bytes(),
        vec![255, 250, 201, 255, 255, 255, 240]
    );
}

#[test]
fn event_into_bytes_matches_variant() {
    assert_eq!(TelnetEvents::build_iac(cmd::NOP).into_bytes(), vec![255, 241]);
    assert_eq!(TelnetEvents::build_negotiation(cmd::WILL, 1).into_bytes(), vec![255, 251, 1]);
    assert_eq!(
        TelnetEvents::build_subnegotiation(24, vec![0]).into_bytes(),
        vec![255, 250, 24, 0, 255, 240]
    );
    assert_eq!(TelnetEvents::build_send(vec![9, 8]).into_bytes(), vec![9, 8]);
    assert_eq!(TelnetEvents::build_receive(vec![7]).into_bytes(), vec![7]);
}

#[test]
fn outbound_helpers_check_state() {
    let mut parser = Parser::new();

    // Unsupported: _will does nothing.
    assert!(parser._will(11).is_none());
    parser.options.support_local(11);
    let ev = parser._will(11).expect("supported option should negotiate");
    assert_eq!(send_bytes(&ev), vec![255, 251, 11]);
    // Already enabled: nothing more to say.
    assert!(parser._will(11).is_none());

    // _wont clears the local state.
    let ev = parser._wont(11).expect("enabled option should disable");
    assert_eq!(send_bytes(&ev), vec![255, 252, 11]);
    assert!(parser._wont(11).is_none());

    // _do sets the remote state on the transition.
    assert!(parser._do(12).is_none());
    parser.options.support_remote(12);
    let ev = parser._do(12).expect("supported option should be requested");
    assert_eq!(send_bytes(&ev), vec![255, 253, 12]);
    assert!(parser.options.get_option(12).remote_state);
    // Already enabled: nothing more to say.
    assert!(parser._do(12).is_none());

    // _dont clears the remote state on the transition.
    let ev = parser._dont(12).expect("enabled option should be refused");
    assert_eq!(send_bytes(&ev), vec![255, 254, 12]);
    assert!(!parser.options.get_option(12).remote_state);
    assert!(parser._dont(12).is_none());
}

#[test]
fn negotiate_builds_frames_unchecked() {
    let mut parser = Parser::new();
    let ev = parser.negotiate(253, 86);
    assert_eq!(send_bytes(&ev), vec![255, 253, 86]);
}

#[test]
fn subnegotiation_helpers_escape_and_check_state() {
    let mut parser = Parser::new();
    assert!(parser.subnegotiation(201, vec![1]).is_none());

    parser.options.support_local(201);
    parser._will(201);
    let ev = parser.subnegotiation(201, vec![1, 255]).expect("enabled option");
    assert_eq!(send_bytes(&ev), vec![255, 250, 201, 1, 255, 255, 255, 240]);

    let ev = parser.subnegotiation_text(201, "hi").expect("enabled option");
    assert_eq!(send_bytes(&ev), vec![255, 250, 201, 104, 105, 255, 240]);
}

#[test]
fn send_text_appends_line_ending_and_go_ahead() {
    let mut parser = Parser::new();
    let ev = parser.send_text("hi");
    assert_eq!(send_bytes(&ev), vec![104, 105, 13, 10, 255, 249]);
}

#[test]
fn linemode_enabled_reads_the_table() {
    let mut parser = Parser::new();
    assert!(!parser.linemode_enabled());
    parser.options.support_remote(opt::LINEMODE);
    parser.receive(&[255, 251, opt::LINEMODE]);
    assert!(parser.linemode_enabled());
}

#[test]
fn dangling_command_prefix_is_dropped() {
    let mut parser = Parser::new();
    // A lone IAC at the end of a delivery is not buffered: it is cut as a
    // trailing run and dropped by the interpretation stage.
    assert_eq!(parser.receive(&[255]).len(), 0);
    let follow = parser.receive(&[249]);
    assert_eq!(follow.len(), 1);
    assert!(matches!(&follow[0], TelnetEvents::DataReceive(_)));
}

#[test]
fn double_iac_pair_alone_is_a_command() {
    let mut parser = Parser::new();
    let events = parser.receive(&[255, 255]);
    assert_eq!(events.len(), 1);
    match &events[0] {
        TelnetEvents::IAC(iac) => assert_eq!(iac.command, 255),
        _ => panic!("expected an IAC event"),
    }
    // Followed by data, the swallowed pair leaves a 3-byte run that the
    // interpretation stage drops whole.
    let events = parser.receive(&[255, 255, 65]);
    assert_eq!(events.len(), 0);
}

#[test]
fn iac_se_pair_is_silently_dropped() {
    let mut parser = Parser::new();
    let events = parser.receive(&[255, 240]);
    assert_eq!(events.len(), 0);
}

#[test]
fn fragmented_subnegotiation_matches_whole_delivery() {
    let frame = TelnetSubnegotiation::new(201, b"payload".to_vec()).into_bytes();

    let mut whole = Parser::new();
    whole.options.support_local(201);
    whole._will(201);
    let expected = whole.receive(&frame);
    assert_eq!(expected.len(), 1);

    for cut in 2..frame.len() {
        let mut split = Parser::new();
        split.options.support_local(201);
        split._will(201);
        let first = split.receive(&frame[..cut]);
        assert_eq!(first.len(), 0, "no event before the frame completes");
        let second = split.receive(&frame[cut..]);
        assert_eq!(second.len(), 1);
        match (&expected[0], &second[0]) {
            (TelnetEvents::Subnegotiation(a), TelnetEvents::Subnegotiation(b)) => {
                assert_eq!(a.option, b.option);
                assert_eq!(a.buffer, b.buffer);
            }
            _ => panic!("expected Subnegotiation events"),
        }
    }
}
