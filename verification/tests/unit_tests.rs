//! The parser's in-crate unit tests, run against the public surface.

use telnet_core::Parser;
use telnet_core::events::{self, TelnetEvents};
use telnet_core::telnet::{op_command as cmd, op_option as opt};

#[derive(PartialEq, Debug)]
enum Event {
    IAC,
    NEGOTIATION,
    SUBNEGOTIATION,
    RECV,
    SEND,
    DECOM,
}

#[derive(Default, Debug)]
struct CapturedEvents {
    events: Vec<Event>,
}

impl CapturedEvents {
    fn push(&mut self, event: Event) {
        self.events.push(event);
    }

    fn of(events: Vec<Event>) -> Self {
        CapturedEvents { events }
    }
}

impl PartialEq for CapturedEvents {
    fn eq(&self, other: &Self) -> bool {
        if self.events.len() == other.events.len() {
            self.events
                .iter()
                .zip(other.events.iter())
                .all(|(val1, val2)| val1 == val2)
        } else {
            false
        }
    }
}

fn handle_events(event_list: Vec<TelnetEvents>) -> CapturedEvents {
    let mut events = CapturedEvents::default();
    for event in event_list {
        match event {
            TelnetEvents::IAC(ev) => {
                println!("IAC: {}", ev.command);
                events.push(Event::IAC);
            }
            TelnetEvents::Negotiation(ev) => {
                println!("Negotiation: {} {}", ev.command, ev.option);
                events.push(Event::NEGOTIATION);
            }
            TelnetEvents::Subnegotiation(ev) => {
                println!("Subnegotiation: {} {:?}", ev.option, ev.buffer);
                events.push(Event::SUBNEGOTIATION);
            }
            TelnetEvents::DataReceive(buffer) => {
                println!(
                    "Receive: {}",
                    std::str::from_utf8(&buffer[..]).unwrap_or("Bad utf-8 bytes")
                );
                events.push(Event::RECV);
            }
            TelnetEvents::DataSend(buffer) => {
                println!("Send: {:?}", buffer);
                events.push(Event::SEND);
            }
            TelnetEvents::DecompressImmediate(buffer) => {
                println!("DECOMPRESS: {:?}", buffer);
                events.push(Event::DECOM);
            }
        };
    }
    events
}

#[test]
fn tests_test_parser() {
    let mut instance: Parser = Parser::new();
    instance.options.support_local(201);
    instance.options.support_local(86);
    if let Some(ev) = instance._will(201) {
        assert_eq!(handle_events(vec![ev]), CapturedEvents::of(vec![Event::SEND]));
    }
    if let Some(ev) = instance._will(86) {
        assert_eq!(handle_events(vec![ev]), CapturedEvents::of(vec![Event::SEND]));
    }
    assert_eq!(
        handle_events(instance.receive(&[b"Hello, rust!", &[255, 249][..]].concat())),
        CapturedEvents::of(vec![Event::RECV, Event::IAC])
    );
    assert_eq!(
        handle_events(instance.receive(&[255, 253, 201])),
        CapturedEvents::of(vec![])
    );
    assert_eq!(
        handle_events(instance.receive(&[&[255, 253, 200][..], b"Some random data"].concat())),
        CapturedEvents::of(vec![Event::SEND, Event::RECV])
    );
    assert_eq!(
        handle_events(
            instance.receive(
                &events::TelnetSubnegotiation::new(201, b"Core.Hello {}".to_vec()).into_bytes()
            ),
        ),
        CapturedEvents::of(vec![Event::SUBNEGOTIATION])
    );
    assert_eq!(
        handle_events(
            instance.receive(
                &[
                    &events::TelnetSubnegotiation::new(201, b"Core.Hello {}".to_vec())
                        .into_bytes()[..],
                    b"Random text",
                    &[255, 249][..]
                ]
                .concat()
            ),
        ),
        CapturedEvents::of(vec![Event::SUBNEGOTIATION, Event::RECV, Event::IAC])
    );
    assert_eq!(
        handle_events(
            instance.receive(
                &[
                    &events::TelnetSubnegotiation::new(86, b" ".to_vec()).into_bytes()[..],
                    b"This is compressed data",
                    &[255, 249][..]
                ]
                .concat()
            ),
        ),
        CapturedEvents::of(vec![Event::SUBNEGOTIATION, Event::DECOM])
    );
    assert_eq!(
        handle_events(instance.receive(&[
            87, 104, 97, 116, 32, 105, 115, 32, 121, 111, 117, 114, 32, 112, 97, 115, 115, 119,
            111, 114, 100, 63, 32, 255, 239, 255, 251, 1
        ])),
        CapturedEvents::of(vec![Event::RECV, Event::IAC, Event::SEND])
    );
}

#[test]
fn tests_test_subneg_separate_receives() {
    let mut instance: Parser = Parser::with_capacity(10);
    instance.options.support_local(opt::GMCP);
    instance._will(opt::GMCP);
    let mut events = instance.receive(
        &[
            &[cmd::IAC, cmd::SB, opt::GMCP][..],
            b"Otion.Data { some: json, data: in, here: ! }",
        ]
        .concat(),
    );
    assert_eq!(handle_events(events), CapturedEvents::of(vec![]));

    events = instance.receive(b"More.Data { some: json, data: in, here: ! }");
    assert_eq!(handle_events(events), CapturedEvents::of(vec![]));

    events = instance.receive(
        &[
            &[cmd::IAC, cmd::SE][..],
            &[cmd::IAC, cmd::SB, opt::GMCP][..],
            b"Otion.Data { some: json, data: in, here: ! }",
        ]
        .concat(),
    );
    assert_eq!(
        handle_events(events),
        CapturedEvents::of(vec![Event::SUBNEGOTIATION])
    );

    events = instance.receive(
        &[
            b"More.Data { some: json, data: in, here: ! }",
            &[cmd::IAC, cmd::SE][..],
        ]
        .concat(),
    );
    assert_eq!(
        handle_events(events),
        CapturedEvents::of(vec![Event::SUBNEGOTIATION])
    );
}

#[test]
fn tests_test_concat() {
    let a: &[u8] = &[255, 102, 50, 65, 20];
    let b: &[u8] = &[1, 2, 3];
    let c: &[u8] = &[4, 5, 6, 7, 8, 9, 0];
    let expected: Vec<u8> = vec![255, 102, 50, 65, 20, 1, 2, 3, 4, 5, 6, 7, 8, 9, 0];
    let actual: Vec<u8> = [a, b, c].concat();
    assert_eq!(expected, actual);
}

/// Test escaping IAC bytes in a buffer.
#[test]
fn tests_test_escape() {
    let a: Vec<u8> = vec![255, 250, 201, 255, 205, 202, 255, 240];
    let expected: Vec<u8> = vec![255, 255, 250, 201, 255, 255, 205, 202, 255, 255, 240];
    assert_eq!(expected, Parser::escape_iac(a))
}

/// Test unescaping IAC bytes in a buffer.
#[test]
fn tests_test_unescape() {
    let a: Vec<u8> = vec![255, 255, 250, 201, 255, 255, 205, 202, 255, 255, 240];
    let expected: Vec<u8> = vec![255, 250, 201, 255, 205, 202, 255, 240];
    assert_eq!(expected, Parser::unescape_iac(a))
}
