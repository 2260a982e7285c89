//! The event model: serializable protocol frames (command, negotiation,
//! subnegotiation) and the closed set of events the parser returns. Events
//! are plain values; once returned they share no storage with the parser.

use vstd::prelude::*;

use crate::escaping::escape_seq;
use crate::escaping::escape_bytes;
use crate::telnet::op_command::IAC;
use crate::telnet::op_command::SB;
use crate::telnet::op_command::SE;

verus! {

/// A 2-byte IAC command sequence.
#[derive(Clone, Copy, Debug)]
pub struct TelnetIAC {
    pub command: u8,
}

/// The wire form of a command frame.
pub open spec fn iac_frame(command: u8) -> Seq<u8> {
    seq![IAC, command]
}

impl TelnetIAC {
    pub fn new(command: u8) -> (r: Self)
        ensures
            r.command == command,
    {
        Self { command }
    }

    /// Consume the sequence struct and return the wire bytes `IAC command`.
    pub fn into_bytes(self) -> (r: Vec<u8>)
        ensures
            r@ == iac_frame(self.command),
    {
        let mut buf: Vec<u8> = Vec::with_capacity(2);
        buf.push(IAC);
        buf.push(self.command);
        proof {
            assert(buf@ =~= iac_frame(self.command));
        }
        buf
    }
}

/// A 3-byte IAC negotiation sequence.
#[derive(Clone, Copy, Debug)]
pub struct TelnetNegotiation {
    pub command: u8,
    pub option: u8,
}

/// The wire form of a negotiation frame.
pub open spec fn negotiation_frame(command: u8, option: u8) -> Seq<u8> {
    seq![IAC, command, option]
}

impl TelnetNegotiation {
    pub fn new(command: u8, option: u8) -> (r: Self)
        ensures
            r.command == command,
            r.option == option,
    {
        Self { command, option }
    }

    /// Consume the sequence struct and return the wire bytes
    /// `IAC command option`.
    pub fn into_bytes(self) -> (r: Vec<u8>)
        ensures
            r@ == negotiation_frame(self.command, self.option),
    {
        let mut buf: Vec<u8> = Vec::with_capacity(3);
        buf.push(IAC);
        buf.push(self.command);
        buf.push(self.option);
        proof {
            assert(buf@ =~= negotiation_frame(self.command, self.option));
        }
        buf
    }
}

/// An arbitrary-length IAC subnegotiation sequence.
#[derive(Clone, Debug)]
pub struct TelnetSubnegotiation {
    pub option: u8,
    pub buffer: Vec<u8>,
}

/// The wire form of a subnegotiation frame: header, escaped payload, trailer.
pub open spec fn subnegotiation_frame(option: u8, payload: Seq<u8>) -> Seq<u8> {
    seq![IAC, SB, option] + escape_seq(payload) + seq![IAC, SE]
}

impl TelnetSubnegotiation {
    pub fn new(option: u8, buffer: Vec<u8>) -> (r: Self)
        ensures
            r.option == option,
            r.buffer@ == buffer@,
    {
        Self { option, buffer }
    }

    /// Consume the sequence struct and return the wire bytes
    /// `IAC SB option <escaped payload> IAC SE`.
    pub fn into_bytes(self) -> (r: Vec<u8>)
        ensures
            r@ == subnegotiation_frame(self.option, self.buffer@),
    {
        let escaped = escape_bytes(self.buffer.as_slice());
        let mut buf: Vec<u8> = Vec::with_capacity(escaped.len());
        buf.push(IAC);
        buf.push(SB);
        buf.push(self.option);
        let mut j: usize = 0;
        while j < escaped.len()
            invariant
                j <= escaped@.len(),
                buf@ == seq![IAC, SB, self.option] + escaped@.take(j as int),
            decreases escaped@.len() - j,
        {
            buf.push(escaped[j]);
            proof {
                assert(buf@ =~= seq![IAC, SB, self.option] + escaped@.take(j + 1 as int));
            }
            j += 1;
        }
        buf.push(IAC);
        buf.push(SE);
        proof {
            assert(escaped@.take(escaped@.len() as int) =~= escaped@);
            assert(buf@ =~= subnegotiation_frame(self.option, self.buffer@));
        }
        buf
    }
}

/// The mathematical value of one parser event: each variant carries the
/// option or command codes and the byte sequences of its payload.
pub enum TelnetEventView {
    IAC { command: u8 },
    Negotiation { command: u8, option: u8 },
    Subnegotiation { option: u8, payload: Seq<u8> },
    DataReceive { bytes: Seq<u8> },
    DataSend { bytes: Seq<u8> },
    DecompressImmediate { bytes: Seq<u8> },
}

/// An enum representing the various telnet events.
#[derive(Clone, Debug)]
pub enum TelnetEvents {
    /// An IAC command sequence.
    IAC(TelnetIAC),
    /// An IAC negotiation sequence.
    Negotiation(TelnetNegotiation),
    /// An IAC subnegotiation sequence.
    Subnegotiation(TelnetSubnegotiation),
    /// Regular data received from the remote end.
    DataReceive(Vec<u8>),
    /// Data to be sent to the remote end.
    DataSend(Vec<u8>),
    /// Stream-compression hand-off: the carried bytes must be decompressed
    /// before they are fed back into the parser.
    DecompressImmediate(Vec<u8>),
}

impl View for TelnetEvents {
    type V = TelnetEventView;

    open spec fn view(&self) -> TelnetEventView {
        match self {
            TelnetEvents::IAC(iac) => TelnetEventView::IAC { command: iac.command },
            TelnetEvents::Negotiation(neg) => TelnetEventView::Negotiation {
                command: neg.command,
                option: neg.option,
            },
            TelnetEvents::Subnegotiation(sub) => TelnetEventView::Subnegotiation {
                option: sub.option,
                payload: sub.buffer@,
            },
            TelnetEvents::DataReceive(data) => TelnetEventView::DataReceive { bytes: data@ },
            TelnetEvents::DataSend(data) => TelnetEventView::DataSend { bytes: data@ },
            TelnetEvents::DecompressImmediate(data) => TelnetEventView::DecompressImmediate {
                bytes: data@,
            },
        }
    }
}

/// The views of a sequence of events.
pub open spec fn event_views(s: Seq<TelnetEvents>) -> Seq<TelnetEventView> {
    s.map_values(|e: TelnetEvents| e@)
}

/// Appending one event appends its view.
pub proof fn lemma_event_views_push(s: Seq<TelnetEvents>, e: TelnetEvents)
    ensures
        event_views(s.push(e)) == event_views(s).push(e@),
{
    assert(event_views(s.push(e)) =~= event_views(s).push(e@));
}

/// The empty event list has no views.
pub proof fn lemma_event_views_empty(s: Seq<TelnetEvents>)
    requires
        s.len() == 0,
    ensures
        event_views(s) == Seq::<TelnetEventView>::empty(),
{
    assert(event_views(s) =~= Seq::<TelnetEventView>::empty());
}

/// The wire bytes of an event: frames serialize themselves, data events
/// carry their bytes as they stand.
pub open spec fn event_bytes(v: TelnetEventView) -> Seq<u8> {
    match v {
        TelnetEventView::IAC { command } => iac_frame(command),
        TelnetEventView::Negotiation { command, option } => negotiation_frame(command, option),
        TelnetEventView::Subnegotiation { option, payload } => subnegotiation_frame(
            option,
            payload,
        ),
        TelnetEventView::DataReceive { bytes } => bytes,
        TelnetEventView::DataSend { bytes } => bytes,
        TelnetEventView::DecompressImmediate { bytes } => bytes,
    }
}

impl TelnetEvents {
    /// Helper method to generate a TelnetEvents::DataSend.
    pub fn build_send(buffer: Vec<u8>) -> (r: Self)
        ensures
            r@ == (TelnetEventView::DataSend { bytes: buffer@ }),
    {
        TelnetEvents::DataSend(buffer)
    }

    /// Helper method to generate a TelnetEvents::DataReceive.
    pub fn build_receive(buffer: Vec<u8>) -> (r: Self)
        ensures
            r@ == (TelnetEventView::DataReceive { bytes: buffer@ }),
    {
        TelnetEvents::DataReceive(buffer)
    }

    /// Helper method to generate a TelnetEvents::IAC.
    pub fn build_iac(command: u8) -> (r: Self)
        ensures
            r@ == (TelnetEventView::IAC { command }),
    {
        TelnetEvents::IAC(TelnetIAC::new(command))
    }

    /// Helper method to generate a TelnetEvents::Negotiation.
    pub fn build_negotiation(command: u8, option: u8) -> (r: Self)
        ensures
            r@ == (TelnetEventView::Negotiation { command, option }),
    {
        TelnetEvents::Negotiation(TelnetNegotiation::new(command, option))
    }

    /// Helper method to generate a TelnetEvents::Subnegotiation.
    pub fn build_subnegotiation(option: u8, buffer: Vec<u8>) -> (r: Self)
        ensures
            r@ == (TelnetEventView::Subnegotiation { option, payload: buffer@ }),
    {
        TelnetEvents::Subnegotiation(TelnetSubnegotiation::new(option, buffer))
    }

    /// Consume the event and return its wire bytes.
    pub fn into_bytes(self) -> (r: Vec<u8>)
        ensures
            r@ == event_bytes(self@),
    {
        match self {
            TelnetEvents::IAC(iac) => iac.into_bytes(),
            TelnetEvents::Negotiation(neg) => neg.into_bytes(),
            TelnetEvents::Subnegotiation(sub) => sub.into_bytes(),
            TelnetEvents::DataReceive(data) => data,
            TelnetEvents::DataSend(data) => data,
            TelnetEvents::DecompressImmediate(data) => data,
        }
    }
}

} // verus!
