//! The specification of what one `receive` call does: the segments of the
//! combined buffer are interpreted in order, each one reading and updating
//! the compatibility table, emitting events, and possibly writing bytes
//! back into the accumulation buffer.

use vstd::prelude::*;

use crate::compatibility::CompatibilityEntry;
use crate::compatibility::entry_mask;
use crate::compatibility::mask_entry;
use crate::events::TelnetEventView;
use crate::segment::ScanState;
use crate::segment::SegmentView;
use crate::segment::scan_from;
use crate::telnet::op_command::DO;
use crate::telnet::op_command::DONT;
use crate::telnet::op_command::IAC;
use crate::telnet::op_command::SE;
use crate::telnet::op_command::WILL;
use crate::telnet::op_command::WONT;

verus! {

/// What interpreting a run of segments leaves behind: the events emitted in
/// order, the compatibility table afterwards, and the bytes written back
/// into the accumulation buffer.
pub struct ParseOut {
    pub events: Seq<TelnetEventView>,
    pub table: Seq<u8>,
    pub buffer: Seq<u8>,
}

/// The negotiation state machine: what one `IAC verb option` sequence from
/// the peer does to the table, and which reply and notification events it
/// emits.
///
/// WILL and DO answer with the mirrored acceptance (DO / WILL) on the first
/// offer of a supported option, with the refusal (DONT / WONT) for an
/// unsupported one, and stay silent when the option is already in the
/// desired state. WONT and DONT disable an enabled option and confirm with
/// the matching refusal. A `Negotiation` notification is emitted for every
/// WONT and DONT, but for WILL and DO only on the state-changing
/// acceptance.
pub open spec fn negotiate_step(table: Seq<u8>, verb: u8, option: u8) -> ParseOut {
    let e = mask_entry(table[option as int]);
    if verb == WILL {
        if e.remote && !e.remote_state {
            ParseOut {
                events: seq![
                    TelnetEventView::DataSend { bytes: seq![IAC, DO, option] },
                    TelnetEventView::Negotiation { command: verb, option },
                ],
                table: table.update(
                    option as int,
                    entry_mask(CompatibilityEntry { remote_state: true, ..e }),
                ),
                buffer: Seq::empty(),
            }
        } else if !e.remote {
            ParseOut {
                events: seq![TelnetEventView::DataSend { bytes: seq![IAC, DONT, option] }],
                table,
                buffer: Seq::empty(),
            }
        } else {
            ParseOut { events: Seq::empty(), table, buffer: Seq::empty() }
        }
    } else if verb == WONT {
        if e.remote_state {
            ParseOut {
                events: seq![
                    TelnetEventView::DataSend { bytes: seq![IAC, DONT, option] },
                    TelnetEventView::Negotiation { command: verb, option },
                ],
                table: table.update(
                    option as int,
                    entry_mask(CompatibilityEntry { remote_state: false, ..e }),
                ),
                buffer: Seq::empty(),
            }
        } else {
            ParseOut {
                events: seq![TelnetEventView::Negotiation { command: verb, option }],
                table,
                buffer: Seq::empty(),
            }
        }
    } else if verb == DO {
        if e.local && !e.local_state {
            ParseOut {
                events: seq![
                    TelnetEventView::DataSend { bytes: seq![IAC, WILL, option] },
                    TelnetEventView::Negotiation { command: verb, option },
                ],
                table: table.update(
                    option as int,
                    entry_mask(
                        CompatibilityEntry { local_state: true, remote_state: true, ..e },
                    ),
                ),
                buffer: Seq::empty(),
            }
        } else if !e.local {
            ParseOut {
                events: seq![TelnetEventView::DataSend { bytes: seq![IAC, WONT, option] }],
                table,
                buffer: Seq::empty(),
            }
        } else {
            ParseOut { events: Seq::empty(), table, buffer: Seq::empty() }
        }
    } else if verb == DONT {
        if e.local_state {
            ParseOut {
                events: seq![
                    TelnetEventView::DataSend { bytes: seq![IAC, WONT, option] },
                    TelnetEventView::Negotiation { command: verb, option },
                ],
                table: table.update(
                    option as int,
                    entry_mask(CompatibilityEntry { local_state: false, ..e }),
                ),
                buffer: Seq::empty(),
            }
        } else {
            ParseOut {
                events: seq![TelnetEventView::Negotiation { command: verb, option }],
                table,
                buffer: Seq::empty(),
            }
        }
    } else {
        ParseOut { events: Seq::empty(), table, buffer: Seq::empty() }
    }
}

/// What a plain, command or negotiation segment does. A run not opening
/// with IAC is data; an `IAC x` pair is a command unless `x` is the
/// subnegotiation end marker, which is silently dropped; a 3-byte sequence
/// is a negotiation; anything else (the swallowed `IAC IAC` escape among
/// it) is dropped.
pub open spec fn flat_step(table: Seq<u8>, b: Seq<u8>) -> ParseOut {
    if b.len() == 0 {
        ParseOut { events: Seq::empty(), table, buffer: Seq::empty() }
    } else if b[0] == IAC {
        if b.len() == 2 {
            if b[1] != SE {
                ParseOut {
                    events: seq![TelnetEventView::IAC { command: b[1] }],
                    table,
                    buffer: Seq::empty(),
                }
            } else {
                ParseOut { events: Seq::empty(), table, buffer: Seq::empty() }
            }
        } else if b.len() == 3 {
            negotiate_step(table, b[1], b[2])
        } else {
            ParseOut { events: Seq::empty(), table, buffer: Seq::empty() }
        }
    } else {
        ParseOut {
            events: seq![TelnetEventView::DataReceive { bytes: b }],
            table,
            buffer: Seq::empty(),
        }
    }
}

/// What a subnegotiation segment does. One that ends with `IAC SE` and is
/// at least five bytes long delivers its payload — provided its option is
/// locally supported and enabled — followed by the decompression hand-off
/// when a tail was carried; one without the proper trailer is incomplete
/// and is written back into the accumulation buffer.
pub open spec fn sub_step(table: Seq<u8>, b: Seq<u8>, tail: Option<Seq<u8>>) -> ParseOut {
    let n = b.len() as int;
    if b[n - 2] == IAC && b[n - 1] == SE {
        let e = mask_entry(table[b[2] as int]);
        if e.local && e.local_state && n - 2 >= 3 {
            ParseOut {
                events: seq![
                    TelnetEventView::Subnegotiation {
                        option: b[2],
                        payload: b.subrange(3, n - 2),
                    },
                ] + (match tail {
                    Option::Some(t) => seq![TelnetEventView::DecompressImmediate { bytes: t }],
                    Option::None => Seq::empty(),
                }),
                table,
                buffer: Seq::empty(),
            }
        } else {
            ParseOut { events: Seq::empty(), table, buffer: Seq::empty() }
        }
    } else {
        ParseOut { events: Seq::empty(), table, buffer: b }
    }
}

/// What one segment does.
pub open spec fn apply_one(table: Seq<u8>, seg: SegmentView) -> ParseOut {
    match seg {
        SegmentView::Plain { bytes } => flat_step(table, bytes),
        SegmentView::Command { bytes } => flat_step(table, bytes),
        SegmentView::Negotiation { bytes } => flat_step(table, bytes),
        SegmentView::Subnegotiation { bytes, tail } => sub_step(table, bytes, tail),
    }
}

/// What a run of segments does, in order: events concatenate, the table
/// threads through, and re-buffered bytes accumulate.
pub open spec fn apply_from(segs: Seq<SegmentView>, table: Seq<u8>, buffer: Seq<u8>) -> ParseOut
    decreases segs.len(),
{
    if segs.len() == 0 {
        ParseOut { events: Seq::empty(), table, buffer }
    } else {
        let h = apply_one(table, segs[0]);
        let r = apply_from(segs.drop_first(), h.table, buffer + h.buffer);
        ParseOut { events: h.events + r.events, table: r.table, buffer: r.buffer }
    }
}

/// What one `receive` call does, given the table and the combined buffer
/// (carried-over bytes followed by the newly delivered ones): the buffer is
/// cut into segments and the segments are interpreted in order, starting
/// from an empty accumulation buffer.
pub open spec fn process_spec(table: Seq<u8>, buf: Seq<u8>) -> ParseOut {
    apply_from(scan_from(buf, 0, 0, ScanState::Normal), table, Seq::empty())
}

} // verus!
