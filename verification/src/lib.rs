//! A verified Telnet protocol engine.
//!
//! The library turns a raw, possibly fragmented byte stream into typed
//! protocol events (commands, option negotiations, subnegotiation payloads,
//! plain data) and produces the reply bytes the option-negotiation handshake
//! asks for. It performs no I/O of its own: a caller owns the connection,
//! feeds received bytes to [`Parser::receive`], and transmits whatever
//! `DataSend` events come back. When a stream-compression subnegotiation
//! completes, the unparsed rest of the delivery is handed back in a
//! `DecompressImmediate` event and must be decompressed before it is fed to
//! the parser again.
//!
//! What one `receive` call returns, and how it changes the parser, is
//! specified exactly by [`apply::process_spec`] over the views of the
//! compatibility table and the accumulation buffer.

pub mod apply;
pub mod compatibility;
pub mod escaping;
pub mod events;
pub mod laws;
pub mod segment;
pub mod telnet;
mod util;

pub use segment::EventType;

use vstd::prelude::*;
use vstd::string::StrSliceExecFns;
use vstd::string::StringSliceAdditionalSpecFns;

use crate::apply::apply_from;
use crate::apply::apply_one;
use crate::apply::flat_step;
use crate::apply::negotiate_step;
use crate::apply::process_spec;
use crate::apply::sub_step;
use crate::compatibility::CompatibilityEntry;
use crate::compatibility::CompatibilityTable;
use crate::compatibility::entry_mask;
use crate::compatibility::mask_entry;
use crate::escaping::escape_seq;
use crate::escaping::unescape_seq;
use crate::events::TelnetEvents;
use crate::events::TelnetEventView;
use crate::events::TelnetNegotiation;
use crate::events::TelnetSubnegotiation;
use crate::events::event_views;
use crate::events::lemma_event_views_push;
use crate::events::negotiation_frame;
use crate::events::subnegotiation_frame;
use crate::segment::SegmentView;
use crate::segment::seg_views;
use crate::segment::seg_wf;
use crate::segment::scan_segments;
use crate::segment::tail_view;
use crate::telnet::op_command::DO;
use crate::telnet::op_command::DONT;
use crate::telnet::op_command::GA;
use crate::telnet::op_command::IAC;
use crate::telnet::op_command::SB;
use crate::telnet::op_command::SE;
use crate::telnet::op_command::WILL;
use crate::telnet::op_command::WONT;
use crate::telnet::op_option::LINEMODE;
use crate::util::append_bytes;
use crate::util::bytes3;
use crate::util::copy_range;

verus! {

/// A telnet parser that handles the main parts of the protocol: it owns the
/// compatibility table and the accumulation buffer, and its view is a
/// [`ParserView`] holding the mathematical state of both.
pub struct Parser {
    pub options: CompatibilityTable,
    buffer: Vec<u8>,
}

/// The mathematical state of a parser: the 256 packed masks of its
/// compatibility table, and the bytes of its accumulation buffer.
pub struct ParserView {
    pub table: Seq<u8>,
    pub buffer: Seq<u8>,
}

impl View for Parser {
    type V = ParserView;

    closed spec fn view(&self) -> ParserView {
        ParserView { table: self.options@, buffer: self.buffer@ }
    }
}

impl Default for Parser {
    /// An empty parser with an all-default table.
    fn default() -> (r: Parser)
        ensures
            r@.table == Seq::new(256, |i: int| 0u8),
            r@.buffer == Seq::<u8>::empty(),
    {
        Parser { options: CompatibilityTable::new(), buffer: Vec::with_capacity(128) }
    }
}

impl Parser {
    /// Create a default, empty parser with an internal buffer capacity of
    /// 128 bytes.
    pub fn new() -> (r: Self)
        ensures
            r@.table == Seq::new(256, |i: int| 0u8),
            r@.buffer == Seq::<u8>::empty(),
    {
        Self::default()
    }

    /// Create an empty parser, choosing the initial internal buffer
    /// capacity.
    pub fn with_capacity(size: usize) -> (r: Self)
        ensures
            r@.table == Seq::new(256, |i: int| 0u8),
            r@.buffer == Seq::<u8>::empty(),
    {
        Self { options: CompatibilityTable::new(), buffer: Vec::with_capacity(size) }
    }

    /// Create a parser, choosing the initial internal buffer capacity and
    /// directly supplying a `CompatibilityTable`.
    pub fn with_support_and_capacity(size: usize, table: CompatibilityTable) -> (r: Self)
        ensures
            r@.table == table@,
            r@.buffer == Seq::<u8>::empty(),
    {
        Self { options: table, buffer: Vec::with_capacity(size) }
    }

    /// Create a parser, directly supplying a `CompatibilityTable`.
    ///
    /// Uses the default initial buffer capacity of 128 bytes.
    pub fn with_support(table: CompatibilityTable) -> (r: Self)
        ensures
            r@.table == table@,
            r@.buffer == Seq::<u8>::empty(),
    {
        Self { options: table, buffer: Vec::with_capacity(128) }
    }

    /// Receive bytes into the internal buffer and parse everything that has
    /// become complete.
    ///
    /// `data` should be sourced from the remote side of a connection. The
    /// returned events are exactly those that [`process_spec`] names for
    /// the carried-over buffer followed by `data`; the table and the buffer
    /// afterwards are the table and buffer that specification leaves.
    pub fn receive(&mut self, data: &[u8]) -> (r: Vec<TelnetEvents>)
        ensures
            event_views(r@) == process_spec(old(self)@.table, old(self)@.buffer + data@).events,
            final(self)@.table == process_spec(old(self)@.table, old(self)@.buffer + data@).table,
            final(self)@.buffer == process_spec(
                old(self)@.table,
                old(self)@.buffer + data@,
            ).buffer,
    {
        append_bytes(&mut self.buffer, data);
        self.process()
    }

    /// Get whether the remote end supports and is using linemode.
    pub fn linemode_enabled(&mut self) -> (r: bool)
        ensures
            r == ({
                let e = mask_entry(old(self)@.table[LINEMODE as int]);
                e.remote && e.remote_state
            }),
            *final(self) == *old(self),
    {
        let opt_entry = self.options.get_option(LINEMODE);
        opt_entry.remote && opt_entry.remote_state
    }

    /// Escape IAC bytes in data that is to be transmitted and treated as a
    /// non-IAC sequence: every 0xFF is doubled.
    pub fn escape_iac(data: Vec<u8>) -> (r: Vec<u8>)
        ensures
            r@ == escape_seq(data@),
    {
        escaping::escape_bytes(data.as_slice())
    }

    /// Reverse escaped IAC bytes: every 0xFF 0xFF pair, taken pairwise from
    /// the left, collapses to one 0xFF.
    pub fn unescape_iac(data: Vec<u8>) -> (r: Vec<u8>)
        ensures
            r@ == unescape_seq(data@),
    {
        escaping::unescape_bytes(data.as_slice())
    }

    /// Build the `DataSend` event for one negotiation frame, with no state
    /// check and no state change.
    pub fn negotiate(&mut self, command: u8, option: u8) -> (r: TelnetEvents)
        ensures
            r@ == (TelnetEventView::DataSend { bytes: negotiation_frame(command, option) }),
            *final(self) == *old(self),
    {
        TelnetEvents::build_send(TelnetNegotiation::new(command, option).into_bytes())
    }

    /// Indicate to the other side that you are able and wanting to use an
    /// option locally: when the option is locally supported and not yet
    /// locally enabled, the flag is set and the `IAC WILL option` frame is
    /// returned; otherwise nothing happens.
    pub fn _will(&mut self, option: u8) -> (r: Option<TelnetEvents>)
        ensures
            ({
                let e = mask_entry(old(self)@.table[option as int]);
                if e.local && !e.local_state {
                    &&& final(self)@.table == old(self)@.table.update(
                        option as int,
                        entry_mask(CompatibilityEntry { local_state: true, ..e }),
                    )
                    &&& r matches Some(ev) && ev@ == (TelnetEventView::DataSend {
                        bytes: negotiation_frame(WILL, option),
                    })
                } else {
                    &&& final(self)@.table == old(self)@.table
                    &&& r is None
                }
            }),
            final(self)@.buffer == old(self)@.buffer,
    {
        let mut opt_entry = self.options.get_option(option);
        if opt_entry.local && !opt_entry.local_state {
            opt_entry.local_state = true;
            self.options.set_option(option, opt_entry);
            Some(self.negotiate(WILL, option))
        } else {
            None
        }
    }

    /// Indicate to the other side that you are not wanting to use an option
    /// locally: when the option is locally enabled, the flag is cleared and
    /// the `IAC WONT option` frame is returned; otherwise nothing happens.
    pub fn _wont(&mut self, option: u8) -> (r: Option<TelnetEvents>)
        ensures
            ({
                let e = mask_entry(old(self)@.table[option as int]);
                if e.local_state {
                    &&& final(self)@.table == old(self)@.table.update(
                        option as int,
                        entry_mask(CompatibilityEntry { local_state: false, ..e }),
                    )
                    &&& r matches Some(ev) && ev@ == (TelnetEventView::DataSend {
                        bytes: negotiation_frame(WONT, option),
                    })
                } else {
                    &&& final(self)@.table == old(self)@.table
                    &&& r is None
                }
            }),
            final(self)@.buffer == old(self)@.buffer,
    {
        let mut opt_entry = self.options.get_option(option);
        if opt_entry.local_state {
            opt_entry.local_state = false;
            self.options.set_option(option, opt_entry);
            Some(self.negotiate(WONT, option))
        } else {
            None
        }
    }

    /// Ask the other side to enable an option: when the option is remotely
    /// supported and not yet remotely enabled, the flag is set and the
    /// `IAC DO option` frame is returned; otherwise nothing happens.
    pub fn _do(&mut self, option: u8) -> (r: Option<TelnetEvents>)
        ensures
            ({
                let e = mask_entry(old(self)@.table[option as int]);
                if e.remote && !e.remote_state {
                    &&& final(self)@.table == old(self)@.table.update(
                        option as int,
                        entry_mask(CompatibilityEntry { remote_state: true, ..e }),
                    )
                    &&& r matches Some(ev) && ev@ == (TelnetEventView::DataSend {
                        bytes: negotiation_frame(DO, option),
                    })
                } else {
                    &&& final(self)@.table == old(self)@.table
                    &&& r is None
                }
            }),
            final(self)@.buffer == old(self)@.buffer,
    {
        let mut opt_entry = self.options.get_option(option);
        if opt_entry.remote && !opt_entry.remote_state {
            opt_entry.remote_state = true;
            self.options.set_option(option, opt_entry);
            Some(self.negotiate(DO, option))
        } else {
            None
        }
    }

    /// Ask the other side to disable an option: when the option is remotely
    /// enabled, the flag is cleared and the `IAC DONT option` frame is
    /// returned; otherwise nothing happens.
    pub fn _dont(&mut self, option: u8) -> (r: Option<TelnetEvents>)
        ensures
            ({
                let e = mask_entry(old(self)@.table[option as int]);
                if e.remote_state {
                    &&& final(self)@.table == old(self)@.table.update(
                        option as int,
                        entry_mask(CompatibilityEntry { remote_state: false, ..e }),
                    )
                    &&& r matches Some(ev) && ev@ == (TelnetEventView::DataSend {
                        bytes: negotiation_frame(DONT, option),
                    })
                } else {
                    &&& final(self)@.table == old(self)@.table
                    &&& r is None
                }
            }),
            final(self)@.buffer == old(self)@.buffer,
    {
        let mut opt_entry = self.options.get_option(option);
        if opt_entry.remote_state {
            opt_entry.remote_state = false;
            self.options.set_option(option, opt_entry);
            Some(self.negotiate(DONT, option))
        } else {
            None
        }
    }

    /// Send a subnegotiation for a locally supported option: when the
    /// option is locally supported and enabled, the framed and escaped
    /// `DataSend` event is returned; otherwise nothing happens.
    pub fn subnegotiation(&mut self, option: u8, data: Vec<u8>) -> (r: Option<TelnetEvents>)
        ensures
            ({
                let e = mask_entry(old(self)@.table[option as int]);
                if e.local && e.local_state {
                    r matches Some(ev) && ev@ == (TelnetEventView::DataSend {
                        bytes: subnegotiation_frame(option, data@),
                    })
                } else {
                    r is None
                }
            }),
            *final(self) == *old(self),
    {
        let opt_entry = self.options.get_option(option);
        if opt_entry.local && opt_entry.local_state {
            Some(
                TelnetEvents::build_send(
                    TelnetSubnegotiation::new(option, data).into_bytes(),
                ),
            )
        } else {
            None
        }
    }

    /// Send a subnegotiation for a locally supported option, using a string
    /// in place of raw byte values.
    pub fn subnegotiation_text(&mut self, option: u8, text: &str) -> (r: Option<TelnetEvents>)
        ensures
            ({
                let e = mask_entry(old(self)@.table[option as int]);
                if e.local && e.local_state {
                    r matches Some(ev) && ev@ == (TelnetEventView::DataSend {
                        bytes: subnegotiation_frame(option, text.spec_bytes()),
                    })
                } else {
                    r is None
                }
            }),
            *final(self) == *old(self),
    {
        let bytes = text.as_bytes_vec();
        self.subnegotiation(option, bytes)
    }

    /// Directly send a string to the remote end: its bytes, with an
    /// appended line terminator, are escaped, and an `IAC GA` go-ahead
    /// frame follows.
    pub fn send_text(&mut self, text: &str) -> (r: TelnetEvents)
        ensures
            r@ == (TelnetEventView::DataSend {
                bytes: escape_seq(text.spec_bytes() + seq![13u8, 10u8]) + seq![IAC, GA],
            }),
            *final(self) == *old(self),
    {
        let mut line = text.as_bytes_vec();
        line.push(13);
        line.push(10);
        proof {
            assert(line@ =~= text.spec_bytes() + seq![13u8, 10u8]);
        }
        let mut framed = escaping::escape_bytes(line.as_slice());
        framed.push(IAC);
        framed.push(GA);
        proof {
            assert(framed@ =~= escape_seq(text.spec_bytes() + seq![13u8, 10u8]) + seq![IAC, GA]);
        }
        TelnetEvents::build_send(framed)
    }

    /// Interpret one negotiation `IAC verb option`, exactly as
    /// [`negotiate_step`] describes: the table is read and updated, and the
    /// reply and notification events are appended in order.
    fn apply_negotiation(&mut self, verb: u8, option: u8, event_list: &mut Vec<TelnetEvents>)
        ensures
            final(self).options@ == negotiate_step(old(self).options@, verb, option).table,
            final(self).buffer@ == old(self).buffer@,
            event_views(final(event_list)@) == event_views(old(event_list)@) + negotiate_step(
                old(self).options@,
                verb,
                option,
            ).events,
    {
        let ghost el0 = event_list@;
        let mut opt_entry = self.options.get_option(option);
        if verb == WILL {
            if opt_entry.remote && !opt_entry.remote_state {
                opt_entry.remote_state = true;
                event_list.push(TelnetEvents::build_send(bytes3(IAC, DO, option)));
                self.options.set_option(option, opt_entry);
                let ghost el1 = event_list@;
                event_list.push(TelnetEvents::build_negotiation(verb, option));
                proof {
                    lemma_event_views_push(el1, event_list@.last());
                    lemma_event_views_push(el0, el1.last());
                    assert(event_views(event_list@) =~= event_views(el0) + negotiate_step(
                        old(self).options@,
                        verb,
                        option,
                    ).events);
                }
            } else if !opt_entry.remote {
                event_list.push(TelnetEvents::build_send(bytes3(IAC, DONT, option)));
                proof {
                    lemma_event_views_push(el0, event_list@.last());
                    assert(event_views(event_list@) =~= event_views(el0) + negotiate_step(
                        old(self).options@,
                        verb,
                        option,
                    ).events);
                }
            } else {
                proof {
                    assert(event_views(event_list@) =~= event_views(el0)
                        + Seq::<TelnetEventView>::empty());
                }
            }
        } else if verb == WONT {
            if opt_entry.remote_state {
                opt_entry.remote_state = false;
                self.options.set_option(option, opt_entry);
                event_list.push(TelnetEvents::build_send(bytes3(IAC, DONT, option)));
            }
            let ghost el1 = event_list@;
            event_list.push(TelnetEvents::build_negotiation(verb, option));
            proof {
                lemma_event_views_push(el1, event_list@.last());
                if el1.len() > el0.len() {
                    lemma_event_views_push(el0, el1.last());
                }
                assert(event_views(event_list@) =~= event_views(el0) + negotiate_step(
                    old(self).options@,
                    verb,
                    option,
                ).events);
            }
        } else if verb == DO {
            if opt_entry.local && !opt_entry.local_state {
                opt_entry.local_state = true;
                opt_entry.remote_state = true;
                event_list.push(TelnetEvents::build_send(bytes3(IAC, WILL, option)));
                self.options.set_option(option, opt_entry);
                let ghost el1 = event_list@;
                event_list.push(TelnetEvents::build_negotiation(verb, option));
                proof {
                    lemma_event_views_push(el1, event_list@.last());
                    lemma_event_views_push(el0, el1.last());
                    assert(event_views(event_list@) =~= event_views(el0) + negotiate_step(
                        old(self).options@,
                        verb,
                        option,
                    ).events);
                }
            } else if !opt_entry.local {
                event_list.push(TelnetEvents::build_send(bytes3(IAC, WONT, option)));
                proof {
                    lemma_event_views_push(el0, event_list@.last());
                    assert(event_views(event_list@) =~= event_views(el0) + negotiate_step(
                        old(self).options@,
                        verb,
                        option,
                    ).events);
                }
            } else {
                proof {
                    assert(event_views(event_list@) =~= event_views(el0)
                        + Seq::<TelnetEventView>::empty());
                }
            }
        } else if verb == DONT {
            if opt_entry.local_state {
                opt_entry.local_state = false;
                self.options.set_option(option, opt_entry);
                event_list.push(TelnetEvents::build_send(bytes3(IAC, WONT, option)));
            }
            let ghost el1 = event_list@;
            event_list.push(TelnetEvents::build_negotiation(verb, option));
            proof {
                lemma_event_views_push(el1, event_list@.last());
                if el1.len() > el0.len() {
                    lemma_event_views_push(el0, el1.last());
                }
                assert(event_views(event_list@) =~= event_views(el0) + negotiate_step(
                    old(self).options@,
                    verb,
                    option,
                ).events);
            }
        } else {
            proof {
                assert(event_views(event_list@) =~= event_views(el0)
                    + Seq::<TelnetEventView>::empty());
            }
        }
    }

    /// Interpret one plain, command or negotiation segment, exactly as
    /// [`flat_step`] describes.
    fn apply_flat(&mut self, b: Vec<u8>, event_list: &mut Vec<TelnetEvents>)
        ensures
            final(self).options@ == flat_step(old(self).options@, b@).table,
            final(self).buffer@ == old(self).buffer@,
            event_views(final(event_list)@) == event_views(old(event_list)@) + flat_step(
                old(self).options@,
                b@,
            ).events,
    {
        let ghost el0 = event_list@;
        if b.len() == 0 {
            proof {
                assert(event_views(event_list@) =~= event_views(el0)
                    + Seq::<TelnetEventView>::empty());
            }
        } else if b[0] == IAC {
            if b.len() == 2 {
                if b[1] != SE {
                    // IAC command
                    event_list.push(TelnetEvents::build_iac(b[1]));
                    proof {
                        lemma_event_views_push(el0, event_list@.last());
                        assert(event_views(event_list@) =~= event_views(el0) + flat_step(
                            old(self).options@,
                            b@,
                        ).events);
                    }
                } else {
                    // a degenerate `IAC SE` pair is silently dropped
                    proof {
                        assert(event_views(event_list@) =~= event_views(el0)
                            + Seq::<TelnetEventView>::empty());
                    }
                }
            } else if b.len() == 3 {
                self.apply_negotiation(b[1], b[2], event_list);
            } else {
                proof {
                    assert(event_views(event_list@) =~= event_views(el0)
                        + Seq::<TelnetEventView>::empty());
                }
            }
        } else {
            // not an IAC sequence: it is data
            let ghost bv = b@;
            event_list.push(TelnetEvents::build_receive(b));
            proof {
                lemma_event_views_push(el0, event_list@.last());
                assert(event_views(event_list@) =~= event_views(el0) + flat_step(
                    old(self).options@,
                    bv,
                ).events);
            }
        }
    }

    /// Interpret one subnegotiation segment, exactly as [`sub_step`]
    /// describes: a properly terminated one delivers its payload (and the
    /// decompression hand-off when a tail was carried), an unterminated one
    /// is written back into the accumulation buffer.
    fn apply_sub(&mut self, b: Vec<u8>, tail: Option<Vec<u8>>, event_list: &mut Vec<TelnetEvents>)
        requires
            b@.len() >= 2,
            b@[0] == IAC,
            b@[1] == SB,
        ensures
            final(self).options@ == old(self).options@,
            final(self).buffer@ == old(self).buffer@ + sub_step(
                old(self).options@,
                b@,
                tail_view(tail),
            ).buffer,
            event_views(final(event_list)@) == event_views(old(event_list)@) + sub_step(
                old(self).options@,
                b@,
                tail_view(tail),
            ).events,
    {
        let ghost el0 = event_list@;
        let n = b.len();
        if b[n - 2] == IAC && b[n - 1] == SE {
            // valid ending
            assert(n >= 4);
            let o = b[2];
            let opt_entry = self.options.get_option(o);
            if opt_entry.local && opt_entry.local_state && n - 2 >= 3 {
                let dbuffer = copy_range(&b, 3, n - 2);
                event_list.push(TelnetEvents::build_subnegotiation(o, dbuffer));
                let ghost el1 = event_list@;
                proof {
                    lemma_event_views_push(el0, el1.last());
                }
                match tail {
                    Some(rbuf) => {
                        event_list.push(TelnetEvents::DecompressImmediate(rbuf));
                        proof {
                            lemma_event_views_push(el1, event_list@.last());
                            assert(event_views(event_list@) =~= event_views(el0) + sub_step(
                                old(self).options@,
                                b@,
                                tail_view(tail),
                            ).events);
                        }
                    },
                    None => {
                        proof {
                            assert(event_views(event_list@) =~= event_views(el0) + sub_step(
                                old(self).options@,
                                b@,
                                tail_view(tail),
                            ).events);
                        }
                    },
                }
            } else {
                proof {
                    assert(event_views(event_list@) =~= event_views(el0)
                        + Seq::<TelnetEventView>::empty());
                }
            }
            proof {
                assert(self.buffer@ =~= old(self).buffer@ + Seq::<u8>::empty());
            }
        } else {
            // missing the rest: keep it for the next delivery
            append_bytes(&mut self.buffer, b.as_slice());
            proof {
                assert(event_views(event_list@) =~= event_views(el0)
                    + Seq::<TelnetEventView>::empty());
            }
        }
    }

    /// Take the accumulated buffer, cut it into segments, and interpret the
    /// segments in order.
    fn process(&mut self) -> (r: Vec<TelnetEvents>)
        ensures
            event_views(r@) == process_spec(old(self).options@, old(self).buffer@).events,
            final(self).options@ == process_spec(old(self).options@, old(self).buffer@).table,
            final(self).buffer@ == process_spec(old(self).options@, old(self).buffer@).buffer,
    {
        let ghost target = process_spec(old(self).options@, old(self).buffer@);
        let buf = self.buffer.split_off(0);
        proof {
            assert(buf@ =~= old(self).buffer@);
            assert(self.buffer@ =~= Seq::<u8>::empty());
        }
        let mut segs = scan_segments(&buf);
        let mut event_list: Vec<TelnetEvents> = Vec::with_capacity(2);
        proof {
            crate::events::lemma_event_views_empty(event_list@);
            assert(event_views(event_list@) + target.events =~= target.events);
        }
        while segs.len() > 0
            invariant
                target.events == event_views(event_list@) + apply_from(
                    seg_views(segs@),
                    self.options@,
                    self.buffer@,
                ).events,
                target.table == apply_from(seg_views(segs@), self.options@, self.buffer@).table,
                target.buffer == apply_from(seg_views(segs@), self.options@, self.buffer@).buffer,
                forall|k: int| 0 <= k < segs@.len() ==> seg_wf(#[trigger] segs@[k]@),
            decreases segs@.len(),
        {
            let ghost segs_old = segs@;
            let ghost segsv0 = seg_views(segs@);
            let ghost t0 = self.options@;
            let ghost b0 = self.buffer@;
            let ghost el0 = event_list@;
            let seg = segs.remove(0);
            proof {
                assert(seg@ == segsv0[0]);
                assert(seg_views(segs@) =~= segsv0.drop_first());
                assert forall|k: int| 0 <= k < segs@.len() implies seg_wf(
                    #[trigger] segs@[k]@,
                ) by {
                    assert(segs@[k] == segs_old[k + 1]);
                }
            }
            match seg {
                EventType::Plain(b) => self.apply_flat(b, &mut event_list),
                EventType::IAC(b) => self.apply_flat(b, &mut event_list),
                EventType::Neg(b) => self.apply_flat(b, &mut event_list),
                EventType::SubNegotiation(b, tail) => self.apply_sub(b, tail, &mut event_list),
            }
            proof {
                let h = apply_one(t0, segsv0[0]);
                assert(self.options@ == h.table);
                assert(self.buffer@ =~= b0 + h.buffer);
                let rest = apply_from(segsv0.drop_first(), h.table, b0 + h.buffer);
                assert(apply_from(segsv0, t0, b0).events == h.events + rest.events);
                assert(event_views(el0) + (h.events + rest.events) =~= (event_views(el0)
                    + h.events) + rest.events);
            }
        }
        proof {
            assert(seg_views(segs@) =~= Seq::<SegmentView>::empty());
            assert(event_views(event_list@) + Seq::<TelnetEventView>::empty() =~= event_views(
                event_list@,
            ));
        }
        event_list
    }
}

} // verus!
