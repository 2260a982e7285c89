//! Laws of the parser, proved over the [`crate::apply::process_spec`]
//! specification that `Parser::receive` is verified against: how a
//! fragmented subnegotiation reassembles, and how the DO / WILL handshake
//! answers.

use vstd::prelude::*;

use crate::apply::apply_from;
use crate::apply::apply_one;
use crate::apply::process_spec;
use crate::compatibility::CompatibilityEntry;
use crate::compatibility::entry_mask;
use crate::compatibility::lemma_mask_entry_roundtrip;
use crate::compatibility::mask_entry;
use crate::events::TelnetEventView;
use crate::segment::ScanState;
use crate::segment::SegmentView;
use crate::segment::scan_end;
use crate::segment::scan_from;
use crate::telnet::op_command::DO;
use crate::telnet::op_command::DONT;
use crate::telnet::op_command::EOR;
use crate::telnet::op_command::GA;
use crate::telnet::op_command::IAC;
use crate::telnet::op_command::NOP;
use crate::telnet::op_command::SB;
use crate::telnet::op_command::SE;
use crate::telnet::op_command::WILL;
use crate::telnet::op_option::MCCP2;
use crate::telnet::op_option::MCCP3;

verus! {

/// The scan of a single 3-byte negotiation: one negotiation segment.
proof fn lemma_scan_single_negotiation(msg: Seq<u8>)
    requires
        msg.len() == 3,
        msg[0] == IAC,
        msg[1] != IAC,
        msg[1] != GA,
        msg[1] != EOR,
        msg[1] != NOP,
        msg[1] != SB,
    ensures
        scan_from(msg, 0, 0, ScanState::Normal) == seq![
            SegmentView::Negotiation { bytes: msg },
        ],
{
    assert(msg.subrange(0, 3) =~= msg);
    assert(scan_from(msg, 3, 3, ScanState::Normal) == Seq::<SegmentView>::empty());
    assert(scan_from(msg, 2, 0, ScanState::Neg) =~= seq![
        SegmentView::Negotiation { bytes: msg },
    ]);
    assert(scan_from(msg, 1, 0, ScanState::Iac) == scan_from(msg, 2, 0, ScanState::Neg));
    assert(scan_from(msg, 0, 0, ScanState::Normal) =~= scan_from(msg, 1, 0, ScanState::Iac));
}

/// Interpreting a single 3-byte negotiation is exactly one step of the
/// negotiation state machine, and buffers nothing.
proof fn lemma_process_single_negotiation(table: Seq<u8>, verb: u8, option: u8)
    requires
        verb != IAC,
        verb != GA,
        verb != EOR,
        verb != NOP,
        verb != SB,
    ensures
        process_spec(table, seq![IAC, verb, option]).events == crate::apply::negotiate_step(
            table,
            verb,
            option,
        ).events,
        process_spec(table, seq![IAC, verb, option]).table == crate::apply::negotiate_step(
            table,
            verb,
            option,
        ).table,
        process_spec(table, seq![IAC, verb, option]).buffer == Seq::<u8>::empty(),
{
    let msg = seq![IAC, verb, option];
    lemma_scan_single_negotiation(msg);
    let seg = SegmentView::Negotiation { bytes: msg };
    let segs = seq![seg];
    let h = apply_one(table, seg);
    let rest = crate::apply::apply_from(segs.drop_first(), h.table, Seq::<u8>::empty() + h.buffer);
    assert(segs.drop_first() =~= Seq::<SegmentView>::empty());
    assert(segs[0] == seg);
    assert(rest.events == Seq::<TelnetEventView>::empty());
    assert(crate::apply::apply_from(segs, table, Seq::<u8>::empty()).events == h.events
        + rest.events);
    let step = crate::apply::negotiate_step(table, verb, option);
    assert(h.events == step.events && h.table == step.table && h.buffer == Seq::<u8>::empty());
    assert(process_spec(table, msg).events =~= step.events);
    assert(process_spec(table, msg).buffer =~= Seq::<u8>::empty());
}

/// Law: receiving `IAC DO option` when the option is locally supported and
/// not yet locally enabled yields exactly one `DataSend` of
/// `IAC WILL option` (followed by the `Negotiation` notification), sets
/// both the local and the remote enabled flags, and buffers nothing;
/// receiving the same `IAC DO option` again afterwards yields no event at
/// all and changes nothing.
pub proof fn lemma_do_negotiation_symmetry(table: Seq<u8>, option: u8)
    requires
        table.len() == 256,
        mask_entry(table[option as int]).local,
        !mask_entry(table[option as int]).local_state,
    ensures
        ({
            let e = mask_entry(table[option as int]);
            let once = process_spec(table, seq![IAC, DO, option]);
            let again = process_spec(once.table, seq![IAC, DO, option]);
            &&& once.events == seq![
                TelnetEventView::DataSend { bytes: seq![IAC, WILL, option] },
                TelnetEventView::Negotiation { command: DO, option },
            ]
            &&& once.table == table.update(
                option as int,
                entry_mask(CompatibilityEntry { local_state: true, remote_state: true, ..e }),
            )
            &&& once.buffer == Seq::<u8>::empty()
            &&& again.events == Seq::<TelnetEventView>::empty()
            &&& again.table == once.table
            &&& again.buffer == Seq::<u8>::empty()
        }),
{
    let e = mask_entry(table[option as int]);
    lemma_process_single_negotiation(table, DO, option);
    let once = process_spec(table, seq![IAC, DO, option]);
    let e2 = CompatibilityEntry { local_state: true, remote_state: true, ..e };
    lemma_mask_entry_roundtrip(e2);
    assert(once.table[option as int] == entry_mask(e2));
    lemma_process_single_negotiation(once.table, DO, option);
}

/// Law: receiving `IAC WILL option` when the option is not remotely
/// supported yields exactly the refusal `DataSend` of `IAC DONT option`,
/// no `Negotiation` notification, leaves the table unchanged, and buffers
/// nothing.
pub proof fn lemma_unsupported_will_refusal(table: Seq<u8>, option: u8)
    requires
        table.len() == 256,
        !mask_entry(table[option as int]).remote,
    ensures
        process_spec(table, seq![IAC, WILL, option]).events == seq![
            TelnetEventView::DataSend { bytes: seq![IAC, DONT, option] },
        ],
        process_spec(table, seq![IAC, WILL, option]).table == table,
        process_spec(table, seq![IAC, WILL, option]).buffer == Seq::<u8>::empty(),
{
    lemma_process_single_negotiation(table, WILL, option);
}

/// The scan is translation-invariant: scanning the suffix of a longer
/// buffer, with the position and segment start already inside the suffix,
/// cuts the same segments as scanning the suffix alone.
proof fn lemma_scan_shift(p: Seq<u8>, s: Seq<u8>, i: int, c: int, st: ScanState)
    requires
        0 <= c <= i <= s.len(),
    ensures
        scan_from(p + s, p.len() + i, p.len() + c, st) == scan_from(s, i, c, st),
    decreases s.len() - i,
{
    let b = p + s;
    let n = p.len() as int;
    if i >= s.len() {
        if c < s.len() {
            assert(b.subrange(n + c, b.len() as int) =~= s.subrange(c, s.len() as int));
        }
        assert(scan_from(b, n + i, n + c, st) =~= scan_from(s, i, c, st));
    } else {
        assert(b[n + i] == s[i]);
        match st {
            ScanState::Normal => {
                if s[i] == IAC {
                    lemma_scan_shift(p, s, i + 1, i, ScanState::Iac);
                    if c < i {
                        assert(b.subrange(n + c, n + i) =~= s.subrange(c, i));
                    }
                    assert(scan_from(b, n + i, n + c, st) =~= scan_from(s, i, c, st));
                } else {
                    lemma_scan_shift(p, s, i + 1, c, ScanState::Normal);
                }
            },
            ScanState::Iac => {
                if s[i] == IAC {
                    lemma_scan_shift(p, s, i + 1, c, ScanState::Normal);
                } else if s[i] == GA || s[i] == EOR || s[i] == NOP {
                    lemma_scan_shift(p, s, i + 1, i + 1, ScanState::Normal);
                    assert(b.subrange(n + c, n + i + 1) =~= s.subrange(c, i + 1));
                    assert(scan_from(b, n + i, n + c, st) =~= scan_from(s, i, c, st));
                } else if s[i] == SB {
                    lemma_scan_shift(p, s, i + 1, c, ScanState::Sub);
                } else {
                    lemma_scan_shift(p, s, i + 1, c, ScanState::Neg);
                }
            },
            ScanState::Neg => {
                lemma_scan_shift(p, s, i + 1, i + 1, ScanState::Normal);
                assert(b.subrange(n + c, n + i + 1) =~= s.subrange(c, i + 1));
                assert(scan_from(b, n + i, n + c, st) =~= scan_from(s, i, c, st));
            },
            ScanState::Sub => {
                if i - c >= 4 {
                    assert(b[n + c] == s[c] && b[n + c + 1] == s[c + 1] && b[n + c + 2] == s[c
                        + 2] && b[n + i - 1] == s[i - 1]);
                }
                let done = i - c >= 4 && s[c] == IAC && s[c + 1] == SB && s[i] == SE && s[i - 1]
                    == IAC;
                if done {
                    if s[c + 2] == MCCP2 || s[c + 2] == MCCP3 {
                        assert(b.subrange(n + c, n + i + 1) =~= s.subrange(c, i + 1));
                        assert(b.subrange(n + i + 1, b.len() as int) =~= s.subrange(
                            i + 1,
                            s.len() as int,
                        ));
                        assert(scan_from(b, n + i, n + c, st) =~= scan_from(s, i, c, st));
                    } else {
                        lemma_scan_shift(p, s, i + 1, i + 1, ScanState::Normal);
                        assert(b.subrange(n + c, n + i + 1) =~= s.subrange(c, i + 1));
                        assert(scan_from(b, n + i, n + c, st) =~= scan_from(s, i, c, st));
                    }
                } else {
                    lemma_scan_shift(p, s, i + 1, c, ScanState::Sub);
                }
            },
        }
    }
}

/// Appending to a buffer whose scan ends in the plain state, with bytes
/// that open with IAC, does not disturb the cut: the combined buffer's
/// segments are the first buffer's segments followed by the appended
/// bytes' segments. (The trailing plain run of the first buffer, if any,
/// is flushed unchanged by the appended IAC.)
proof fn lemma_scan_concat(p: Seq<u8>, s: Seq<u8>, i: int, c: int, st: ScanState)
    requires
        0 <= c <= i <= p.len(),
        scan_end(p, i, c, st).1 is Normal,
        s.len() >= 1,
        s[0] == IAC,
    ensures
        scan_from(p + s, i, c, st) == scan_from(p, i, c, st) + scan_from(
            s,
            0,
            0,
            ScanState::Normal,
        ),
    decreases p.len() - i,
{
    let b = p + s;
    let n = p.len() as int;
    if i >= n {
        assert(st is Normal);
        assert(b[n] == s[0]);
        lemma_scan_shift(p, s, 1, 0, ScanState::Iac);
        if c < n {
            assert(b.subrange(c, n) =~= p.subrange(c, n));
        }
        assert(scan_from(b, i, c, st) =~= scan_from(p, i, c, st) + scan_from(
            s,
            0,
            0,
            ScanState::Normal,
        ));
    } else {
        assert(b[i] == p[i]);
        match st {
            ScanState::Normal => {
                if p[i] == IAC {
                    lemma_scan_concat(p, s, i + 1, i, ScanState::Iac);
                    if c < i {
                        assert(b.subrange(c, i) =~= p.subrange(c, i));
                    }
                    assert(scan_from(b, i, c, st) =~= scan_from(p, i, c, st) + scan_from(
                        s,
                        0,
                        0,
                        ScanState::Normal,
                    ));
                } else {
                    lemma_scan_concat(p, s, i + 1, c, ScanState::Normal);
                }
            },
            ScanState::Iac => {
                if p[i] == IAC {
                    lemma_scan_concat(p, s, i + 1, c, ScanState::Normal);
                } else if p[i] == GA || p[i] == EOR || p[i] == NOP {
                    lemma_scan_concat(p, s, i + 1, i + 1, ScanState::Normal);
                    assert(b.subrange(c, i + 1) =~= p.subrange(c, i + 1));
                    assert(scan_from(b, i, c, st) =~= scan_from(p, i, c, st) + scan_from(
                        s,
                        0,
                        0,
                        ScanState::Normal,
                    ));
                } else if p[i] == SB {
                    lemma_scan_concat(p, s, i + 1, c, ScanState::Sub);
                } else {
                    lemma_scan_concat(p, s, i + 1, c, ScanState::Neg);
                }
            },
            ScanState::Neg => {
                lemma_scan_concat(p, s, i + 1, i + 1, ScanState::Normal);
                assert(b.subrange(c, i + 1) =~= p.subrange(c, i + 1));
                assert(scan_from(b, i, c, st) =~= scan_from(p, i, c, st) + scan_from(
                    s,
                    0,
                    0,
                    ScanState::Normal,
                ));
            },
            ScanState::Sub => {
                if i - c >= 4 {
                    assert(b[c] == p[c] && b[c + 1] == p[c + 1] && b[c + 2] == p[c + 2] && b[i
                        - 1] == p[i - 1]);
                }
                let done = i - c >= 4 && p[c] == IAC && p[c + 1] == SB && p[i] == SE && p[i - 1]
                    == IAC;
                if done {
                    if p[c + 2] == MCCP2 || p[c + 2] == MCCP3 {
                        // a stream-compression stop leaves the scan in the
                        // subnegotiation state, which the precondition rules
                        // out
                        assert(scan_end(p, i, c, st).1 is Sub);
                    } else {
                        lemma_scan_concat(p, s, i + 1, i + 1, ScanState::Normal);
                        assert(b.subrange(c, i + 1) =~= p.subrange(c, i + 1));
                        assert(scan_from(b, i, c, st) =~= scan_from(p, i, c, st) + scan_from(
                            s,
                            0,
                            0,
                            ScanState::Normal,
                        ));
                    }
                } else {
                    lemma_scan_concat(p, s, i + 1, c, ScanState::Sub);
                }
            },
        }
    }
}

/// One step of segment interpretation, unfolded.
proof fn lemma_apply_step(seg: SegmentView, rest: Seq<SegmentView>, table: Seq<u8>, buffer: Seq<u8>)
    ensures
        ({
            let h = apply_one(table, seg);
            let r = apply_from(rest, h.table, buffer + h.buffer);
            &&& apply_from(seq![seg] + rest, table, buffer).events == h.events + r.events
            &&& apply_from(seq![seg] + rest, table, buffer).table == r.table
            &&& apply_from(seq![seg] + rest, table, buffer).buffer == r.buffer
        }),
{
    let segs = seq![seg] + rest;
    assert(segs[0] == seg);
    assert(segs.drop_first() =~= rest);
}

/// Interpreting two runs of segments one after the other: the second run
/// starts from the table and buffer the first one leaves, and the events
/// concatenate.
proof fn lemma_apply_concat(
    s1: Seq<SegmentView>,
    s2: Seq<SegmentView>,
    table: Seq<u8>,
    buffer: Seq<u8>,
)
    ensures
        ({
            let r1 = apply_from(s1, table, buffer);
            let r2 = apply_from(s2, r1.table, r1.buffer);
            &&& apply_from(s1 + s2, table, buffer).events == r1.events + r2.events
            &&& apply_from(s1 + s2, table, buffer).table == r2.table
            &&& apply_from(s1 + s2, table, buffer).buffer == r2.buffer
        }),
    decreases s1.len(),
{
    let r1 = apply_from(s1, table, buffer);
    if s1.len() == 0 {
        assert(s1 + s2 =~= s2);
        let r2 = apply_from(s2, table, buffer);
        assert(Seq::<TelnetEventView>::empty() + r2.events =~= r2.events);
    } else {
        let h = apply_one(table, s1[0]);
        assert((s1 + s2)[0] == s1[0]);
        assert((s1 + s2).drop_first() =~= s1.drop_first() + s2);
        lemma_apply_concat(s1.drop_first(), s2, h.table, buffer + h.buffer);
        let q1 = apply_from(s1.drop_first(), h.table, buffer + h.buffer);
        let q2 = apply_from(s2, q1.table, q1.buffer);
        assert(h.events + (q1.events + q2.events) =~= (h.events + q1.events) + q2.events);
    }
}

/// Interpreting the segments of a scan that ends in the plain state writes
/// nothing back into the accumulation buffer: every subnegotiation segment
/// such a scan cuts carries its full `IAC SE` trailer, and only an
/// unterminated one is re-buffered.
proof fn lemma_clean_scan_buffers_nothing(
    p: Seq<u8>,
    i: int,
    c: int,
    st: ScanState,
    table: Seq<u8>,
    buffer: Seq<u8>,
)
    requires
        0 <= c <= i <= p.len(),
        scan_end(p, i, c, st).1 is Normal,
    ensures
        apply_from(scan_from(p, i, c, st), table, buffer).buffer == buffer,
    decreases p.len() - i,
{
    if i >= p.len() {
        assert(st is Normal);
        if c < p.len() {
            let seg = SegmentView::Plain { bytes: p.subrange(c, p.len() as int) };
            assert(scan_from(p, i, c, st) =~= seq![seg] + Seq::<SegmentView>::empty());
            lemma_apply_step(seg, Seq::<SegmentView>::empty(), table, buffer);
            let h = apply_one(table, seg);
            assert(h.buffer == Seq::<u8>::empty());
            assert(buffer + h.buffer =~= buffer);
        } else {
            assert(scan_from(p, i, c, st) == Seq::<SegmentView>::empty());
        }
    } else {
        match st {
            ScanState::Normal => {
                if p[i] == IAC {
                    lemma_clean_scan_buffers_nothing(p, i + 1, i, ScanState::Iac, table, buffer);
                    if c < i {
                        let seg = SegmentView::Plain { bytes: p.subrange(c, i) };
                        let rest = scan_from(p, i + 1, i, ScanState::Iac);
                        assert(scan_from(p, i, c, st) == seq![seg] + rest);
                        lemma_apply_step(seg, rest, table, buffer);
                        let h = apply_one(table, seg);
                        assert(h.buffer == Seq::<u8>::empty());
                        assert(buffer + h.buffer =~= buffer);
                        lemma_clean_scan_buffers_nothing(
                            p,
                            i + 1,
                            i,
                            ScanState::Iac,
                            h.table,
                            buffer + h.buffer,
                        );
                    } else {
                        assert(Seq::<SegmentView>::empty() + scan_from(p, i + 1, i, ScanState::Iac)
                            =~= scan_from(p, i + 1, i, ScanState::Iac));
                    }
                } else {
                    lemma_clean_scan_buffers_nothing(p, i + 1, c, ScanState::Normal, table, buffer);
                }
            },
            ScanState::Iac => {
                if p[i] == IAC {
                    lemma_clean_scan_buffers_nothing(p, i + 1, c, ScanState::Normal, table, buffer);
                } else if p[i] == GA || p[i] == EOR || p[i] == NOP {
                    let seg = SegmentView::Command { bytes: p.subrange(c, i + 1) };
                    let rest = scan_from(p, i + 1, i + 1, ScanState::Normal);
                    assert(scan_from(p, i, c, st) == seq![seg] + rest);
                    lemma_apply_step(seg, rest, table, buffer);
                    let h = apply_one(table, seg);
                    assert(h.buffer == Seq::<u8>::empty());
                    assert(buffer + h.buffer =~= buffer);
                    lemma_clean_scan_buffers_nothing(
                        p,
                        i + 1,
                        i + 1,
                        ScanState::Normal,
                        h.table,
                        buffer + h.buffer,
                    );
                } else if p[i] == SB {
                    lemma_clean_scan_buffers_nothing(p, i + 1, c, ScanState::Sub, table, buffer);
                } else {
                    lemma_clean_scan_buffers_nothing(p, i + 1, c, ScanState::Neg, table, buffer);
                }
            },
            ScanState::Neg => {
                let seg = SegmentView::Negotiation { bytes: p.subrange(c, i + 1) };
                let rest = scan_from(p, i + 1, i + 1, ScanState::Normal);
                assert(scan_from(p, i, c, st) == seq![seg] + rest);
                lemma_apply_step(seg, rest, table, buffer);
                let h = apply_one(table, seg);
                assert(h.buffer == Seq::<u8>::empty());
                assert(buffer + h.buffer =~= buffer);
                lemma_clean_scan_buffers_nothing(
                    p,
                    i + 1,
                    i + 1,
                    ScanState::Normal,
                    h.table,
                    buffer + h.buffer,
                );
            },
            ScanState::Sub => {
                let done = i - c >= 4 && p[c] == IAC && p[c + 1] == SB && p[i] == SE && p[i - 1]
                    == IAC;
                if done {
                    if p[c + 2] == MCCP2 || p[c + 2] == MCCP3 {
                        assert(scan_end(p, i, c, st).1 is Sub);
                    } else {
                        let bytes = p.subrange(c, i + 1);
                        let seg = SegmentView::Subnegotiation { bytes, tail: Option::None };
                        let rest = scan_from(p, i + 1, i + 1, ScanState::Normal);
                        assert(scan_from(p, i, c, st) == seq![seg] + rest);
                        lemma_apply_step(seg, rest, table, buffer);
                        assert(bytes[bytes.len() - 2] == p[i - 1] && bytes[bytes.len() - 1]
                            == p[i]);
                        let h = apply_one(table, seg);
                        assert(h.buffer == Seq::<u8>::empty());
                        assert(buffer + h.buffer =~= buffer);
                        lemma_clean_scan_buffers_nothing(
                            p,
                            i + 1,
                            i + 1,
                            ScanState::Normal,
                            h.table,
                            buffer + h.buffer,
                        );
                    }
                } else {
                    lemma_clean_scan_buffers_nothing(p, i + 1, c, ScanState::Sub, table, buffer);
                }
            },
        }
    }
}

/// A complete, well-formed subnegotiation frame on the wire: it opens with
/// `IAC SB`, closes with `IAC SE`, is long enough to carry its option byte,
/// and its `IAC SE` trailer is the only place the scanner's terminator
/// condition holds.
pub open spec fn wf_subneg_frame(msg: Seq<u8>) -> bool {
    &&& msg.len() >= 5
    &&& msg[0] == IAC
    &&& msg[1] == SB
    &&& msg[msg.len() - 2] == IAC
    &&& msg[msg.len() - 1] == SE
    &&& forall|j: int| 4 <= j < msg.len() - 1 ==> !(#[trigger] msg[j] == SE && msg[j - 1] == IAC)
}

/// Scanning a buffer that opens `IAC SB` and holds no terminator stays in
/// the subnegotiation state to the end and hands the whole buffer back as
/// one unterminated segment.
proof fn lemma_scan_stays_sub(msg: Seq<u8>, i: int)
    requires
        msg.len() >= 2,
        msg[0] == IAC,
        msg[1] == SB,
        2 <= i <= msg.len(),
        forall|j: int| 4 <= j < msg.len() ==> !(#[trigger] msg[j] == SE && msg[j - 1] == IAC),
    ensures
        scan_from(msg, i, 0, ScanState::Sub) == seq![
            SegmentView::Subnegotiation {
                bytes: msg.subrange(0, msg.len() as int),
                tail: Option::None,
            },
        ],
    decreases msg.len() - i,
{
    if i >= msg.len() {
        assert(scan_from(msg, i, 0, ScanState::Sub) =~= seq![
            SegmentView::Subnegotiation {
                bytes: msg.subrange(0, msg.len() as int),
                tail: Option::None,
            },
        ]);
    } else {
        assert(!(i - 0 >= 4 && msg[0] == IAC && msg[1] == SB && msg[i] == SE && msg[i - 1]
            == IAC));
        lemma_scan_stays_sub(msg, i + 1);
    }
}

/// The whole scan of such a buffer: one unterminated subnegotiation
/// segment.
proof fn lemma_scan_incomplete_sub(msg: Seq<u8>)
    requires
        msg.len() >= 2,
        msg[0] == IAC,
        msg[1] == SB,
        forall|j: int| 4 <= j < msg.len() ==> !(#[trigger] msg[j] == SE && msg[j - 1] == IAC),
    ensures
        scan_from(msg, 0, 0, ScanState::Normal) == seq![
            SegmentView::Subnegotiation { bytes: msg, tail: Option::None },
        ],
{
    lemma_scan_stays_sub(msg, 2);
    assert(scan_from(msg, 1, 0, ScanState::Iac) == scan_from(msg, 2, 0, ScanState::Sub));
    assert(scan_from(msg, 0, 0, ScanState::Normal) =~= scan_from(msg, 1, 0, ScanState::Iac));
    assert(msg.subrange(0, msg.len() as int) =~= msg);
}

/// Law (fragmentation invariance): a wire-format byte stream made of a
/// run of complete frames (one whose scan ends back in the plain state), a
/// well-formed subnegotiation frame of a non-compression option, and any
/// trailing bytes, delivered in two pieces cut either at the frame's start
/// or inside it at or after its second byte, behaves as if delivered
/// whole: the events of the two calls concatenated, and the table and
/// buffer after the second call, equal those of a single call.
///
/// Two cuts inside the frame are left out. A cut inside its first two
/// bytes: the scanner re-emits a dangling `IAC` (or a bare run without the
/// `IAC SB` opening) as a trailing plain run rather than buffering it, and
/// the two-piece delivery then differs. And a cut exactly after a 4-byte
/// prefix `IAC SB IAC SE`: such a first piece looks completely terminated
/// and is dropped rather than buffered.
pub proof fn lemma_fragmentation_invariance(
    table: Seq<u8>,
    prefix: Seq<u8>,
    frame: Seq<u8>,
    rest: Seq<u8>,
    cut: int,
)
    requires
        table.len() == 256,
        scan_end(prefix, 0, 0, ScanState::Normal).1 is Normal,
        wf_subneg_frame(frame),
        frame[2] != MCCP2,
        frame[2] != MCCP3,
        cut == 0 || 2 <= cut,
        cut < frame.len(),
        !(cut == 4 && frame[2] == IAC && frame[3] == SE),
    ensures
        ({
            let first = process_spec(table, prefix + frame.take(cut));
            let second = process_spec(first.table, first.buffer + (frame.skip(cut) + rest));
            let whole = process_spec(table, prefix + (frame + rest));
            &&& first.events + second.events == whole.events
            &&& second.table == whole.table
            &&& second.buffer == whole.buffer
        }),
{
    let tail = frame + rest;
    assert(tail[0] == IAC && tail.len() >= 1);
    let pscan = scan_from(prefix, 0, 0, ScanState::Normal);
    let tscan = scan_from(tail, 0, 0, ScanState::Normal);
    let r1 = apply_from(pscan, table, Seq::<u8>::empty());
    lemma_clean_scan_buffers_nothing(
        prefix,
        0,
        0,
        ScanState::Normal,
        table,
        Seq::<u8>::empty(),
    );
    assert(r1.buffer == Seq::<u8>::empty());
    // the whole delivery: the prefix segments, then those of the rest of
    // the stream
    lemma_scan_concat(prefix, tail, 0, 0, ScanState::Normal);
    lemma_apply_concat(pscan, tscan, table, Seq::<u8>::empty());
    let whole = process_spec(table, prefix + tail);
    let w2 = apply_from(tscan, r1.table, r1.buffer);
    assert(whole.events == r1.events + w2.events);
    assert(whole.table == w2.table && whole.buffer == w2.buffer);
    if cut == 0 {
        // cut at the frame's start: the first piece is the prefix alone
        assert(prefix + frame.take(0) =~= prefix);
        let first = process_spec(table, prefix + frame.take(cut));
        assert(first.events == r1.events && first.table == r1.table && first.buffer
            == r1.buffer);
        assert(first.buffer + (frame.skip(0) + rest) =~= tail);
        let second = process_spec(first.table, first.buffer + (frame.skip(cut) + rest));
        assert(second.events == w2.events && second.table == w2.table && second.buffer
            == w2.buffer);
    } else {
        let m1 = frame.take(cut);
        assert(m1[0] == IAC && m1[1] == SB);
        assert forall|j: int| 4 <= j < m1.len() implies !(#[trigger] m1[j] == SE && m1[j - 1]
            == IAC) by {
            assert(m1[j] == frame[j] && m1[j - 1] == frame[j - 1]);
            assert(j < frame.len() - 1);
        }
        lemma_scan_incomplete_sub(m1);
        let seg = SegmentView::Subnegotiation { bytes: m1, tail: Option::None };
        // the cut piece does not end `IAC SE`, so it is re-buffered whole
        assert(!(m1[cut - 2] == IAC && m1[cut - 1] == SE)) by {
            if cut == 2 {
                assert(m1[1] == SB);
            } else if cut == 3 {
                assert(m1[1] == SB);
            } else if cut >= 5 {
                assert(4 <= cut - 1 < frame.len() - 1);
                assert(!(frame[cut - 1] == SE && frame[cut - 2] == IAC));
            }
        }
        // the first delivery: the prefix segments, then the unterminated one
        lemma_scan_concat(prefix, m1, 0, 0, ScanState::Normal);
        lemma_apply_concat(pscan, seq![seg], table, Seq::<u8>::empty());
        lemma_apply_step(seg, Seq::<SegmentView>::empty(), r1.table, r1.buffer);
        assert(seq![seg] + Seq::<SegmentView>::empty() =~= seq![seg]);
        let h = apply_one(r1.table, seg);
        assert(h.events == Seq::<TelnetEventView>::empty() && h.table == r1.table && h.buffer
            == m1);
        let hrest = apply_from(Seq::<SegmentView>::empty(), h.table, r1.buffer + h.buffer);
        assert(hrest.events == Seq::<TelnetEventView>::empty() && hrest.table == h.table
            && hrest.buffer == r1.buffer + h.buffer);
        let rsub = apply_from(seq![seg], r1.table, r1.buffer);
        assert(rsub.events =~= Seq::<TelnetEventView>::empty());
        assert(rsub.table == r1.table);
        assert(rsub.buffer =~= m1);
        let first = process_spec(table, prefix + frame.take(cut));
        assert(first.events =~= r1.events);
        assert(first.table == r1.table);
        assert(first.buffer == rsub.buffer);
        // the second delivery re-assembles the frame exactly, followed by
        // the rest of the stream
        assert(first.buffer + (frame.skip(cut) + rest) =~= tail);
        let second = process_spec(first.table, first.buffer + (frame.skip(cut) + rest));
        assert(second.events == w2.events && second.table == w2.table && second.buffer
            == w2.buffer);
        assert(first.events + second.events =~= r1.events + w2.events);
    }
}
} // verus!
