//! The byte-stream segmentation engine: a single left-to-right scan that
//! splits the accumulation buffer into plain runs, 2-byte commands, 3-byte
//! negotiations and bracketed subnegotiations, tolerant of sequences cut
//! short by fragmentation. The scan is specified by the recursive
//! [`scan_from`] function, and the executable scanner is proved to return
//! exactly the segments that specification names.

use vstd::prelude::*;

use crate::telnet::op_command::EOR;
use crate::telnet::op_command::GA;
use crate::telnet::op_command::IAC;
use crate::telnet::op_command::NOP;
use crate::telnet::op_command::SB;
use crate::telnet::op_command::SE;
use crate::telnet::op_option::MCCP2;
use crate::telnet::op_option::MCCP3;
use crate::util::copy_range;

verus! {

/// The scanner's four states: reading plain data, just after an IAC byte,
/// waiting for the option byte of a negotiation, and inside a
/// subnegotiation.
pub enum ScanState {
    Normal,
    Iac,
    Neg,
    Sub,
}

/// The mathematical value of one segment cut from the buffer.
pub enum SegmentView {
    Plain { bytes: Seq<u8> },
    Command { bytes: Seq<u8> },
    Negotiation { bytes: Seq<u8> },
    Subnegotiation { bytes: Seq<u8>, tail: Option<Seq<u8>> },
}

/// One segment extracted from the accumulation buffer. `Plain` holds a plain
/// run (or an unclassified trailing run), `IAC` a 2-byte command, `Neg` a
/// 3-byte negotiation, and `SubNegotiation` a subnegotiation together with
/// the unscanned rest of the buffer when a stream-compression option closed.
pub enum EventType {
    Plain(Vec<u8>),
    IAC(Vec<u8>),
    SubNegotiation(Vec<u8>, Option<Vec<u8>>),
    Neg(Vec<u8>),
}

/// The view of a carried buffer tail: the byte sequence, when one is there.
pub open spec fn tail_view(t: Option<Vec<u8>>) -> Option<Seq<u8>> {
    match t {
        Option::Some(v) => Option::Some(v@),
        Option::None => Option::None,
    }
}

impl View for EventType {
    type V = SegmentView;

    open spec fn view(&self) -> SegmentView {
        match self {
            EventType::Plain(b) => SegmentView::Plain { bytes: b@ },
            EventType::IAC(b) => SegmentView::Command { bytes: b@ },
            EventType::Neg(b) => SegmentView::Negotiation { bytes: b@ },
            EventType::SubNegotiation(b, t) => SegmentView::Subnegotiation {
                bytes: b@,
                tail: tail_view(*t),
            },
        }
    }
}

/// The views of a sequence of segments.
pub open spec fn seg_views(s: Seq<EventType>) -> Seq<SegmentView> {
    s.map_values(|e: EventType| e@)
}

/// Appending one segment appends its view.
pub proof fn lemma_seg_views_push(s: Seq<EventType>, e: EventType)
    ensures
        seg_views(s.push(e)) == seg_views(s).push(e@),
{
    assert(seg_views(s.push(e)) =~= seg_views(s).push(e@));
}

/// A subnegotiation segment always starts with `IAC SB`; the scanner cuts
/// no other shape.
pub open spec fn seg_wf(s: SegmentView) -> bool {
    match s {
        SegmentView::Subnegotiation { bytes, tail } => bytes.len() >= 2 && bytes[0] == IAC
            && bytes[1] == SB,
        _ => true,
    }
}

/// The segments the scan leaves when the buffer ends: an unterminated
/// subnegotiation is handed on as such, anything else still pending is a
/// trailing plain run.
pub open spec fn end_segments(buf: Seq<u8>, c: int, st: ScanState) -> Seq<SegmentView> {
    if c < buf.len() {
        match st {
            ScanState::Sub => seq![
                SegmentView::Subnegotiation {
                    bytes: buf.subrange(c, buf.len() as int),
                    tail: Option::None,
                },
            ],
            _ => seq![SegmentView::Plain { bytes: buf.subrange(c, buf.len() as int) }],
        }
    } else {
        Seq::empty()
    }
}

/// The segments produced by scanning `buf` from position `i`, with the
/// current segment starting at `c` and the scanner in state `st`.
///
/// In state `Sub`, a byte equal to SE whose predecessor is IAC closes the
/// segment once it is at least five bytes long; if its option byte is one
/// of the stream-compression codes, the rest of the buffer is carried out
/// as the segment's tail and the scan stops at once.
pub open spec fn scan_from(buf: Seq<u8>, i: int, c: int, st: ScanState) -> Seq<SegmentView>
    decreases buf.len() - i,
{
    if i < 0 || i >= buf.len() {
        end_segments(buf, c, st)
    } else {
        let v = buf[i];
        match st {
            ScanState::Normal => if v == IAC {
                (if c < i {
                    seq![SegmentView::Plain { bytes: buf.subrange(c, i) }]
                } else {
                    Seq::empty()
                }) + scan_from(buf, i + 1, i, ScanState::Iac)
            } else {
                scan_from(buf, i + 1, c, ScanState::Normal)
            },
            ScanState::Iac => if v == IAC {
                scan_from(buf, i + 1, c, ScanState::Normal)
            } else if v == GA || v == EOR || v == NOP {
                seq![SegmentView::Command { bytes: buf.subrange(c, i + 1) }] + scan_from(
                    buf,
                    i + 1,
                    i + 1,
                    ScanState::Normal,
                )
            } else if v == SB {
                scan_from(buf, i + 1, c, ScanState::Sub)
            } else {
                scan_from(buf, i + 1, c, ScanState::Neg)
            },
            ScanState::Neg => seq![SegmentView::Negotiation { bytes: buf.subrange(c, i + 1) }]
                + scan_from(buf, i + 1, i + 1, ScanState::Normal),
            ScanState::Sub => if i - c >= 4 && buf[c] == IAC && buf[c + 1] == SB && v == SE && buf[
                i - 1
            ] == IAC {
                if buf[c + 2] == MCCP2 || buf[c + 2] == MCCP3 {
                    seq![
                        SegmentView::Subnegotiation {
                            bytes: buf.subrange(c, i + 1),
                            tail: Option::Some(buf.subrange(i + 1, buf.len() as int)),
                        },
                    ]
                } else {
                    seq![
                        SegmentView::Subnegotiation {
                            bytes: buf.subrange(c, i + 1),
                            tail: Option::None,
                        },
                    ] + scan_from(buf, i + 1, i + 1, ScanState::Normal)
                }
            } else {
                scan_from(buf, i + 1, c, ScanState::Sub)
            },
        }
    }
}

/// The segments of a whole buffer: the scan started at its first byte.
pub open spec fn segments(buf: Seq<u8>) -> Seq<SegmentView> {
    scan_from(buf, 0, 0, ScanState::Normal)
}

/// Where the scan ends: the segment start and scanner state in hand when
/// the buffer runs out. A stream-compression stop reports the
/// subnegotiation state, since the scan did not run to the end of the
/// buffer.
pub open spec fn scan_end(buf: Seq<u8>, i: int, c: int, st: ScanState) -> (int, ScanState)
    decreases buf.len() - i,
{
    if i < 0 || i >= buf.len() {
        (c, st)
    } else {
        let v = buf[i];
        match st {
            ScanState::Normal => if v == IAC {
                scan_end(buf, i + 1, i, ScanState::Iac)
            } else {
                scan_end(buf, i + 1, c, ScanState::Normal)
            },
            ScanState::Iac => if v == IAC {
                scan_end(buf, i + 1, c, ScanState::Normal)
            } else if v == GA || v == EOR || v == NOP {
                scan_end(buf, i + 1, i + 1, ScanState::Normal)
            } else if v == SB {
                scan_end(buf, i + 1, c, ScanState::Sub)
            } else {
                scan_end(buf, i + 1, c, ScanState::Neg)
            },
            ScanState::Neg => scan_end(buf, i + 1, i + 1, ScanState::Normal),
            ScanState::Sub => if i - c >= 4 && buf[c] == IAC && buf[c + 1] == SB && v == SE && buf[
                i - 1
            ] == IAC {
                if buf[c + 2] == MCCP2 || buf[c + 2] == MCCP3 {
                    (c, ScanState::Sub)
                } else {
                    scan_end(buf, i + 1, i + 1, ScanState::Normal)
                }
            } else {
                scan_end(buf, i + 1, c, ScanState::Sub)
            },
        }
    }
}

/// Cut the buffer into its segments, exactly as [`segments`] names them.
pub(crate) fn scan_segments(buf: &Vec<u8>) -> (segs: Vec<EventType>)
    ensures
        seg_views(segs@) == segments(buf@),
        forall|k: int| 0 <= k < segs@.len() ==> seg_wf(#[trigger] segs@[k]@),
{
    let mut segs: Vec<EventType> = Vec::with_capacity(4);
    let mut st = ScanState::Normal;
    let mut cmd_begin: usize = 0;
    let mut i: usize = 0;
    while i < buf.len()
        invariant
            i <= buf@.len(),
            cmd_begin <= i,
            st is Iac ==> cmd_begin + 1 == i && buf@[cmd_begin as int] == IAC,
            st is Neg ==> cmd_begin + 2 == i && buf@[cmd_begin as int] == IAC,
            st is Sub ==> cmd_begin + 2 <= i && buf@[cmd_begin as int] == IAC && buf@[cmd_begin
                + 1 as int] == SB,
            segments(buf@) == seg_views(segs@) + scan_from(
                buf@,
                i as int,
                cmd_begin as int,
                st,
            ),
            forall|k: int| 0 <= k < segs@.len() ==> seg_wf(#[trigger] segs@[k]@),
        decreases buf@.len() - i,
    {
        let ghost segs0 = segs@;
        let ghost i0 = i as int;
        let ghost c0 = cmd_begin as int;
        let ghost st0 = st;
        let ghost rest0 = scan_from(buf@, i0, c0, st0);
        let v = buf[i];
        match st {
            ScanState::Normal => {
                if v == IAC {
                    if cmd_begin < i {
                        let seg = EventType::Plain(copy_range(buf, cmd_begin, i));
                        segs.push(seg);
                        proof {
                            lemma_seg_views_push(segs0, seg);
                            assert(seg_views(segs@) + scan_from(buf@, i0 + 1, i0, ScanState::Iac)
                                =~= seg_views(segs0) + rest0);
                        }
                    }
                    cmd_begin = i;
                    st = ScanState::Iac;
                } else {
                    // plain run continues
                }
            },
            ScanState::Iac => {
                if v == IAC {
                    st = ScanState::Normal;
                } else if v == GA || v == EOR || v == NOP {
                    let seg = EventType::IAC(copy_range(buf, cmd_begin, i + 1));
                    segs.push(seg);
                    proof {
                        lemma_seg_views_push(segs0, seg);
                        assert(seg_views(segs@) + scan_from(buf@, i0 + 1, i0 + 1, ScanState::Normal)
                            =~= seg_views(segs0) + rest0);
                    }
                    cmd_begin = i + 1;
                    st = ScanState::Normal;
                } else if v == SB {
                    st = ScanState::Sub;
                } else {
                    st = ScanState::Neg;
                }
            },
            ScanState::Neg => {
                let seg = EventType::Neg(copy_range(buf, cmd_begin, i + 1));
                segs.push(seg);
                proof {
                    lemma_seg_views_push(segs0, seg);
                    assert(seg_views(segs@) + scan_from(buf@, i0 + 1, i0 + 1, ScanState::Normal)
                        =~= seg_views(segs0) + rest0);
                }
                cmd_begin = i + 1;
                st = ScanState::Normal;
            },
            ScanState::Sub => {
                let long_enough = i - cmd_begin >= 4;
                let has_prefix = buf[cmd_begin] == IAC && buf[cmd_begin + 1] == SB;
                let has_suffix = v == SE && buf[i - 1] == IAC;
                if long_enough && has_prefix && has_suffix {
                    let opt = buf[cmd_begin + 2];
                    if opt == MCCP2 || opt == MCCP3 {
                        // Stream compression begins right after this segment:
                        // hand the unscanned rest of the buffer out whole and
                        // stop scanning.
                        let seg = EventType::SubNegotiation(
                            copy_range(buf, cmd_begin, i + 1),
                            Some(copy_range(buf, i + 1, buf.len())),
                        );
                        segs.push(seg);
                        proof {
                            lemma_seg_views_push(segs0, seg);
                            assert(seg_views(segs@) =~= seg_views(segs0) + rest0);
                        }
                        cmd_begin = buf.len();
                        i = buf.len();
                        st = ScanState::Normal;
                    } else {
                        let seg = EventType::SubNegotiation(
                            copy_range(buf, cmd_begin, i + 1),
                            None,
                        );
                        segs.push(seg);
                        proof {
                            lemma_seg_views_push(segs0, seg);
                            assert(seg_views(segs@) + scan_from(
                                buf@,
                                i0 + 1,
                                i0 + 1,
                                ScanState::Normal,
                            ) =~= seg_views(segs0) + rest0);
                        }
                        cmd_begin = i + 1;
                        st = ScanState::Normal;
                    }
                }
            },
        }
        if i < buf.len() {
            i += 1;
        }
    }
    let ghost segs1 = segs@;
    let ghost c1 = cmd_begin as int;
    let ghost st1 = st;
    if cmd_begin < buf.len() {
        let rest = copy_range(buf, cmd_begin, buf.len());
        let seg = match st {
            ScanState::Sub => EventType::SubNegotiation(rest, None),
            _ => EventType::Plain(rest),
        };
        segs.push(seg);
        proof {
            lemma_seg_views_push(segs1, seg);
            assert(seg_views(segs@) =~= seg_views(segs1) + end_segments(buf@, c1, st1));
        }
    }
    segs
}

} // verus!
