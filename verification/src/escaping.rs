//! IAC byte escaping: 0xFF is both a literal data byte and the protocol's
//! command introducer, so a literal 0xFF headed for the wire is doubled, and
//! the inverse transform collapses adjacent 0xFF 0xFF pairs, scanning left to
//! right and consuming each escaped pair atomically.

use vstd::prelude::*;

use crate::telnet::op_command::IAC;

verus! {

/// The escaped form of a byte sequence: every 0xFF doubled, every other
/// byte passed through.
pub open spec fn escape_seq(s: Seq<u8>) -> Seq<u8>
    decreases s.len(),
{
    if s.len() == 0 {
        Seq::empty()
    } else if s[0] == IAC {
        seq![IAC, IAC] + escape_seq(s.drop_first())
    } else {
        seq![s[0]] + escape_seq(s.drop_first())
    }
}

/// The unescaped form of a byte sequence: scanning from the left, each
/// adjacent 0xFF 0xFF pair collapses to one 0xFF and is consumed whole; any
/// other byte, including a lone trailing 0xFF, passes through.
pub open spec fn unescape_seq(s: Seq<u8>) -> Seq<u8>
    decreases s.len(),
{
    if s.len() == 0 {
        Seq::empty()
    } else if s.len() >= 2 && s[0] == IAC && s[1] == IAC {
        seq![IAC] + unescape_seq(s.skip(2))
    } else {
        seq![s[0]] + unescape_seq(s.skip(1))
    }
}

/// Law: unescaping an escaped sequence returns the original, for every byte
/// sequence.
pub proof fn lemma_unescape_escape(s: Seq<u8>)
    ensures
        unescape_seq(escape_seq(s)) == s,
    decreases s.len(),
{
    if s.len() == 0 {
        assert(unescape_seq(escape_seq(s)) =~= s);
    } else {
        lemma_unescape_escape(s.drop_first());
        let rest = escape_seq(s.drop_first());
        if s[0] == IAC {
            let e = seq![IAC, IAC] + rest;
            assert(e.skip(2) =~= rest);
            assert(unescape_seq(e) == seq![IAC] + unescape_seq(e.skip(2)));
            assert(seq![IAC] + s.drop_first() =~= s);
        } else {
            let e = seq![s[0]] + rest;
            assert(e.skip(1) =~= rest);
            assert(unescape_seq(e) == seq![e[0]] + unescape_seq(e.skip(1)));
            assert(seq![s[0]] + s.drop_first() =~= s);
        }
    }
}

/// Escape a byte sequence for transmission: double every 0xFF.
pub fn escape_bytes(data: &[u8]) -> (r: Vec<u8>)
    ensures
        r@ == escape_seq(data@),
{
    let mut out: Vec<u8> = Vec::with_capacity(data.len());
    let mut i: usize = 0;
    proof {
        assert(data@.skip(0) =~= data@);
        assert(out@ + escape_seq(data@) =~= escape_seq(data@));
    }
    while i < data.len()
        invariant
            i <= data@.len(),
            escape_seq(data@) == out@ + escape_seq(data@.skip(i as int)),
        decreases data@.len() - i,
    {
        let ghost out0 = out@;
        let ghost tail = data@.skip(i as int);
        let byte = data[i];
        out.push(byte);
        if byte == IAC {
            out.push(IAC);
        }
        proof {
            assert(tail[0] == data@[i as int]);
            assert(tail.drop_first() =~= data@.skip(i + 1 as int));
            if byte == IAC {
                assert(out@ =~= out0 + seq![IAC, IAC]);
                assert(out@ + escape_seq(data@.skip(i + 1 as int)) =~= out0 + escape_seq(tail));
            } else {
                assert(out@ =~= out0 + seq![byte]);
                assert(out@ + escape_seq(data@.skip(i + 1 as int)) =~= out0 + escape_seq(tail));
            }
        }
        i += 1;
    }
    proof {
        assert(data@.skip(data@.len() as int) =~= Seq::<u8>::empty());
        assert(out@ + escape_seq(Seq::<u8>::empty()) =~= out@);
    }
    out
}

/// Collapse escaped 0xFF 0xFF pairs back to single bytes, pairwise from the
/// left; a lone trailing 0xFF passes through unchanged.
pub fn unescape_bytes(data: &[u8]) -> (r: Vec<u8>)
    ensures
        r@ == unescape_seq(data@),
{
    let mut out: Vec<u8> = Vec::with_capacity(data.len());
    let mut i: usize = 0;
    proof {
        assert(data@.skip(0) =~= data@);
        assert(out@ + unescape_seq(data@) =~= unescape_seq(data@));
    }
    while i < data.len()
        invariant
            i <= data@.len(),
            unescape_seq(data@) == out@ + unescape_seq(data@.skip(i as int)),
        decreases data@.len() - i,
    {
        let ghost out0 = out@;
        let ghost tail = data@.skip(i as int);
        proof {
            assert(tail[0] == data@[i as int]);
            if i + 1 < data@.len() {
                assert(tail[1] == data@[i + 1 as int]);
            }
        }
        let byte = data[i];
        if byte == IAC && i + 1 < data.len() && data[i + 1] == IAC {
            out.push(IAC);
            proof {
                assert(tail.skip(2) =~= data@.skip(i + 2 as int));
                assert(out@ =~= out0 + seq![IAC]);
                assert(out@ + unescape_seq(data@.skip(i + 2 as int)) =~= out0 + unescape_seq(
                    tail,
                ));
            }
            i += 2;
        } else {
            out.push(byte);
            proof {
                assert(tail.skip(1) =~= data@.skip(i + 1 as int));
                assert(out@ =~= out0 + seq![byte]);
                assert(out@ + unescape_seq(data@.skip(i + 1 as int)) =~= out0 + unescape_seq(
                    tail,
                ));
            }
            i += 1;
        }
    }
    proof {
        assert(data@.skip(data@.len() as int) =~= Seq::<u8>::empty());
        assert(out@ + unescape_seq(Seq::<u8>::empty()) =~= out@);
    }
    out
}

} // verus!
