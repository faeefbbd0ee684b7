//! Message-body transparency encoding ("dot-stuffing").
//!
//! The encoder rewrites an arbitrary message body so that no line of it can be
//! read by the peer as the end-of-body terminator or as a protocol command:
//! every line that begins with a period gets one more period prepended, every
//! line boundary (CRLF, bare CR, or bare LF) is normalized to CRLF, and the
//! terminator CRLF "." CRLF is appended unconditionally.

use vstd::prelude::*;

verus! {

pub const CR: u8 = 13;
pub const LF: u8 = 10;
pub const DOT: u8 = 46;

/// The end-of-body terminator: CRLF "." CRLF.
pub open spec fn terminator() -> Seq<u8> {
    seq![CR, LF, DOT, CR, LF]
}

/// The body transform, one input line boundary or byte at a time.
/// `bol` says whether the next byte stands at the beginning of a line.
pub open spec fn encode_from(s: Seq<u8>, bol: bool) -> Seq<u8>
    decreases s.len(),
{
    if s.len() == 0 {
        Seq::empty()
    } else if s[0] == LF {
        seq![CR, LF] + encode_from(s.skip(1), true)
    } else if s[0] == CR && s.len() >= 2 && s[1] == LF {
        seq![CR, LF] + encode_from(s.skip(2), true)
    } else if s[0] == CR {
        seq![CR, LF] + encode_from(s.skip(1), true)
    } else if bol && s[0] == DOT {
        seq![DOT, DOT] + encode_from(s.skip(1), false)
    } else {
        seq![s[0]] + encode_from(s.skip(1), false)
    }
}

/// What the encoder emits for a body: the transformed body, then the terminator.
pub open spec fn encode_transparent_spec(s: Seq<u8>) -> Seq<u8> {
    encode_from(s, true) + terminator()
}

/// Boundary normalization alone: the body with every line boundary rewritten
/// as CRLF and nothing else changed.
pub open spec fn normalize_from(s: Seq<u8>) -> Seq<u8>
    decreases s.len(),
{
    if s.len() == 0 {
        Seq::empty()
    } else if s[0] == LF {
        seq![CR, LF] + normalize_from(s.skip(1))
    } else if s[0] == CR && s.len() >= 2 && s[1] == LF {
        seq![CR, LF] + normalize_from(s.skip(2))
    } else if s[0] == CR {
        seq![CR, LF] + normalize_from(s.skip(1))
    } else {
        seq![s[0]] + normalize_from(s.skip(1))
    }
}

/// The receiver's view of a dot-stuffed body: drop one period from the front
/// of every line that begins with one.
pub open spec fn unstuff_from(t: Seq<u8>, bol: bool) -> Seq<u8>
    decreases t.len(),
{
    if t.len() == 0 {
        Seq::empty()
    } else if t[0] == CR && t.len() >= 2 && t[1] == LF {
        seq![CR, LF] + unstuff_from(t.skip(2), true)
    } else if bol && t[0] == DOT {
        unstuff_from(t.skip(1), false)
    } else {
        seq![t[0]] + unstuff_from(t.skip(1), false)
    }
}

proof fn lemma_skip_skip(s: Seq<u8>, i: int, k: int)
    requires
        0 <= i,
        0 <= k,
        i + k <= s.len(),
    ensures
        s.skip(i).skip(k) == s.skip(i + k),
{
    assert(s.skip(i).skip(k) =~= s.skip(i + k));
}

/// Encode a message body for transmission: stuff leading periods, normalize
/// line boundaries to CRLF, and close with the CRLF "." CRLF terminator.
pub fn encode_transparent(body: &[u8]) -> (out: Vec<u8>)
    ensures
        out@ == encode_transparent_spec(body@),
        out@.len() >= 5,
        out@.subrange(out@.len() - 5, out@.len() as int) == terminator(),
{
    let mut out: Vec<u8> = Vec::new();
    let mut i: usize = 0;
    let mut bol: bool = true;
    proof {
        assert(body@.skip(0) =~= body@);
        assert(out@ + encode_from(body@, true) =~= encode_from(body@, true));
    }
    while i < body.len()
        invariant
            i <= body.len(),
            out@ + encode_from(body@.skip(i as int), bol) == encode_from(body@, true),
        decreases body.len() - i,
    {
        let ghost t = body@.skip(i as int);
        let ghost out0 = out@;
        proof {
            assert(t[0] == body@[i as int]);
        }
        let b = body[i];
        if b == LF {
            out.push(CR);
            out.push(LF);
            proof {
                lemma_skip_skip(body@, i as int, 1);
                assert(encode_from(t, bol) == seq![CR, LF] + encode_from(t.skip(1), true));
                assert(out@ + encode_from(body@.skip(i + 1), true)
                    =~= out0 + encode_from(t, bol));
            }
            i = i + 1;
            bol = true;
        } else if b == CR {
            if i + 1 < body.len() && body[i + 1] == LF {
                out.push(CR);
                out.push(LF);
                proof {
                    assert(t[1] == body@[i + 1]);
                    lemma_skip_skip(body@, i as int, 2);
                    assert(encode_from(t, bol) == seq![CR, LF] + encode_from(t.skip(2), true));
                    assert(out@ + encode_from(body@.skip(i + 2), true)
                        =~= out0 + encode_from(t, bol));
                }
                i = i + 2;
                bol = true;
            } else {
                out.push(CR);
                out.push(LF);
                proof {
                    if i + 1 < body.len() {
                        assert(t[1] == body@[i + 1]);
                    }
                    lemma_skip_skip(body@, i as int, 1);
                    assert(encode_from(t, bol) == seq![CR, LF] + encode_from(t.skip(1), true));
                    assert(out@ + encode_from(body@.skip(i + 1), true)
                        =~= out0 + encode_from(t, bol));
                }
                i = i + 1;
                bol = true;
            }
        } else if bol && b == DOT {
            out.push(DOT);
            out.push(DOT);
            proof {
                lemma_skip_skip(body@, i as int, 1);
                assert(encode_from(t, bol) == seq![DOT, DOT] + encode_from(t.skip(1), false));
                assert(out@ + encode_from(body@.skip(i + 1), false)
                    =~= out0 + encode_from(t, bol));
            }
            i = i + 1;
            bol = false;
        } else {
            out.push(b);
            proof {
                lemma_skip_skip(body@, i as int, 1);
                assert(encode_from(t, bol) == seq![t[0]] + encode_from(t.skip(1), false));
                assert(out@ + encode_from(body@.skip(i + 1), false)
                    =~= out0 + encode_from(t, bol));
            }
            i = i + 1;
            bol = false;
        }
    }
    proof {
        assert(body@.skip(i as int) =~= Seq::<u8>::empty());
        assert(out@ + encode_from(body@.skip(i as int), bol) =~= out@);
    }
    out.push(CR);
    out.push(LF);
    out.push(DOT);
    out.push(CR);
    out.push(LF);
    proof {
        assert(out@ =~= encode_from(body@, true) + terminator());
        assert(out@.subrange(out@.len() - 5, out@.len() as int) =~= terminator());
    }
    out
}

/// Every period that stands at the beginning of a line of `e` (position 0 when
/// `bol`, or right after an LF) is followed by another period.
pub open spec fn stuffed(e: Seq<u8>, bol: bool) -> bool {
    forall|p: int|
        0 <= p < e.len() && #[trigger] e[p] == DOT && ((p == 0 && bol) || (p > 0 && e[p - 1]
            == LF)) ==> p + 1 < e.len() && e[p + 1] == DOT
}

proof fn lemma_encode_from_stuffed(s: Seq<u8>, bol: bool)
    ensures
        stuffed(encode_from(s, bol), bol),
    decreases s.len(),
{
    let e = encode_from(s, bol);
    if s.len() == 0 {
    } else if s[0] == LF || s[0] == CR {
        let rest = if s[0] == CR && s.len() >= 2 && s[1] == LF {
            s.skip(2)
        } else {
            s.skip(1)
        };
        let e1 = encode_from(rest, true);
        lemma_encode_from_stuffed(rest, true);
        assert(e == seq![CR, LF] + e1);
        assert forall|p: int|
            0 <= p < e.len() && #[trigger] e[p] == DOT && ((p == 0 && bol) || (p > 0 && e[p - 1]
                == LF)) implies p + 1 < e.len() && e[p + 1] == DOT by {
            assert(e[0] == CR && e[1] == LF);
            if p >= 2 {
                assert(e[p] == e1[p - 2]);
                if p > 2 {
                    assert(e[p - 1] == e1[p - 3]);
                }
                assert(stuffed(e1, true));
                assert(e1[p - 2] == DOT && ((p - 2 == 0 && true) || (p - 2 > 0 && e1[p - 3]
                    == LF)));
                assert(p - 1 < e1.len() && e1[p - 1] == DOT);
                assert(e[p + 1] == e1[p - 1]);
            }
        }
    } else if bol && s[0] == DOT {
        let e1 = encode_from(s.skip(1), false);
        lemma_encode_from_stuffed(s.skip(1), false);
        assert(e == seq![DOT, DOT] + e1);
        assert forall|p: int|
            0 <= p < e.len() && #[trigger] e[p] == DOT && ((p == 0 && bol) || (p > 0 && e[p - 1]
                == LF)) implies p + 1 < e.len() && e[p + 1] == DOT by {
            assert(e[0] == DOT && e[1] == DOT);
            if p >= 2 {
                assert(e[p] == e1[p - 2]);
                assert(e[p - 1] == if p == 2 {
                    DOT
                } else {
                    e1[p - 3]
                });
                if p > 2 && e1[p - 3] == LF {
                    assert(stuffed(e1, false));
                    assert(p - 1 < e1.len() && e1[p - 1] == DOT);
                    assert(e[p + 1] == e1[p - 1]);
                }
            }
        }
    } else {
        let e1 = encode_from(s.skip(1), false);
        lemma_encode_from_stuffed(s.skip(1), false);
        assert(e == seq![s[0]] + e1);
        assert forall|p: int|
            0 <= p < e.len() && #[trigger] e[p] == DOT && ((p == 0 && bol) || (p > 0 && e[p - 1]
                == LF)) implies p + 1 < e.len() && e[p + 1] == DOT by {
            assert(e[0] == s[0]);
            assert(s[0] != LF);
            if p >= 1 {
                assert(e[p] == e1[p - 1]);
                if p > 1 && e1[p - 2] == LF {
                    assert(stuffed(e1, false));
                    assert(p < e1.len() && e1[p] == DOT);
                    assert(e[p + 1] == e1[p]);
                }
            }
        }
    }
}

/// Law: the encoded output ends with the terminator CRLF "." CRLF, and no
/// other line of it is bare protocol control: every period standing at the
/// beginning of an output line, other than the terminator's own period at
/// position `len - 3`, is followed by a second period. In particular no
/// output line other than the final one is the lone period ".".
pub proof fn lemma_no_stray_terminator(s: Seq<u8>)
    ensures
        encode_transparent_spec(s).len() >= 5,
        encode_transparent_spec(s).subrange(
            encode_transparent_spec(s).len() - 5,
            encode_transparent_spec(s).len() as int,
        ) == terminator(),
        forall|p: int|
            {
                0 <= p < encode_transparent_spec(s).len()
                    && #[trigger] encode_transparent_spec(s)[p] == DOT && (p == 0 || (p > 0
                    && encode_transparent_spec(s)[p - 1] == LF)) && p != encode_transparent_spec(
                    s,
                ).len() - 3 ==> p + 1 < encode_transparent_spec(s).len()
                    && encode_transparent_spec(s)[p + 1] == DOT
            },
{
    let e = encode_from(s, true);
    let t = encode_transparent_spec(s);
    lemma_encode_from_stuffed(s, true);
    assert(t.subrange(t.len() - 5, t.len() as int) =~= terminator());
    assert forall|p: int|
        0 <= p < t.len() && #[trigger] t[p] == DOT && (p == 0 || (p > 0 && t[p - 1] == LF)) && p
            != t.len() - 3 implies p + 1 < t.len() && t[p + 1] == DOT by {
        if p < e.len() {
            assert(t[p] == e[p]);
            if p > 0 {
                assert(t[p - 1] == e[p - 1]);
            }
            assert(stuffed(e, true));
            assert(p + 1 < e.len() && e[p + 1] == DOT);
            assert(t[p + 1] == e[p + 1]);
        } else {
            let q = p - e.len();
            assert(t[p] == terminator()[q]);
            assert(q == 2);
            assert(p == t.len() - 3);
        }
    }
}

proof fn lemma_unstuff_encode_from(s: Seq<u8>, bol: bool)
    ensures
        unstuff_from(encode_from(s, bol), bol) == normalize_from(s),
    decreases s.len(),
{
    let e = encode_from(s, bol);
    if s.len() == 0 {
    } else if s[0] == LF || s[0] == CR {
        let rest = if s[0] == CR && s.len() >= 2 && s[1] == LF {
            s.skip(2)
        } else {
            s.skip(1)
        };
        let e1 = encode_from(rest, true);
        lemma_unstuff_encode_from(rest, true);
        assert(e == seq![CR, LF] + e1);
        assert(e[0] == CR && e.len() >= 2 && e[1] == LF);
        assert(e.skip(2) =~= e1);
        assert(unstuff_from(e, bol) == seq![CR, LF] + unstuff_from(e1, true));
        assert(normalize_from(s) == seq![CR, LF] + normalize_from(rest));
    } else if bol && s[0] == DOT {
        let e1 = encode_from(s.skip(1), false);
        lemma_unstuff_encode_from(s.skip(1), false);
        assert(e == seq![DOT, DOT] + e1);
        assert(e[0] == DOT && e[0] != CR);
        assert(e.skip(1) =~= seq![DOT] + e1);
        let d = seq![DOT] + e1;
        assert(unstuff_from(e, bol) == unstuff_from(d, false));
        assert(d[0] == DOT && d[0] != CR);
        assert(d.skip(1) =~= e1);
        assert(unstuff_from(d, false) == seq![DOT] + unstuff_from(e1, false));
        assert(normalize_from(s) == seq![s[0]] + normalize_from(s.skip(1)));
    } else {
        let e1 = encode_from(s.skip(1), false);
        lemma_unstuff_encode_from(s.skip(1), false);
        assert(e == seq![s[0]] + e1);
        assert(e[0] == s[0]);
        assert(s[0] != CR && !(bol && s[0] == DOT));
        assert(e.skip(1) =~= e1);
        assert(unstuff_from(e, bol) == seq![s[0]] + unstuff_from(e1, false));
        assert(normalize_from(s) == seq![s[0]] + normalize_from(s.skip(1)));
    }
}

/// Law (round trip): stripping the terminator from the encoded output and
/// then removing one leading period from every line that begins with one
/// recovers the boundary-normalized original body.
pub proof fn lemma_round_trip(s: Seq<u8>)
    ensures
        encode_transparent_spec(s).len() >= 5,
        unstuff_from(
            encode_transparent_spec(s).subrange(0, encode_transparent_spec(s).len() - 5),
            true,
        ) == normalize_from(s),
{
    let t = encode_transparent_spec(s);
    assert(t.subrange(0, t.len() - 5) =~= encode_from(s, true));
    lemma_unstuff_encode_from(s, true);
}

} // verus!
