//! Incremental reply framing over a chunk-delivered byte source.
//!
//! A transport read has no alignment with reply boundaries, so the grammar
//! parser is resumable: each chunk is fed to it, replies are collected as they
//! complete, and leftover bytes of a chunk are parsed toward the next reply
//! before more data is requested. The grammar itself is the business of the
//! external parser; this module verifies the framing discipline around it.

use vstd::prelude::*;

use crate::reply::Capabilities;
use crate::reply::Reply;
use smtp_proto::response::parser::ResponseReceiver;

verus! {

#[verifier::external_type_specification]
#[verifier::external_body]
pub struct ExResponseReceiver(ResponseReceiver);

/// What the grammar makes of a byte sequence parsed toward one reply.
pub enum ParseStep {
    /// A prefix of the bytes framed this full reply.
    Reply(Reply),
    /// The bytes ran out mid-reply; feed more.
    NeedsMore,
    /// The bytes do not form a valid reply.
    Invalid,
}

/// The bytes a receiver has been fed since it was created or last reset. The
/// receiver's behaviour is a function of these bytes alone: it consumes its
/// input one byte at a time and keeps all carried state between calls.
pub uninterp spec fn pending_of(r: ResponseReceiver) -> Seq<u8>;

/// What the grammar parser makes of a byte sequence fed from a fresh cursor
/// toward one reply: the reply framed by a prefix of it, a report that it ran
/// out mid-reply, or a rejection. The result is a function of the bytes alone.
pub uninterp spec fn reply_parse(b: Seq<u8>) -> ParseStep;

/// Relies on smtp_proto::ResponseReceiver::default (derived): a receiver with
/// an empty parse state, so nothing is pending in it.
#[verifier::external_body]
fn new_receiver() -> (r: ResponseReceiver)
    ensures
        pending_of(r) == Seq::<u8>::empty(),
{
    ResponseReceiver::default()
}

/// Relies on smtp_proto::ResponseReceiver::reset: clears the whole parse
/// state, so nothing is pending and the next reply is parsed afresh.
#[verifier::external_body]
fn reset_receiver(recv: &mut ResponseReceiver)
    ensures
        pending_of(*final(recv)) == Seq::<u8>::empty(),
{
    recv.reset()
}

/// The bytes of `buf` from `from` on, less the `remaining` unconsumed ones at
/// the end: what one parser call consumed.
spec fn consumed_of(buf: Seq<u8>, from: int, remaining: int) -> Seq<u8> {
    buf.subrange(from, buf.len() - remaining)
}

/// Every proper prefix of `b` is still mid-reply to the grammar: the parse of
/// `b` is decided, if at all, only at its very last byte.
pub open spec fn undecided_prefixes(b: Seq<u8>) -> bool {
    forall|j: int| 0 <= j < b.len() ==> reply_parse(#[trigger] b.take(j)) is NeedsMore
}

/// Relies on smtp_proto::ResponseReceiver::parse: it consumes bytes from the
/// front of the given input one at a time, resuming with the state carried
/// from what was fed since the last reset, and stops at the first byte at
/// which it can decide; so each outcome equals the fresh-cursor parse
/// (`reply_parse`) of the pending bytes plus what this call consumed, and
/// every proper prefix of that run is still undecided. It returns Ok(reply)
/// as soon as a full reply has been read, having consumed at least one byte;
/// it reports NeedsMoreData only once the whole input has been consumed, all
/// of it then carried as pending state; any other error means the bytes are
/// not a valid reply. The second result is the number of input bytes the call
/// left unconsumed.
#[verifier::external_body]
fn parse_step(recv: &mut ResponseReceiver, buf: &[u8], from: usize) -> (r: (ParseStep, usize))
    requires
        from <= buf@.len(),
    ensures
        r.1 <= buf@.len() - from,
        r.0 is Reply ==> r.1 < buf@.len() - from,
        r.0 is NeedsMore ==> r.1 == 0,
        r.0 is NeedsMore ==> pending_of(*final(recv)) == pending_of(*old(recv)) + buf@.subrange(
            from as int,
            buf@.len() as int,
        ),
        r.0 is NeedsMore ==> reply_parse(
            pending_of(*old(recv)) + buf@.subrange(from as int, buf@.len() as int),
        ) is NeedsMore,
        r.0 matches ParseStep::Reply(rep) ==> reply_parse(
            pending_of(*old(recv)) + consumed_of(buf@, from as int, r.1 as int),
        ) == ParseStep::Reply(rep),
        r.0 is Invalid ==> reply_parse(
            pending_of(*old(recv)) + consumed_of(buf@, from as int, r.1 as int),
        ) is Invalid,
        undecided_prefixes(pending_of(*old(recv)) + consumed_of(buf@, from as int, r.1 as int)),
{
    let mut iter = buf[from..].iter();
    let step = match recv.parse(&mut iter) {
        Ok(reply) => ParseStep::Reply(
            Reply { code: reply.code, esc: reply.esc, message: reply.message },
        ),
        Err(smtp_proto::Error::NeedsMoreData { .. }) => ParseStep::NeedsMore,
        Err(_) => ParseStep::Invalid,
    };
    (step, iter.len())
}

/// The fed bytes `b` split, in order, into one framing run per reply of
/// `replies`, followed by the tail `tail`. Each run is minimal: the grammar
/// decides it only at its last byte, so (see `lemma_frames_unique`) a byte
/// run frames a given number of replies in at most one way.
pub open spec fn frames(b: Seq<u8>, replies: Seq<Reply>, tail: Seq<u8>) -> bool
    decreases replies.len(),
{
    if replies.len() == 0 {
        b == tail
    } else {
        exists|k: int|
            0 < k <= b.len() && reply_parse(#[trigger] b.take(k)) == ParseStep::Reply(replies[0])
                && undecided_prefixes(b.take(k)) && frames(b.skip(k), replies.skip(1), tail)
    }
}

/// Some prefix of `rest` is rejected by the grammar.
pub open spec fn rejects_prefix(rest: Seq<u8>) -> bool {
    exists|k: int| 0 <= k <= rest.len() && reply_parse(#[trigger] rest.take(k)) is Invalid
}

proof fn lemma_frames_extend(b: Seq<u8>, rs: Seq<Reply>, s: Seq<u8>, t: Seq<u8>, rep: Reply)
    requires
        frames(b, rs, s + t),
        reply_parse(s) == ParseStep::Reply(rep),
        undecided_prefixes(s),
        s.len() > 0,
    ensures
        frames(b, rs.push(rep), t),
    decreases rs.len(),
{
    if rs.len() == 0 {
        let k = s.len() as int;
        assert(b == s + t);
        assert(b.take(k) =~= s);
        assert(b.skip(k) =~= t);
        assert(rs.push(rep)[0] == rep);
        assert(rs.push(rep).skip(1) =~= rs);
        assert(frames(b.skip(k), rs.push(rep).skip(1), t));
        assert(0 < k <= b.len());
        assert(reply_parse(b.take(k)) == ParseStep::Reply(rep));
        assert(undecided_prefixes(b.take(k)));
        assert(frames(b, rs.push(rep), t));
    } else {
        let k0 = choose|k: int|
            0 < k <= b.len() && reply_parse(#[trigger] b.take(k)) == ParseStep::Reply(rs[0])
                && undecided_prefixes(b.take(k)) && frames(b.skip(k), rs.skip(1), s + t);
        lemma_frames_extend(b.skip(k0), rs.skip(1), s, t, rep);
        assert(rs.push(rep).skip(1) =~= rs.skip(1).push(rep));
        assert(rs.push(rep)[0] == rs[0]);
        assert(0 < k0 <= b.len() && reply_parse(b.take(k0)) == ParseStep::Reply(rs.push(rep)[0])
            && undecided_prefixes(b.take(k0)) && frames(b.skip(k0), rs.push(rep).skip(1), t));
        assert(frames(b, rs.push(rep), t));
    }
}

/// Law: a byte run splits into a given number of framed replies and a tail in
/// at most one way, since every framed run is the shortest prefix the grammar
/// decides. So the replies a reader collects are determined by the stream's
/// bytes and the expected count alone — they come in peer send order with
/// none dropped, a pipelined read of n replies equals n single reads over the
/// same bytes, and the i-th reply answers the i-th pipelined command.
pub proof fn lemma_frames_unique(
    b: Seq<u8>,
    rs1: Seq<Reply>,
    t1: Seq<u8>,
    rs2: Seq<Reply>,
    t2: Seq<u8>,
)
    requires
        frames(b, rs1, t1),
        frames(b, rs2, t2),
        rs1.len() == rs2.len(),
    ensures
        rs1 == rs2,
        t1 == t2,
    decreases rs1.len(),
{
    if rs1.len() == 0 {
        assert(t1 == b && t2 == b);
    } else {
        let k1 = choose|k: int|
            0 < k <= b.len() && reply_parse(#[trigger] b.take(k)) == ParseStep::Reply(rs1[0])
                && undecided_prefixes(b.take(k)) && frames(b.skip(k), rs1.skip(1), t1);
        let k2 = choose|k: int|
            0 < k <= b.len() && reply_parse(#[trigger] b.take(k)) == ParseStep::Reply(rs2[0])
                && undecided_prefixes(b.take(k)) && frames(b.skip(k), rs2.skip(1), t2);
        if k1 < k2 {
            assert(b.take(k2).take(k1) =~= b.take(k1));
            assert(reply_parse(b.take(k2).take(k1)) is NeedsMore);
            assert(false);
        }
        if k2 < k1 {
            assert(b.take(k1).take(k2) =~= b.take(k2));
            assert(reply_parse(b.take(k1).take(k2)) is NeedsMore);
            assert(false);
        }
        assert(rs1[0] == rs2[0]);
        lemma_frames_unique(b.skip(k1), rs1.skip(1), t1, rs2.skip(1), t2);
        assert(rs1 =~= rs2) by {
            assert(forall|i: int|
                1 <= i < rs1.len() ==> rs1[i] == rs1.skip(1)[i - 1] && rs2[i] == rs2.skip(1)[i
                    - 1]);
        }
    }
}

/// Law: framings compose across transport chunks: the replies framed out of a
/// byte run, followed by those framed out of its tail extended with further
/// bytes, are one framing of the whole run. With `lemma_frames_unique`, the
/// replies read from a stream do not depend on where the chunk splits fall.
pub proof fn lemma_frames_compose(
    b: Seq<u8>,
    rs1: Seq<Reply>,
    t: Seq<u8>,
    more: Seq<u8>,
    rs2: Seq<Reply>,
    t2: Seq<u8>,
)
    requires
        frames(b, rs1, t),
        frames(t + more, rs2, t2),
    ensures
        frames(b + more, rs1 + rs2, t2),
    decreases rs1.len(),
{
    if rs1.len() == 0 {
        assert(b == t);
        assert(b + more =~= t + more);
        assert(rs1 + rs2 =~= rs2);
    } else {
        let k = choose|k: int|
            0 < k <= b.len() && reply_parse(#[trigger] b.take(k)) == ParseStep::Reply(rs1[0])
                && undecided_prefixes(b.take(k)) && frames(b.skip(k), rs1.skip(1), t);
        lemma_frames_compose(b.skip(k), rs1.skip(1), t, more, rs2, t2);
        assert((b + more).take(k) =~= b.take(k));
        assert((b + more).skip(k) =~= b.skip(k) + more);
        assert((rs1 + rs2)[0] == rs1[0]);
        assert((rs1 + rs2).skip(1) =~= rs1.skip(1) + rs2);
        assert(0 < k <= (b + more).len() && reply_parse((b + more).take(k)) == ParseStep::Reply(
            (rs1 + rs2)[0],
        ) && undecided_prefixes((b + more).take(k)) && frames(
            (b + more).skip(k),
            (rs1 + rs2).skip(1),
            t2,
        ));
        assert(frames(b + more, rs1 + rs2, t2));
    }
}

/// What feeding one chunk to a reader produced.
pub enum FeedOutcome {
    /// The expected number of replies has been collected.
    Complete,
    /// More transport bytes are needed.
    NeedsMore,
    /// The stream does not parse as replies.
    Invalid,
}

/// Collects an exact count of replies out of arbitrarily split transport
/// chunks. The parse cursor is preserved across chunks within one reply and
/// reset between replies; bytes left over in a chunk after a completed reply
/// are parsed toward the next reply before more data is requested.
pub struct ResponseReader {
    receiver: ResponseReceiver,
    replies: Vec<Reply>,
    needed: usize,
}

impl ResponseReader {
    /// The replies collected so far, in the order they completed.
    pub closed spec fn replies_seq(self) -> Seq<Reply> {
        self.replies@
    }

    /// The exact number of replies this reader collects.
    pub closed spec fn expected(self) -> nat {
        self.needed as nat
    }

    /// The bytes of a partly-read reply carried by the parse cursor.
    pub closed spec fn pending(self) -> Seq<u8> {
        pending_of(self.receiver)
    }

    /// A reader that will collect exactly `needed` replies.
    pub fn new(needed: usize) -> (r: ResponseReader)
        requires
            needed >= 1,
        ensures
            r.expected() == needed,
            r.replies_seq() == Seq::<Reply>::empty(),
            r.pending() == Seq::<u8>::empty(),
    {
        ResponseReader { receiver: new_receiver(), replies: Vec::new(), needed }
    }

    /// Feed one transport chunk. The replies appended are, in order, the
    /// minimal framing of the carried-over pending bytes plus this chunk — by
    /// `lemma_frames_unique` the only one of its count, so they are fixed by
    /// the delivered bytes alone, not by the chunking. NeedsMore leaves the
    /// unconsumed, still-undecided tail pending for the next chunk, Invalid
    /// comes of a rejected run, and Complete comes exactly when the expected
    /// count has been reached (any bytes past the last owed reply are
    /// dropped).
    pub fn feed(&mut self, chunk: &[u8]) -> (r: FeedOutcome)
        requires
            old(self).replies_seq().len() < old(self).expected(),
        ensures
            final(self).expected() == old(self).expected(),
            old(self).replies_seq().is_prefix_of(final(self).replies_seq()),
            final(self).replies_seq().len() <= final(self).expected(),
            r is Complete <==> final(self).replies_seq().len() == final(self).expected(),
            r is NeedsMore ==> frames(
                old(self).pending() + chunk@,
                final(self).replies_seq().skip(old(self).replies_seq().len() as int),
                final(self).pending(),
            ) && (reply_parse(final(self).pending()) is NeedsMore) && undecided_prefixes(
                final(self).pending(),
            ),
            r is Complete ==> (exists|rest: Seq<u8>|
                frames(
                    old(self).pending() + chunk@,
                    final(self).replies_seq().skip(old(self).replies_seq().len() as int),
                    rest,
                )),
            r is Invalid ==> (exists|rest: Seq<u8>|
                frames(
                    old(self).pending() + chunk@,
                    final(self).replies_seq().skip(old(self).replies_seq().len() as int),
                    rest,
                ) && rejects_prefix(rest)),
    {
        let ghost fed = old(self).pending() + chunk@;
        let mut from: usize = 0;
        proof {
            assert(self.replies@.is_prefix_of(self.replies@));
            assert(self.replies@.skip(old(self).replies@.len() as int)
                =~= Seq::<Reply>::empty());
            assert(chunk@.skip(0) =~= chunk@);
            assert(frames(fed, self.replies@.skip(old(self).replies@.len() as int), fed));
        }
        loop
            invariant
                from <= chunk@.len(),
                self.needed == old(self).needed,
                self.replies@.len() < self.needed,
                old(self).replies@.is_prefix_of(self.replies@),
                fed == old(self).pending() + chunk@,
                frames(
                    fed,
                    self.replies@.skip(old(self).replies@.len() as int),
                    pending_of(self.receiver) + chunk@.skip(from as int),
                ),
            decreases chunk@.len() - from,
        {
            let ghost replies0 = self.replies@;
            let ghost done0 = self.replies@.skip(old(self).replies@.len() as int);
            let ghost p = pending_of(self.receiver);
            let ghost input = chunk@.subrange(from as int, chunk@.len() as int);
            proof {
                assert(input =~= chunk@.skip(from as int));
            }
            let (step, remaining) = parse_step(&mut self.receiver, chunk, from);
            let ghost c = consumed_of(chunk@, from as int, remaining as int);
            match step {
                ParseStep::Reply(rep) => {
                    proof {
                        let from2 = chunk@.len() - remaining;
                        assert(chunk@.skip(from as int) =~= c + chunk@.skip(from2));
                        assert(p + chunk@.skip(from as int) =~= (p + c) + chunk@.skip(from2));
                        assert((p + c).len() > 0);
                        assert(undecided_prefixes(p + c));
                        lemma_frames_extend(fed, done0, p + c, chunk@.skip(from2), rep);
                    }
                    self.replies.push(rep);
                    proof {
                        assert(replies0.is_prefix_of(self.replies@)) by {
                            assert(self.replies@.subrange(0, replies0.len() as int)
                                =~= replies0);
                        }
                        assert(old(self).replies@.is_prefix_of(self.replies@)) by {
                            assert(self.replies@.subrange(
                                0,
                                old(self).replies@.len() as int,
                            ) =~= old(self).replies@);
                        }
                        assert(self.replies@.skip(old(self).replies@.len() as int)
                            =~= done0.push(rep));
                    }
                    if self.replies.len() == self.needed {
                        proof {
                            let from2 = chunk@.len() - remaining;
                            assert(frames(
                                old(self).pending() + chunk@,
                                self.replies_seq().skip(old(self).replies_seq().len() as int),
                                chunk@.skip(from2),
                            ));
                        }
                        return FeedOutcome::Complete;
                    }
                    reset_receiver(&mut self.receiver);
                    from = chunk.len() - remaining;
                    proof {
                        assert(pending_of(self.receiver) + chunk@.skip(from as int)
                            =~= chunk@.skip(from as int));
                    }
                },
                ParseStep::NeedsMore => {
                    proof {
                        assert(c =~= chunk@.skip(from as int));
                        assert(p + c =~= p + chunk@.skip(from as int));
                        assert(pending_of(self.receiver) =~= p + chunk@.skip(from as int));
                        assert(undecided_prefixes(pending_of(self.receiver)));
                    }
                    return FeedOutcome::NeedsMore;
                },
                ParseStep::Invalid => {
                    proof {
                        let rest = p + chunk@.skip(from as int);
                        let k = p.len() + c.len();
                        assert(c.is_prefix_of(chunk@.skip(from as int))) by {
                            assert(chunk@.skip(from as int).subrange(0, c.len() as int) =~= c);
                        }
                        assert(rest.take(k as int) =~= p + c);
                        assert(0 <= k <= rest.len());
                        assert(rejects_prefix(rest));
                        assert(frames(
                            old(self).pending() + chunk@,
                            self.replies@.skip(old(self).replies@.len() as int),
                            rest,
                        ));
                    }
                    return FeedOutcome::Invalid;
                },
            }
        }
    }

    /// Hand out the collected replies, in completion order.
    pub fn into_replies(self) -> (r: Vec<Reply>)
        ensures
            r@ == self.replies_seq(),
    {
        self.replies
    }
}

/// What feeding one chunk of the capability reply produced.
pub enum EhloStep {
    /// The full multi-line capability reply was read.
    Caps(Capabilities),
    /// More transport bytes are needed.
    NeedsMore,
    /// The bytes do not form a valid capability reply.
    Invalid,
}

/// What the grammar parser makes of a byte sequence as a capability
/// (EHLO/LHLO) reply. The parse is a function of the bytes alone.
pub uninterp spec fn ehlo_of(b: Seq<u8>) -> EhloStep;

/// Relies on smtp_proto::EhloResponse::parse: on a complete EHLO/LHLO reply
/// it yields the announced hostname, capability bits and authentication
/// mechanisms; on a truncated reply it reports NeedsMoreData; any other error
/// means the bytes are not a valid capability reply. The result depends on
/// the bytes alone.
#[verifier::external_body]
fn try_parse_ehlo(buf: &[u8]) -> (r: EhloStep)
    ensures
        r == ehlo_of(buf@),
{
    match smtp_proto::EhloResponse::parse(&mut buf.iter()) {
        Ok(resp) => EhloStep::Caps(
            Capabilities {
                hostname: resp.hostname,
                caps: resp.capabilities,
                auth_mechanisms: resp.auth_mechanisms,
            },
        ),
        Err(smtp_proto::Error::NeedsMoreData { .. }) => EhloStep::NeedsMore,
        Err(_) => EhloStep::Invalid,
    }
}

/// Accumulates the multi-line capability reply across transport chunks and
/// parses it as a whole once enough bytes are in.
pub struct EhloReader {
    buf: Vec<u8>,
}

impl EhloReader {
    /// The bytes fed so far.
    pub closed spec fn fed(self) -> Seq<u8> {
        self.buf@
    }

    /// A reader with nothing fed yet.
    pub fn new() -> (r: EhloReader)
        ensures
            r.fed() == Seq::<u8>::empty(),
    {
        EhloReader { buf: Vec::new() }
    }

    /// Feed one transport chunk and parse everything fed so far as a
    /// capability reply.
    pub fn feed(&mut self, chunk: &[u8]) -> (r: EhloStep)
        ensures
            final(self).fed() == old(self).fed() + chunk@,
            r == ehlo_of(final(self).fed()),
    {
        let mut j: usize = 0;
        while j < chunk.len()
            invariant
                j <= chunk@.len(),
                self.buf@ == old(self).buf@ + chunk@.take(j as int),
            decreases chunk@.len() - j,
        {
            self.buf.push(chunk[j]);
            proof {
                assert(old(self).buf@ + chunk@.take(j + 1) =~= (old(self).buf@ + chunk@.take(
                    j as int,
                )).push(chunk@[j as int]));
            }
            j = j + 1;
        }
        proof {
            assert(old(self).buf@ + chunk@.take(chunk@.len() as int) =~= old(self).buf@
                + chunk@);
        }
        try_parse_ehlo(&self.buf)
    }
}

} // verus!
