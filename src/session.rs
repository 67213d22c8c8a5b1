//! One request/response exchange: the request bytes for each query, and the
//! decisions taken on each received datagram (decode and keep going, stop, or
//! fail), in the manner of libmnl's callback runner.
use vstd::prelude::*;
use vstd::string::StringSliceAdditionalSpecFns;
use vstd::utf8::encode_utf8;

use crate::decode::{
    chain_matches, chain_of, rule_ok, table_matches, table_of, ChainHead, NFTA_CHAIN_NAME,
    NFTA_CHAIN_TABLE, NFTA_RULE_CHAIN, NFTA_RULE_TABLE,
};
use crate::types::{family_code, Chain, Error, Family, Rule, Table};
use crate::wire::{
    encode_request, messages_from, messages_view, rd32, request_bytes, split_messages, Attr, Message,
    MessageView, EBADMSG, EINTR, EPROTO, ESRCH, NLA_MAX_PAYLOAD, NLMSG_DONE, NLMSG_ERROR,
    NLMSG_MIN_TYPE, NFPROTO_UNSPEC, NFT_MSG_GETCHAIN, NFT_MSG_GETRULE, NFT_MSG_GETTABLE, NLM_F_ACK,
    NLM_F_DUMP,
};

verus! {

/// What the receive loop does after a datagram was handled.
#[derive(Debug, Clone, Copy, PartialEq, Eq, Structural)]
pub enum Flow {
    /// Receive the next datagram.
    Continue,
    /// The exchange is complete.
    Stop,
}

/// The sequence number of every request: requests are never pipelined.
pub const SEQ: u32 = 0;

// ---------------------------------------------------------------------------
// Requests

/// A kernel string attribute's payload: the UTF-8 bytes and a zero byte.
pub open spec fn name_bytes(s: Seq<char>) -> Seq<u8> {
    encode_utf8(s).push(0)
}

/// Whether a name fits a string attribute with its terminating zero byte.
pub open spec fn name_fits(s: Seq<char>) -> bool {
    encode_utf8(s).len() < NLA_MAX_PAYLOAD
}

/// Whether `s` fits a string attribute.
pub fn fits_attr(s: &str) -> (r: bool)
    ensures
        r == name_fits(s@),
{
    let b = s.as_bytes();
    assert(b@ == encode_utf8(s@));
    b.len() < NLA_MAX_PAYLOAD
}

fn name_attr(kind: u16, s: &str) -> (r: Attr)
    requires
        name_fits(s@),
    ensures
        r@ == (kind, name_bytes(s@)),
        r@.1.len() <= NLA_MAX_PAYLOAD,
{
    let mut v = vstd::slice::slice_to_vec(s.as_bytes());
    v.push(0u8);
    Attr { kind, value: v }
}

/// The dump request for every table of every family.
pub open spec fn tables_request_bytes() -> Seq<u8> {
    request_bytes(NFT_MSG_GETTABLE, NFPROTO_UNSPEC, NLM_F_DUMP, SEQ, seq![])
}

/// The dump request for the chains of one table.
pub open spec fn chains_request_bytes(f: Family, table: Seq<char>) -> Seq<u8> {
    request_bytes(
        NFT_MSG_GETCHAIN,
        family_code(f),
        NLM_F_DUMP,
        SEQ,
        seq![(NFTA_CHAIN_TABLE, name_bytes(table))],
    )
}

/// The single-object request for one chain of one table.
pub open spec fn chain_request_bytes(f: Family, table: Seq<char>, name: Seq<char>) -> Seq<u8> {
    request_bytes(
        NFT_MSG_GETCHAIN,
        family_code(f),
        NLM_F_ACK,
        SEQ,
        seq![(NFTA_CHAIN_TABLE, name_bytes(table)), (NFTA_CHAIN_NAME, name_bytes(name))],
    )
}

/// The dump request for the rules of one chain.
pub open spec fn rules_request_bytes(f: Family, table: Seq<char>, chain: Seq<char>) -> Seq<u8> {
    request_bytes(
        NFT_MSG_GETRULE,
        family_code(f),
        NLM_F_DUMP,
        SEQ,
        seq![(NFTA_RULE_TABLE, name_bytes(table)), (NFTA_RULE_CHAIN, name_bytes(chain))],
    )
}

pub fn tables_request() -> (r: Vec<u8>)
    ensures
        r@ == tables_request_bytes(),
{
    let a: Vec<Attr> = Vec::new();
    let r = encode_request(NFT_MSG_GETTABLE, NFPROTO_UNSPEC, NLM_F_DUMP, SEQ, &a);
    assert(crate::wire::attrs_view(a@) =~= seq![]);
    r
}

pub fn chains_request(f: Family, table: &str) -> (r: Vec<u8>)
    requires
        name_fits(table@),
    ensures
        r@ == chains_request_bytes(f, table@),
{
    let mut a: Vec<Attr> = Vec::new();
    a.push(name_attr(NFTA_CHAIN_TABLE, table));
    let ghost v = crate::wire::attrs_view(a@);
    assert(v =~= seq![(NFTA_CHAIN_TABLE, name_bytes(table@))]);
    encode_request(NFT_MSG_GETCHAIN, f.to_wire(), NLM_F_DUMP, SEQ, &a)
}

pub fn chain_request(f: Family, table: &str, name: &str) -> (r: Vec<u8>)
    requires
        name_fits(table@),
        name_fits(name@),
    ensures
        r@ == chain_request_bytes(f, table@, name@),
{
    let mut a: Vec<Attr> = Vec::new();
    a.push(name_attr(NFTA_CHAIN_TABLE, table));
    a.push(name_attr(NFTA_CHAIN_NAME, name));
    let ghost v = crate::wire::attrs_view(a@);
    assert(v =~= seq![(NFTA_CHAIN_TABLE, name_bytes(table@)), (NFTA_CHAIN_NAME, name_bytes(name@))]);
    encode_request(NFT_MSG_GETCHAIN, f.to_wire(), NLM_F_ACK, SEQ, &a)
}

pub fn rules_request(f: Family, table: &str, chain: &str) -> (r: Vec<u8>)
    requires
        name_fits(table@),
        name_fits(chain@),
    ensures
        r@ == rules_request_bytes(f, table@, chain@),
{
    let mut a: Vec<Attr> = Vec::new();
    a.push(name_attr(NFTA_RULE_TABLE, table));
    a.push(name_attr(NFTA_RULE_CHAIN, chain));
    let ghost v = crate::wire::attrs_view(a@);
    assert(v =~= seq![(NFTA_RULE_TABLE, name_bytes(table@)), (NFTA_RULE_CHAIN, name_bytes(chain@))]);
    encode_request(NFT_MSG_GETRULE, f.to_wire(), NLM_F_DUMP, SEQ, &a)
}

// ---------------------------------------------------------------------------
// Responses

/// What one received message means to the exchange.
#[derive(Debug, Clone, Copy)]
pub enum Step {
    /// A response record, to be decoded.
    Data,
    /// A control message without meaning here.
    Skip,
    /// The end of the exchange, successful or not.
    Finish(Result<Flow, Error>),
}

/// A 32-bit number read as two's complement.
pub open spec fn signed_code(v: u32) -> int {
    if v < 0x8000_0000 {
        v as int
    } else {
        v - 0x1_0000_0000
    }
}

/// The OS error number carried by a kernel error code.
pub open spec fn errno_of(code: int) -> i32 {
    if code < 0 && code > i32::MIN {
        (-code) as i32
    } else {
        code as i32
    }
}

/// The meaning of message `m` when `seq` and `port` are expected: a message
/// for another port or another request ends the exchange with an error, as
/// does an interrupted dump; `NLMSG_DONE` and a zero acknowledgement end it
/// successfully; a kernel error code ends it with that error.
pub open spec fn step_of(m: MessageView, seq: u32, port: u32) -> Step {
    if m.port_id != 0 && port != 0 && m.port_id != port {
        Step::Finish(Err(Error::Transport(ESRCH)))
    } else if m.seq != 0 && seq != 0 && m.seq != seq {
        Step::Finish(Err(Error::Transport(EPROTO)))
    } else if m.flags / 16 % 2 == 1 {
        Step::Finish(Err(Error::Transport(EINTR)))
    } else if m.kind >= NLMSG_MIN_TYPE {
        Step::Data
    } else if m.kind == NLMSG_ERROR {
        if m.body.len() < 20 {
            Step::Finish(Err(Error::Transport(EBADMSG)))
        } else if rd32(m.body, 0) == 0 {
            Step::Finish(Ok(Flow::Stop))
        } else {
            Step::Finish(Err(Error::Transport(errno_of(signed_code(rd32(m.body, 0) as u32)))))
        }
    } else if m.kind == NLMSG_DONE {
        Step::Finish(Ok(Flow::Stop))
    } else {
        Step::Skip
    }
}

/// The record bodies of the messages `msgs`, in order, up to the message
/// that ends the exchange, and how the datagram ends. With `single`, the
/// first record ends the exchange.
pub open spec fn frame(msgs: Seq<MessageView>, seq: u32, port: u32, single: bool) -> (
    Seq<Seq<u8>>,
    Result<Flow, Error>,
)
    decreases msgs.len(),
{
    if msgs.len() == 0 {
        (seq![], Ok(Flow::Continue))
    } else {
        match step_of(msgs[0], seq, port) {
            Step::Finish(o) => (seq![], o),
            Step::Skip => frame(msgs.drop_first(), seq, port, single),
            Step::Data => if single {
                (seq![msgs[0].body], Ok(Flow::Stop))
            } else {
                let rest = frame(msgs.drop_first(), seq, port, single);
                (seq![msgs[0].body] + rest.0, rest.1)
            },
        }
    }
}

fn step(m: &Message, seq: u32, port: u32) -> (r: Step)
    ensures
        r == step_of(m@, seq, port),
{
    if m.port_id != 0 && port != 0 && m.port_id != port {
        Step::Finish(Err(Error::Transport(ESRCH)))
    } else if m.seq != 0 && seq != 0 && m.seq != seq {
        Step::Finish(Err(Error::Transport(EPROTO)))
    } else if m.flags / 16 % 2 == 1 {
        Step::Finish(Err(Error::Transport(EINTR)))
    } else if m.kind >= NLMSG_MIN_TYPE {
        Step::Data
    } else if m.kind == NLMSG_ERROR {
        if m.body.len() < 20 {
            Step::Finish(Err(Error::Transport(EBADMSG)))
        } else {
            let b = &m.body;
            let code = b[0] as u32 + b[1] as u32 * 256 + b[2] as u32 * 65536 + b[3] as u32 * 16777216;
            assert(code as int == rd32(m.body@, 0));
            if code == 0 {
                Step::Finish(Ok(Flow::Stop))
            } else if code < 0x8000_0000 {
                Step::Finish(Err(Error::Transport(code as i32)))
            } else if code == 0x8000_0000 {
                Step::Finish(Err(Error::Transport(i32::MIN)))
            } else {
                Step::Finish(Err(Error::Transport((0x1_0000_0000u64 - code as u64) as i32)))
            }
        }
    } else if m.kind == NLMSG_DONE {
        Step::Finish(Ok(Flow::Stop))
    } else {
        Step::Skip
    }
}

/// Runs the exchange's decisions over the messages of one datagram: the
/// indices of the record messages to decode, and how the datagram ends.
fn frame_messages(msgs: &Vec<Message>, seq: u32, port: u32, single: bool) -> (r: (Vec<usize>, Result<Flow, Error>))
    ensures
        r.0@.len() == frame(messages_view(msgs@), seq, port, single).0.len(),
        forall|k: int| 0 <= k < r.0@.len() ==> #[trigger] r.0@[k] < msgs@.len()
            && msgs@[r.0@[k] as int].body@ == frame(messages_view(msgs@), seq, port, single).0[k],
        r.1 == frame(messages_view(msgs@), seq, port, single).1,
{
    let ghost all = messages_view(msgs@);
    let mut idx: Vec<usize> = Vec::new();
    let mut i: usize = 0;
    assert(all.subrange(0, all.len() as int) =~= all);
    while i < msgs.len()
        invariant
            i <= msgs@.len(),
            all == messages_view(msgs@),
            ({
                let rest = frame(all.subrange(i as int, all.len() as int), seq, port, single);
                let whole = frame(all, seq, port, single);
                &&& whole.1 == rest.1
                &&& whole.0.len() == idx@.len() + rest.0.len()
                &&& forall|k: int| 0 <= k < rest.0.len() ==> whole.0[idx@.len() + k] == #[trigger] rest.0[k]
            }),
            forall|k: int| 0 <= k < idx@.len() ==> #[trigger] idx@[k] < msgs@.len()
                && msgs@[idx@[k] as int].body@ == frame(all, seq, port, single).0[k],
        decreases msgs@.len() - i,
    {
        let ghost sub = all.subrange(i as int, all.len() as int);
        let ghost tail = all.subrange(i + 1, all.len() as int);
        assert(sub.drop_first() =~= tail);
        assert(sub[0] == msgs@[i as int]@);
        match step(&msgs[i], seq, port) {
            Step::Finish(o) => {
                return (idx, o);
            },
            Step::Skip => {},
            Step::Data => {
                let ghost before = idx@;
                idx.push(i);
                assert(frame(sub, seq, port, single).0[0] == msgs@[i as int].body@);
                if single {
                    assert(frame(all, seq, port, single).0[before.len() as int] == frame(sub, seq, port, single).0[0]);
                    return (idx, Ok(Flow::Stop));
                }
                assert(frame(all, seq, port, single).0[before.len() as int] == frame(sub, seq, port, single).0[0]);
                assert forall|k: int| 0 <= k < frame(tail, seq, port, single).0.len() implies
                    frame(all, seq, port, single).0[idx@.len() + k] == #[trigger] frame(tail, seq, port, single).0[k] by {
                    assert(frame(sub, seq, port, single).0[k + 1] == frame(tail, seq, port, single).0[k]);
                }
            },
        }
        i = i + 1;
    }
    assert(all.subrange(i as int, all.len() as int).len() == 0);
    (idx, Ok(Flow::Continue))
}

/// Decodes each body with `f`, in order; the first failure is the result.
pub open spec fn decode_all<H>(b: Seq<Seq<u8>>, f: spec_fn(Seq<u8>) -> Result<H, Error>) -> Result<Seq<H>, Error>
    decreases b.len(),
{
    if b.len() == 0 {
        Ok(seq![])
    } else {
        match decode_all(b.drop_last(), f) {
            Err(e) => Err(e),
            Ok(hs) => match f(b.last()) {
                Err(e) => Err(e),
                Ok(h) => Ok(hs.push(h)),
            },
        }
    }
}

proof fn lemma_decode_all_err<H>(b: Seq<Seq<u8>>, k: int, f: spec_fn(Seq<u8>) -> Result<H, Error>)
    requires
        0 <= k <= b.len(),
        decode_all(b.subrange(0, k), f) is Err,
    ensures
        decode_all(b, f) == decode_all(b.subrange(0, k), f),
    decreases b.len() - k,
{
    if k < b.len() {
        let c = b.drop_last();
        assert(c.subrange(0, k) =~= b.subrange(0, k));
        lemma_decode_all_err(c, k, f);
    } else {
        assert(b.subrange(0, k) =~= b);
    }
}

proof fn lemma_decode_all_step<H>(b: Seq<Seq<u8>>, k: int, f: spec_fn(Seq<u8>) -> Result<H, Error>)
    requires
        0 <= k < b.len(),
    ensures
        b.subrange(0, k + 1).drop_last() == b.subrange(0, k),
        b.subrange(0, k + 1).last() == b[k],
{
    assert(b.subrange(0, k + 1).drop_last() =~= b.subrange(0, k));
}

/// The tables of a datagram's records.
pub open spec fn tables_of(b: Seq<Seq<u8>>) -> Result<Seq<(Seq<char>, Family)>, Error> {
    decode_all(b, |x: Seq<u8>| table_of(x))
}

/// The chains of a datagram's records.
pub open spec fn chains_of(b: Seq<Seq<u8>>) -> Result<Seq<ChainHead>, Error> {
    decode_all(b, |x: Seq<u8>| chain_of(x))
}

/// The rules of a datagram's records; each carries nothing but its place.
pub open spec fn rules_of(b: Seq<Seq<u8>>) -> Result<Seq<()>, Error> {
    decode_all(b, |x: Seq<u8>| if rule_ok(x) { Ok(()) } else { Err(Error::Parse) })
}

/// The outcome of handling datagram `d`: the records it adds, decoded with
/// `f`, and how the exchange goes on; the first failure otherwise.
pub open spec fn outcome<H>(d: Seq<u8>, port: u32, single: bool, f: spec_fn(Seq<u8>) -> Result<H, Error>) -> Result<(Seq<H>, Flow), Error> {
    let fr = frame(messages_from(d, 0), SEQ, port, single);
    match decode_all(fr.0, f) {
        Err(e) => Err(e),
        Ok(hs) => match fr.1 {
            Err(e) => Err(e),
            Ok(flow) => Ok((hs, flow)),
        },
    }
}

pub open spec fn table_outcome(d: Seq<u8>, port: u32) -> Result<(Seq<(Seq<char>, Family)>, Flow), Error> {
    outcome(d, port, false, |x: Seq<u8>| table_of(x))
}

pub open spec fn chain_outcome(d: Seq<u8>, port: u32, single: bool) -> Result<(Seq<ChainHead>, Flow), Error> {
    outcome(d, port, single, |x: Seq<u8>| chain_of(x))
}

pub open spec fn rule_outcome(d: Seq<u8>, port: u32) -> Result<(Seq<()>, Flow), Error> {
    outcome(d, port, false, |x: Seq<u8>| if rule_ok(x) { Ok(()) } else { Err(Error::Parse) })
}

/// Handles one datagram of a table dump: decodes each table record and
/// appends it to `out`, in the order the kernel sent them.
pub fn absorb_tables(out: &mut Vec<Table>, d: &[u8], port: u32) -> (r: Result<Flow, Error>)
    ensures
        match table_outcome(d@, port) {
            Err(e) => r == Err::<Flow, Error>(e),
            Ok((hs, flow)) => {
                &&& r == Ok::<Flow, Error>(flow)
                &&& final(out)@.len() == old(out)@.len() + hs.len()
                &&& forall|i: int| 0 <= i < old(out)@.len() ==> #[trigger] final(out)@[i] == old(out)@[i]
                &&& forall|j: int| 0 <= j < hs.len() ==> table_matches(#[trigger] final(out)@[old(out)@.len() + j], hs[j])
            },
        },
{
    let msgs = split_messages(d);
    let (idx, end) = frame_messages(&msgs, SEQ, port, false);
    let ghost bodies = frame(messages_from(d@, 0), SEQ, port, false).0;
    let ghost start = out@;
    let ghost mut hs: Seq<(Seq<char>, Family)> = seq![];
    let mut k: usize = 0;
    assert(bodies.subrange(0, 0) =~= seq![]);
    while k < idx.len()
        invariant
            k <= idx@.len(),
            idx@.len() == bodies.len(),
            bodies == frame(messages_view(msgs@), SEQ, port, false).0,
            bodies == frame(messages_from(d@, 0), SEQ, port, false).0,
            end == frame(messages_from(d@, 0), SEQ, port, false).1,
            forall|q: int| 0 <= q < idx@.len() ==> #[trigger] idx@[q] < msgs@.len()
                && msgs@[idx@[q] as int].body@ == bodies[q],
            decode_all(bodies.subrange(0, k as int), |x: Seq<u8>| table_of(x)) == Ok::<Seq<(Seq<char>, Family)>, Error>(hs),
            out@.len() == start.len() + hs.len(),
            forall|i: int| 0 <= i < start.len() ==> #[trigger] out@[i] == start[i],
            forall|j: int| 0 <= j < hs.len() ==> table_matches(#[trigger] out@[start.len() + j], hs[j]),
        decreases idx@.len() - k,
    {
        proof {
            lemma_decode_all_step(bodies, k as int, |x: Seq<u8>| table_of(x));
        }
        let m = &msgs[idx[k]];
        assert(m.body@ == bodies[k as int]);
        match Table::decode(m) {
            Err(e) => {
                proof {
                    assert(table_of(bodies[k as int]) == Err::<(Seq<char>, Family), Error>(e));
                    assert(decode_all(bodies.subrange(0, k + 1), |x: Seq<u8>| table_of(x)) == Err::<Seq<(Seq<char>, Family)>, Error>(e));
                    lemma_decode_all_err(bodies, k + 1, |x: Seq<u8>| table_of(x));
                    assert(decode_all(bodies, |x: Seq<u8>| table_of(x)) == Err::<Seq<(Seq<char>, Family)>, Error>(e));
                    assert(bodies == frame(messages_from(d@, 0), SEQ, port, false).0);
                    assert(table_outcome(d@, port) == Err::<(Seq<(Seq<char>, Family)>, Flow), Error>(e));
                }
                return Err(e);
            },
            Ok(t) => {
                let ghost h = table_of(m.body@)->Ok_0;
                out.push(t);
                proof {
                    hs = hs.push(h);
                }
            },
        }
        k = k + 1;
    }
    assert(bodies.subrange(0, k as int) =~= bodies);
    end
}

/// Handles one datagram of a chain query: decodes each chain record and
/// appends it to `out`, in the order the kernel sent them. With `single` the
/// first record ends the exchange and nothing after it is read.
pub fn absorb_chains(out: &mut Vec<Chain>, d: &[u8], port: u32, single: bool) -> (r: Result<Flow, Error>)
    ensures
        match chain_outcome(d@, port, single) {
            Err(e) => r == Err::<Flow, Error>(e),
            Ok((hs, flow)) => {
                &&& r == Ok::<Flow, Error>(flow)
                &&& final(out)@.len() == old(out)@.len() + hs.len()
                &&& forall|i: int| 0 <= i < old(out)@.len() ==> #[trigger] final(out)@[i] == old(out)@[i]
                &&& forall|j: int| 0 <= j < hs.len() ==> chain_matches(#[trigger] final(out)@[old(out)@.len() + j], hs[j])
            },
        },
{
    let msgs = split_messages(d);
    let (idx, end) = frame_messages(&msgs, SEQ, port, single);
    let ghost bodies = frame(messages_from(d@, 0), SEQ, port, single).0;
    let ghost start = out@;
    let ghost mut hs: Seq<ChainHead> = seq![];
    let mut k: usize = 0;
    assert(bodies.subrange(0, 0) =~= seq![]);
    while k < idx.len()
        invariant
            k <= idx@.len(),
            idx@.len() == bodies.len(),
            bodies == frame(messages_view(msgs@), SEQ, port, single).0,
            bodies == frame(messages_from(d@, 0), SEQ, port, single).0,
            end == frame(messages_from(d@, 0), SEQ, port, single).1,
            forall|q: int| 0 <= q < idx@.len() ==> #[trigger] idx@[q] < msgs@.len()
                && msgs@[idx@[q] as int].body@ == bodies[q],
            decode_all(bodies.subrange(0, k as int), |x: Seq<u8>| chain_of(x)) == Ok::<Seq<ChainHead>, Error>(hs),
            out@.len() == start.len() + hs.len(),
            forall|i: int| 0 <= i < start.len() ==> #[trigger] out@[i] == start[i],
            forall|j: int| 0 <= j < hs.len() ==> chain_matches(#[trigger] out@[start.len() + j], hs[j]),
        decreases idx@.len() - k,
    {
        proof {
            lemma_decode_all_step(bodies, k as int, |x: Seq<u8>| chain_of(x));
        }
        let m = &msgs[idx[k]];
        assert(m.body@ == bodies[k as int]);
        match Chain::decode(m) {
            Err(e) => {
                proof {
                    assert(chain_of(bodies[k as int]) == Err::<ChainHead, Error>(e));
                    assert(decode_all(bodies.subrange(0, k + 1), |x: Seq<u8>| chain_of(x)) == Err::<Seq<ChainHead>, Error>(e));
                    lemma_decode_all_err(bodies, k + 1, |x: Seq<u8>| chain_of(x));
                    assert(decode_all(bodies, |x: Seq<u8>| chain_of(x)) == Err::<Seq<ChainHead>, Error>(e));
                    assert(bodies == frame(messages_from(d@, 0), SEQ, port, single).0);
                    assert(chain_outcome(d@, port, single) == Err::<(Seq<ChainHead>, Flow), Error>(e));
                }
                return Err(e);
            },
            Ok(t) => {
                let ghost h = chain_of(m.body@)->Ok_0;
                out.push(t);
                proof {
                    hs = hs.push(h);
                }
            },
        }
        k = k + 1;
    }
    assert(bodies.subrange(0, k as int) =~= bodies);
    end
}

/// Handles one datagram of a rule dump: checks each rule record and appends
/// a rule for it to `out`, in the order the kernel sent them.
pub fn absorb_rules(out: &mut Vec<Rule>, d: &[u8], port: u32) -> (r: Result<Flow, Error>)
    ensures
        match rule_outcome(d@, port) {
            Err(e) => r == Err::<Flow, Error>(e),
            Ok((hs, flow)) => {
                &&& r == Ok::<Flow, Error>(flow)
                &&& final(out)@.len() == old(out)@.len() + hs.len()
                &&& forall|i: int| 0 <= i < old(out)@.len() ==> #[trigger] final(out)@[i] == old(out)@[i]
                &&& forall|j: int| 0 <= j < hs.len() ==> #[trigger] final(out)@[old(out)@.len() + j].expressions@.len() == 0
            },
        },
{
    let msgs = split_messages(d);
    let (idx, end) = frame_messages(&msgs, SEQ, port, false);
    let ghost bodies = frame(messages_from(d@, 0), SEQ, port, false).0;
    let ghost start = out@;
    let ghost mut hs: Seq<()> = seq![];
    let mut k: usize = 0;
    assert(bodies.subrange(0, 0) =~= seq![]);
    while k < idx.len()
        invariant
            k <= idx@.len(),
            idx@.len() == bodies.len(),
            bodies == frame(messages_view(msgs@), SEQ, port, false).0,
            bodies == frame(messages_from(d@, 0), SEQ, port, false).0,
            end == frame(messages_from(d@, 0), SEQ, port, false).1,
            forall|q: int| 0 <= q < idx@.len() ==> #[trigger] idx@[q] < msgs@.len()
                && msgs@[idx@[q] as int].body@ == bodies[q],
            decode_all(bodies.subrange(0, k as int), |x: Seq<u8>| if rule_ok(x) { Ok(()) } else { Err(Error::Parse) }) == Ok::<Seq<()>, Error>(hs),
            out@.len() == start.len() + hs.len(),
            forall|i: int| 0 <= i < start.len() ==> #[trigger] out@[i] == start[i],
            forall|j: int| 0 <= j < hs.len() ==> #[trigger] out@[start.len() + j].expressions@.len() == 0,
        decreases idx@.len() - k,
    {
        proof {
            lemma_decode_all_step(bodies, k as int, |x: Seq<u8>| if rule_ok(x) { Ok(()) } else { Err(Error::Parse) });
        }
        let m = &msgs[idx[k]];
        assert(m.body@ == bodies[k as int]);
        match Rule::decode(m) {
            Err(e) => {
                proof {
                    assert(decode_all(bodies.subrange(0, k + 1), |x: Seq<u8>| if rule_ok(x) { Ok(()) } else { Err(Error::Parse) }) == Err::<Seq<()>, Error>(e));
                    lemma_decode_all_err(bodies, k + 1, |x: Seq<u8>| if rule_ok(x) { Ok(()) } else { Err(Error::Parse) });
                    assert(decode_all(bodies, |x: Seq<u8>| if rule_ok(x) { Ok(()) } else { Err(Error::Parse) }) == Err::<Seq<()>, Error>(e));
                    assert(bodies == frame(messages_from(d@, 0), SEQ, port, false).0);
                    assert(rule_outcome(d@, port) == Err::<(Seq<()>, Flow), Error>(e));
                }
                return Err(e);
            },
            Ok(t) => {
                let ghost h = ();
                out.push(t);
                proof {
                    hs = hs.push(h);
                }
            },
        }
        k = k + 1;
    }
    assert(bodies.subrange(0, k as int) =~= bodies);
    end
}

// ---------------------------------------------------------------------------
// Properties of an exchange

proof fn lemma_decode_all_each<H>(b: Seq<Seq<u8>>, f: spec_fn(Seq<u8>) -> Result<H, Error>)
    requires
        decode_all(b, f) is Ok,
    ensures
        decode_all(b, f)->Ok_0.len() == b.len(),
        forall|j: int| 0 <= j < b.len() ==> f(#[trigger] b[j]) == Ok::<H, Error>(decode_all(b, f)->Ok_0[j]),
    decreases b.len(),
{
    if b.len() > 0 {
        lemma_decode_all_each(b.drop_last(), f);
        assert forall|j: int| 0 <= j < b.len() implies f(#[trigger] b[j]) == Ok::<H, Error>(decode_all(b, f)->Ok_0[j]) by {
            if j < b.len() - 1 {
                assert(b[j] == b.drop_last()[j]);
            }
        }
    }
}

/// A chain dump keeps the kernel's order: when a datagram is handled without
/// error, the j-th chain it adds is the decoding of its j-th chain record, and
/// there is one chain for each record.
pub proof fn chains_keep_dump_order(d: Seq<u8>, port: u32)
    requires
        chain_outcome(d, port, false) is Ok,
    ensures
        ({
            let bodies = frame(messages_from(d, 0), SEQ, port, false).0;
            let hs = chain_outcome(d, port, false)->Ok_0.0;
            &&& hs.len() == bodies.len()
            &&& forall|j: int| 0 <= j < bodies.len() ==> chain_of(#[trigger] bodies[j]) == Ok::<ChainHead, Error>(hs[j])
        }),
{
    let bodies = frame(messages_from(d, 0), SEQ, port, false).0;
    lemma_decode_all_each(bodies, |x: Seq<u8>| chain_of(x));
}

proof fn lemma_single_frame(msgs: Seq<MessageView>, seq: u32, port: u32)
    ensures
        frame(msgs, seq, port, true).0.len() <= 1,
        frame(msgs, seq, port, true).0.len() == 1 ==> frame(msgs, seq, port, true).1 == Ok::<Flow, Error>(Flow::Stop),
    decreases msgs.len(),
{
    if msgs.len() > 0 {
        lemma_single_frame(msgs.drop_first(), seq, port);
    }
}

/// A single-object query stops at its first record: a datagram yields at
/// most one chain, and once it has yielded one the exchange is complete, so
/// no further datagram is read.
pub proof fn one_chain_stops_at_first(d: Seq<u8>, port: u32)
    ensures
        chain_outcome(d, port, true) matches Ok((hs, flow)) ==> hs.len() <= 1 && (hs.len() == 1 ==> flow == Flow::Stop),
{
    let bodies = frame(messages_from(d, 0), SEQ, port, true).0;
    lemma_single_frame(messages_from(d, 0), SEQ, port);
    if decode_all(bodies, |x: Seq<u8>| chain_of(x)) is Ok {
        lemma_decode_all_each(bodies, |x: Seq<u8>| chain_of(x));
    }
}

} // verus!
