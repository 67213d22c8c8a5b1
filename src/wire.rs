//! The netlink wire format used by nf_tables: the fixed message header, the
//! nfnetlink family header, and type-length-value attributes.
//!
//! Header fields are in host order (little endian); nf_tables attribute
//! payloads that carry numbers are in network order (big endian).
use vstd::prelude::*;
use vstd::slice::{slice_subrange, slice_to_vec};

verus! {

/// Length of the netlink message header.
pub const NLMSG_HDRLEN: usize = 16;
/// Length of the nfnetlink header that follows it.
pub const NFGEN_HDRLEN: usize = 4;
/// Length of an attribute header.
pub const NLA_HDRLEN: usize = 4;
/// Largest payload an attribute can carry: its length field is 16 bits wide.
pub const NLA_MAX_PAYLOAD: usize = 65531;

pub const NLM_F_REQUEST: u16 = 1;
pub const NLM_F_ACK: u16 = 4;
pub const NLM_F_DUMP: u16 = 0x300;
/// Set by the kernel when a dump was interrupted by a concurrent change.
pub const NLM_F_DUMP_INTR: u16 = 0x10;

pub const NLMSG_ERROR: u16 = 2;
pub const NLMSG_DONE: u16 = 3;
/// Message types below this are netlink control messages.
pub const NLMSG_MIN_TYPE: u16 = 16;

/// The nf_tables subsystem, in the high byte of a message type.
pub const NFNL_SUBSYS_NFTABLES: u16 = 10;
pub const NFT_MSG_GETTABLE: u16 = 1;
pub const NFT_MSG_GETCHAIN: u16 = 4;
pub const NFT_MSG_GETRULE: u16 = 7;

/// Wildcard family: a request for every address family.
pub const NFPROTO_UNSPEC: u8 = 0;

/// OS error numbers reported for malformed exchanges.
pub const ESRCH: i32 = 3;
pub const EINTR: i32 = 4;
pub const EPROTO: i32 = 71;
pub const EBADMSG: i32 = 74;

// ---------------------------------------------------------------------------
// Byte-level model

/// `v` as two little-endian bytes.
pub open spec fn le16(v: int) -> Seq<u8> {
    seq![(v % 256) as u8, (v / 256 % 256) as u8]
}

/// `v` as four little-endian bytes.
pub open spec fn le32(v: int) -> Seq<u8> {
    seq![(v % 256) as u8, (v / 256 % 256) as u8, (v / 65536 % 256) as u8, (v / 16777216 % 256) as u8]
}

/// The little-endian 16-bit number at `i`.
pub open spec fn rd16(b: Seq<u8>, i: int) -> int {
    b[i] as int + b[i + 1] as int * 256
}

/// The little-endian 32-bit number at `i`.
pub open spec fn rd32(b: Seq<u8>, i: int) -> int {
    b[i] as int + b[i + 1] as int * 256 + b[i + 2] as int * 65536 + b[i + 3] as int * 16777216
}

/// The big-endian 32-bit number at `i`.
pub open spec fn be32(b: Seq<u8>, i: int) -> int {
    b[i] as int * 16777216 + b[i + 1] as int * 65536 + b[i + 2] as int * 256 + b[i + 3] as int
}

/// The big-endian 64-bit number at `i`.
pub open spec fn be64(b: Seq<u8>, i: int) -> int {
    be32(b, i) * 4294967296 + be32(b, i + 4)
}

/// `n` rounded up to a multiple of four.
pub open spec fn align4(n: int) -> int {
    n + (4 - n % 4) % 4
}

pub open spec fn zeros(n: int) -> Seq<u8> {
    Seq::new(n as nat, |i: int| 0u8)
}

// ---------------------------------------------------------------------------
// Encoding

/// A request attribute: a type and its payload.
pub struct Attr {
    pub kind: u16,
    pub value: Vec<u8>,
}

impl View for Attr {
    type V = (u16, Seq<u8>);

    open spec fn view(&self) -> (u16, Seq<u8>) {
        (self.kind, self.value@)
    }
}

pub open spec fn attrs_view(a: Seq<Attr>) -> Seq<(u16, Seq<u8>)> {
    a.map_values(|x: Attr| x@)
}

/// One attribute on the wire: length, type, payload, zero padding.
pub open spec fn attr_bytes(kind: u16, value: Seq<u8>) -> Seq<u8> {
    le16(value.len() + 4int) + le16(kind as int) + value + zeros(align4(value.len() as int) - value.len())
}

/// Attributes on the wire, one after the other.
pub open spec fn attrs_bytes(a: Seq<(u16, Seq<u8>)>) -> Seq<u8>
    decreases a.len(),
{
    if a.len() == 0 {
        seq![]
    } else {
        attrs_bytes(a.drop_last()) + attr_bytes(a.last().0, a.last().1)
    }
}

/// Every payload fits an attribute's 16-bit length field.
pub open spec fn attrs_fit(a: Seq<(u16, Seq<u8>)>) -> bool {
    forall|i: int| 0 <= i < a.len() ==> #[trigger] a[i].1.len() <= NLA_MAX_PAYLOAD
}

/// A netlink header: total length, type, flags, sequence number, port id.
pub open spec fn header_bytes(len: int, kind: u16, flags: u16, seq: u32, port: u32) -> Seq<u8> {
    le32(len) + le16(kind as int) + le16(flags as int) + le32(seq as int) + le32(port as int)
}

/// The wire type of an nf_tables operation.
pub open spec fn nft_type(op: u16) -> u16 {
    (NFNL_SUBSYS_NFTABLES * 256 + op) as u16
}

/// A complete nf_tables request: header (port id 0, the request flag added to
/// `flags`), nfnetlink header for `family`, then the attributes.
pub open spec fn request_bytes(op: u16, family: u8, flags: u16, seq: u32, a: Seq<(u16, Seq<u8>)>) -> Seq<u8> {
    let body = seq![family, 0u8, 0u8, 0u8] + attrs_bytes(a);
    header_bytes(NLMSG_HDRLEN + body.len(), nft_type(op), (flags | NLM_F_REQUEST) as u16, seq, 0) + body
}

fn push_le16(buf: &mut Vec<u8>, v: u16)
    ensures
        final(buf)@ == old(buf)@ + le16(v as int),
{
    buf.push((v % 256) as u8);
    buf.push((v / 256) as u8);
    assert(final(buf)@ =~= old(buf)@ + le16(v as int));
}

fn push_le32(buf: &mut Vec<u8>, v: u32)
    ensures
        final(buf)@ == old(buf)@ + le32(v as int),
{
    buf.push((v % 256) as u8);
    buf.push((v / 256 % 256) as u8);
    buf.push((v / 65536 % 256) as u8);
    buf.push((v / 16777216) as u8);
    assert(final(buf)@ =~= old(buf)@ + le32(v as int));
}

fn push_bytes(buf: &mut Vec<u8>, src: &[u8])
    ensures
        final(buf)@ == old(buf)@ + src@,
{
    let mut i: usize = 0;
    while i < src.len()
        invariant
            i <= src@.len(),
            buf@ == old(buf)@ + src@.subrange(0, i as int),
        decreases src@.len() - i,
    {
        buf.push(src[i]);
        i = i + 1;
        assert(buf@ =~= old(buf)@ + src@.subrange(0, i as int));
    }
    assert(src@.subrange(0, i as int) =~= src@);
}

/// Appends one attribute in type-length-value form, padded to four bytes.
pub fn append_attr(buf: &mut Vec<u8>, kind: u16, value: &[u8])
    requires
        value@.len() <= NLA_MAX_PAYLOAD,
    ensures
        final(buf)@ == old(buf)@ + attr_bytes(kind, value@),
{
    let n = value.len();
    push_le16(buf, (n + 4) as u16);
    push_le16(buf, kind);
    push_bytes(buf, value);
    let pad: usize = (4 - n % 4) % 4;
    let mut k: usize = 0;
    while k < pad
        invariant
            k <= pad,
            pad == align4(n as int) - n,
            buf@ == old(buf)@ + le16(n + 4) + le16(kind as int) + value@ + zeros(k as int),
        decreases pad - k,
    {
        buf.push(0u8);
        k = k + 1;
        assert(buf@ =~= old(buf)@ + le16(n + 4) + le16(kind as int) + value@ + zeros(k as int));
    }
    assert(final(buf)@ =~= old(buf)@ + attr_bytes(kind, value@));
}

pub proof fn lemma_attr_len(kind: u16, value: Seq<u8>)
    ensures
        attr_bytes(kind, value).len() == align4(value.len() as int) + 4,
        value.len() + 4 <= attr_bytes(kind, value).len() <= value.len() + 7,
{
}

/// Encodes a request for operation `op` on `family` with the selector
/// attributes `a`.
pub fn encode_request(op: u16, family: u8, flags: u16, seq: u32, a: &Vec<Attr>) -> (r: Vec<u8>)
    requires
        op < 256,
        a@.len() <= 16,
        attrs_fit(attrs_view(a@)),
    ensures
        r@ == request_bytes(op, family, flags, seq, attrs_view(a@)),
{
    let mut payload: Vec<u8> = Vec::new();
    let mut i: usize = 0;
    while i < a.len()
        invariant
            i <= a@.len(),
            a@.len() <= 16,
            attrs_fit(attrs_view(a@)),
            payload@ == attrs_bytes(attrs_view(a@.subrange(0, i as int))),
            payload@.len() <= i * 65538,
        decreases a@.len() - i,
    {
        assert(attrs_view(a@)[i as int].1.len() <= NLA_MAX_PAYLOAD);
        proof {
            lemma_attr_len(a@[i as int].kind, a@[i as int].value@);
        }
        append_attr(&mut payload, a[i].kind, a[i].value.as_slice());
        i = i + 1;
        assert(attrs_view(a@.subrange(0, i as int)).drop_last() =~= attrs_view(a@.subrange(0, i - 1)));
    }
    assert(a@.subrange(0, i as int) =~= a@);
    let total = NLMSG_HDRLEN + NFGEN_HDRLEN + payload.len();
    let mut out: Vec<u8> = Vec::new();
    push_le32(&mut out, total as u32);
    push_le16(&mut out, NFNL_SUBSYS_NFTABLES * 256 + op);
    push_le16(&mut out, flags | NLM_F_REQUEST);
    push_le32(&mut out, seq);
    push_le32(&mut out, 0);
    out.push(family);
    out.push(0u8);
    out.push(0u8);
    out.push(0u8);
    push_bytes(&mut out, payload.as_slice());
    let ghost body = seq![family, 0u8, 0u8, 0u8] + attrs_bytes(attrs_view(a@));
    assert(body.len() == 4 + payload@.len());
    assert(out@ =~= request_bytes(op, family, flags, seq, attrs_view(a@)));
    out
}

// ---------------------------------------------------------------------------
// Decoding

fn read_le16(b: &[u8], i: usize) -> (r: u16)
    requires
        i + 2 <= b@.len(),
    ensures
        r as int == rd16(b@, i as int),
{
    b[i] as u16 + b[i + 1] as u16 * 256
}

fn read_le32(b: &[u8], i: usize) -> (r: u32)
    requires
        i + 4 <= b@.len(),
    ensures
        r as int == rd32(b@, i as int),
{
    b[i] as u32 + b[i + 1] as u32 * 256 + b[i + 2] as u32 * 65536 + b[i + 3] as u32 * 16777216
}

/// Reads a big-endian 32-bit number from the first four bytes.
pub fn read_be32(b: &[u8]) -> (r: u32)
    requires
        4 <= b@.len(),
    ensures
        r as int == be32(b@, 0),
{
    b[0] as u32 * 16777216 + b[1] as u32 * 65536 + b[2] as u32 * 256 + b[3] as u32
}

/// Reads a big-endian 64-bit number from the first eight bytes.
pub fn read_be64(b: &[u8]) -> (r: u64)
    requires
        8 <= b@.len(),
    ensures
        r as int == be64(b@, 0),
{
    let hi = read_be32(b) as u64;
    let lo = b[4] as u64 * 16777216 + b[5] as u64 * 65536 + b[6] as u64 * 256 + b[7] as u64;
    assert(lo as int == be32(b@, 4));
    hi * 4294967296 + lo
}

/// The offset after an item of `len` bytes at `i`, padded to four bytes and
/// clipped to the end of the buffer.
pub open spec fn next_offset(total: int, i: int, len: int) -> int {
    if i + align4(len) < total {
        i + align4(len)
    } else {
        total
    }
}

fn advance(total: usize, i: usize, len: usize) -> (r: usize)
    requires
        i + len <= total,
    ensures
        r as int == next_offset(total as int, i as int, len as int),
{
    let pad: usize = (4 - len % 4) % 4;
    if pad < total - i - len {
        i + len + pad
    } else {
        total
    }
}

/// A received netlink message, as the model sees it.
pub struct MessageView {
    pub kind: u16,
    pub flags: u16,
    pub seq: u32,
    pub port_id: u32,
    pub body: Seq<u8>,
}

/// A received netlink message: its header fields and the bytes after the
/// header.
pub struct Message {
    pub kind: u16,
    pub flags: u16,
    pub seq: u32,
    pub port_id: u32,
    pub body: Vec<u8>,
}

impl View for Message {
    type V = MessageView;

    open spec fn view(&self) -> MessageView {
        MessageView {
            kind: self.kind,
            flags: self.flags,
            seq: self.seq,
            port_id: self.port_id,
            body: self.body@,
        }
    }
}

pub open spec fn messages_view(m: Seq<Message>) -> Seq<MessageView> {
    m.map_values(|x: Message| x@)
}

/// The message of `len` bytes at `i`.
pub open spec fn message_at(d: Seq<u8>, i: int, len: int) -> MessageView {
    MessageView {
        kind: rd16(d, i + 4) as u16,
        flags: rd16(d, i + 6) as u16,
        seq: rd32(d, i + 8) as u32,
        port_id: rd32(d, i + 12) as u32,
        body: d.subrange(i + 16, i + len),
    }
}

/// The messages of a datagram from offset `i` on. As in libmnl, reading
/// ends at the first header that does not fit what is left.
pub open spec fn messages_from(d: Seq<u8>, i: int) -> Seq<MessageView>
    decreases d.len() - i,
{
    if i < 0 || d.len() - i < NLMSG_HDRLEN {
        seq![]
    } else {
        let len = rd32(d, i);
        if len < NLMSG_HDRLEN || len > d.len() - i {
            seq![]
        } else {
            seq![message_at(d, i, len)] + messages_from(d, next_offset(d.len() as int, i, len))
        }
    }
}

/// Splits a received datagram into its messages.
pub fn split_messages(d: &[u8]) -> (r: Vec<Message>)
    ensures
        messages_view(r@) == messages_from(d@, 0),
{
    let mut out: Vec<Message> = Vec::new();
    let mut i: usize = 0;
    while i < d.len() && d.len() - i >= NLMSG_HDRLEN
        invariant
            i <= d@.len(),
            messages_from(d@, 0) == messages_view(out@) + messages_from(d@, i as int),
        decreases d@.len() - i,
    {
        let len = read_le32(d, i);
        if len < 16 || len as usize > d.len() - i {
            assert(messages_from(d@, i as int) =~= seq![]);
            assert(messages_from(d@, d@.len() as int) =~= seq![]);
            i = d.len();
            continue;
        }
        let len = len as usize;
        let m = Message {
            kind: read_le16(d, i + 4),
            flags: read_le16(d, i + 6),
            seq: read_le32(d, i + 8),
            port_id: read_le32(d, i + 12),
            body: slice_to_vec(slice_subrange(d, i + 16, i + len)),
        };
        let ghost prev = out@;
        out.push(m);
        let next = advance(d.len(), i, len);
        assert(messages_view(out@) =~= messages_view(prev) + seq![message_at(d@, i as int, len as int)]);
        assert(messages_from(d@, i as int) == seq![message_at(d@, i as int, len as int)] + messages_from(d@, next as int));
        assert(messages_view(prev) + messages_from(d@, i as int) =~= messages_view(out@) + messages_from(d@, next as int));
        i = next;
    }
    assert(messages_from(d@, i as int) =~= seq![]);
    assert(messages_view(out@) + seq![] =~= messages_view(out@));
    out
}

/// Strips the netlink flag bits from an attribute type.
pub open spec fn attr_kind(raw: int) -> u16 {
    (raw % 16384) as u16
}

/// The attributes from offset `i` to the end, or `None` if one of them is
/// malformed.
pub open spec fn attrs_from(b: Seq<u8>, i: int) -> Option<Seq<(u16, Seq<u8>)>>
    decreases b.len() - i,
{
    if i < 0 || i >= b.len() {
        Some(seq![])
    } else if b.len() - i < NLA_HDRLEN {
        None
    } else {
        let len = rd16(b, i);
        if len < NLA_HDRLEN || len > b.len() - i {
            None
        } else {
            match attrs_from(b, next_offset(b.len() as int, i, len)) {
                Some(rest) => Some(seq![(attr_kind(rd16(b, i + 2)), b.subrange(i + 4, i + len))] + rest),
                None => None,
            }
        }
    }
}

/// The attribute block of `b` that starts at `start`.
pub fn parse_attrs(b: &[u8], start: usize) -> (r: Option<Vec<Attr>>)
    ensures
        match r {
            Some(v) => attrs_from(b@, start as int) == Some(attrs_view(v@)),
            None => attrs_from(b@, start as int) is None,
        },
{
    let mut out: Vec<Attr> = Vec::new();
    let mut i: usize = start;
    while i < b.len()
        invariant
            attrs_from(b@, start as int) == match attrs_from(b@, i as int) {
                Some(rest) => Some(attrs_view(out@) + rest),
                None => None::<Seq<(u16, Seq<u8>)>>,
            },
        decreases b@.len() - i,
    {
        if b.len() - i < NLA_HDRLEN {
            return None;
        }
        let len = read_le16(b, i) as usize;
        if len < NLA_HDRLEN || len > b.len() - i {
            return None;
        }
        let raw = read_le16(b, i + 2);
        let a = Attr { kind: raw % 16384, value: slice_to_vec(slice_subrange(b, i + 4, i + len)) };
        let ghost prev = out@;
        let ghost item = (attr_kind(rd16(b@, i as int + 2)), b@.subrange(i + 4, i + len));
        out.push(a);
        let next = advance(b.len(), i, len);
        assert(attrs_view(out@) =~= attrs_view(prev) + seq![item]);
        proof {
            match attrs_from(b@, next as int) {
                Some(rest) => {
                    assert(attrs_view(prev) + (seq![item] + rest) =~= attrs_view(out@) + rest);
                },
                None => {},
            }
        }
        i = next;
    }
    assert(attrs_view(out@) + seq![] =~= attrs_view(out@));
    Some(out)
}

/// The payload of the last attribute of type `kind`; the last one wins, as
/// when the kernel's attribute table is filled in order.
pub open spec fn find_attr(a: Seq<(u16, Seq<u8>)>, kind: u16) -> Option<Seq<u8>>
    decreases a.len(),
{
    if a.len() == 0 {
        None
    } else if a.last().0 == kind {
        Some(a.last().1)
    } else {
        find_attr(a.drop_last(), kind)
    }
}

/// Looks up the payload of attribute `kind`.
pub fn get_attr(a: &Vec<Attr>, kind: u16) -> (r: Option<&Vec<u8>>)
    ensures
        match r {
            Some(v) => find_attr(attrs_view(a@), kind) == Some(v@),
            None => find_attr(attrs_view(a@), kind) is None,
        },
{
    let mut i: usize = a.len();
    assert(a@.subrange(0, i as int) =~= a@);
    while i > 0
        invariant
            i <= a@.len(),
            find_attr(attrs_view(a@), kind) == find_attr(attrs_view(a@.subrange(0, i as int)), kind),
        decreases i,
    {
        assert(attrs_view(a@.subrange(0, i as int)).drop_last() =~= attrs_view(a@.subrange(0, i - 1)));
        if a[i - 1].kind == kind {
            return Some(&a[i - 1].value);
        }
        i = i - 1;
    }
    None
}

} // verus!
