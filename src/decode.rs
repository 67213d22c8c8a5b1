//! Decoding of nf_tables response messages into the model.
use vstd::prelude::*;
use vstd::slice::slice_subrange;
use vstd::utf8::{decode_utf8, valid_utf8};

use crate::types::{
    family_of_code, policy_of_code, Chain, Error, Family, Hook, HookType, HookType2, Policy, Rule,
    Table,
};
use crate::wire::{attrs_from, attrs_view, be32, be64, find_attr, get_attr, parse_attrs, read_be32, read_be64, Attr, Message, NFGEN_HDRLEN};

verus! {

pub const NFTA_TABLE_NAME: u16 = 1;

pub const NFTA_CHAIN_NAME: u16 = 3;
pub const NFTA_CHAIN_HOOK: u16 = 4;
pub const NFTA_CHAIN_POLICY: u16 = 5;
pub const NFTA_CHAIN_TYPE: u16 = 7;
pub const NFTA_CHAIN_COUNTERS: u16 = 8;

pub const NFTA_HOOK_HOOKNUM: u16 = 1;
pub const NFTA_HOOK_PRIORITY: u16 = 2;

pub const NFTA_COUNTER_BYTES: u16 = 1;
pub const NFTA_COUNTER_PACKETS: u16 = 2;

pub const NFTA_CHAIN_TABLE: u16 = 1;
pub const NFTA_RULE_TABLE: u16 = 1;
pub const NFTA_RULE_CHAIN: u16 = 2;

/// The bytes of a kernel string: everything before the first zero byte.
pub open spec fn cstr(p: Seq<u8>) -> Seq<u8>
    decreases p.len(),
{
    if p.len() == 0 || p[0] == 0 {
        seq![]
    } else {
        seq![p[0]] + cstr(p.drop_first())
    }
}

/// The text of a string attribute, if it is valid UTF-8.
pub open spec fn text_of(p: Seq<u8>) -> Option<Seq<char>> {
    if valid_utf8(cstr(p)) {
        Some(decode_utf8(cstr(p)))
    } else {
        None
    }
}

/// Relies on `String::from_utf8`: it succeeds exactly on valid UTF-8 and then
/// holds the decoded characters.
#[verifier::external_body]
fn utf8_string(b: Vec<u8>) -> (r: Option<String>)
    ensures
        r is Some <==> valid_utf8(b@),
        r matches Some(s) ==> s@ == decode_utf8(b@),
{
    String::from_utf8(b).ok()
}

proof fn lemma_cstr_prefix(p: Seq<u8>, k: int)
    requires
        0 <= k <= p.len(),
        forall|j: int| 0 <= j < k ==> p[j] != 0,
        k == p.len() || p[k] == 0,
    ensures
        cstr(p) == p.subrange(0, k),
    decreases k,
{
    if k == 0 {
        assert(p.subrange(0, 0) =~= seq![]);
    } else {
        let t = p.drop_first();
        assert forall|j: int| 0 <= j < k - 1 implies t[j] != 0 by {
            assert(p[j + 1] != 0);
        }
        lemma_cstr_prefix(t, k - 1);
        assert(seq![p[0]] + t.subrange(0, k - 1) =~= p.subrange(0, k));
    }
}

/// The bytes of `p` before its first zero byte.
fn cstr_bytes(p: &[u8]) -> (r: Vec<u8>)
    ensures
        r@ == cstr(p@),
{
    let mut k: usize = 0;
    while k < p.len() && p[k] != 0
        invariant
            k <= p@.len(),
            forall|j: int| 0 <= j < k ==> p@[j] != 0,
        decreases p@.len() - k,
    {
        k = k + 1;
    }
    proof {
        lemma_cstr_prefix(p@, k as int);
    }
    vstd::slice::slice_to_vec(slice_subrange(p, 0, k))
}

/// Reads a string attribute's payload as text.
pub fn read_text(p: &[u8]) -> (r: Result<String, Error>)
    ensures
        match text_of(p@) {
            Some(t) => r matches Ok(s) && s@ == t,
            None => r == Err::<String, Error>(Error::Decode),
        },
{
    match utf8_string(cstr_bytes(p)) {
        Some(s) => Ok(s),
        None => Err(Error::Decode),
    }
}

pub type AttrsView = Seq<(u16, Seq<u8>)>;

/// An optional string attribute.
pub open spec fn text_field(a: AttrsView, kind: u16) -> Result<Option<Seq<char>>, Error> {
    match find_attr(a, kind) {
        None => Ok(None),
        Some(p) => match text_of(p) {
            Some(t) => Ok(Some(t)),
            None => Err(Error::Decode),
        },
    }
}

/// An optional 32-bit attribute; its payload must be exactly four bytes.
pub open spec fn u32_field(a: AttrsView, kind: u16) -> Result<Option<u32>, Error> {
    match find_attr(a, kind) {
        None => Ok(None),
        Some(p) => if p.len() == 4 {
            Ok(Some(be32(p, 0) as u32))
        } else {
            Err(Error::Parse)
        },
    }
}

/// An optional 64-bit attribute; its payload must be exactly eight bytes.
pub open spec fn u64_field(a: AttrsView, kind: u16) -> Result<Option<u64>, Error> {
    match find_attr(a, kind) {
        None => Ok(None),
        Some(p) => if p.len() == 8 {
            Ok(Some(be64(p, 0) as u64))
        } else {
            Err(Error::Parse)
        },
    }
}

/// An optional nested attribute block.
pub open spec fn nested_field(a: AttrsView, kind: u16) -> Result<Option<AttrsView>, Error> {
    match find_attr(a, kind) {
        None => Ok(None),
        Some(p) => match attrs_from(p, 0) {
            Some(n) => Ok(Some(n)),
            None => Err(Error::Parse),
        },
    }
}

fn get_text(a: &Vec<Attr>, kind: u16) -> (r: Result<Option<String>, Error>)
    ensures
        match text_field(attrs_view(a@), kind) {
            Ok(None) => r matches Ok(None),
            Ok(Some(t)) => r matches Ok(Some(s)) && s@ == t,
            Err(e) => r == Err::<Option<String>, Error>(e),
        },
{
    match get_attr(a, kind) {
        None => Ok(None),
        Some(p) => match read_text(p.as_slice()) {
            Ok(s) => Ok(Some(s)),
            Err(e) => Err(e),
        },
    }
}

fn get_u32(a: &Vec<Attr>, kind: u16) -> (r: Result<Option<u32>, Error>)
    ensures
        r == u32_field(attrs_view(a@), kind),
{
    match get_attr(a, kind) {
        None => Ok(None),
        Some(p) => if p.len() == 4 {
            Ok(Some(read_be32(p.as_slice())))
        } else {
            Err(Error::Parse)
        },
    }
}

fn get_u64(a: &Vec<Attr>, kind: u16) -> (r: Result<Option<u64>, Error>)
    ensures
        r == u64_field(attrs_view(a@), kind),
{
    match get_attr(a, kind) {
        None => Ok(None),
        Some(p) => if p.len() == 8 {
            Ok(Some(read_be64(p.as_slice())))
        } else {
            Err(Error::Parse)
        },
    }
}

fn get_nested(a: &Vec<Attr>, kind: u16) -> (r: Result<Option<Vec<Attr>>, Error>)
    ensures
        match nested_field(attrs_view(a@), kind) {
            Ok(None) => r matches Ok(None),
            Ok(Some(n)) => r matches Ok(Some(v)) && attrs_view(v@) == n,
            Err(e) => r matches Err(e2) && e2 == e,
        },
{
    match get_attr(a, kind) {
        None => Ok(None),
        Some(p) => match parse_attrs(p.as_slice(), 0) {
            Some(n) => Ok(Some(n)),
            None => Err(Error::Parse),
        },
    }
}

/// The attribute block of a response body, after its nfnetlink header.
pub open spec fn body_attrs(body: Seq<u8>) -> Option<AttrsView> {
    if body.len() < NFGEN_HDRLEN {
        None
    } else {
        attrs_from(body, NFGEN_HDRLEN as int)
    }
}

fn message_attrs(m: &Message) -> (r: Option<Vec<Attr>>)
    ensures
        match r {
            Some(v) => body_attrs(m.body@) == Some(attrs_view(v@)),
            None => body_attrs(m.body@) is None,
        },
{
    if m.body.len() < NFGEN_HDRLEN {
        None
    } else {
        parse_attrs(m.body.as_slice(), NFGEN_HDRLEN)
    }
}

/// What a GET-TABLE response says of a table: its name and family.
pub open spec fn table_of(body: Seq<u8>) -> Result<(Seq<char>, Family), Error> {
    match body_attrs(body) {
        None => Err(Error::Parse),
        Some(a) => match text_field(a, NFTA_TABLE_NAME) {
            Err(e) => Err(e),
            Ok(None) => Err(Error::Parse),
            Ok(Some(name)) => match family_of_code(body[0]) {
                None => Err(Error::Decode),
                Some(f) => Ok((name, f)),
            },
        },
    }
}

/// What a GET-CHAIN response says of a chain.
pub struct ChainHead {
    pub name: Seq<char>,
    pub hook: Option<Hook>,
    pub policy: Policy,
    pub bytes: u64,
    pub packets: u64,
}

/// The hook point with kernel number `v` (input 1, forward 2, output 3).
pub open spec fn hook_point_of(v: u32) -> Option<HookType2> {
    if v == 1 {
        Some(HookType2::Input)
    } else if v == 2 {
        Some(HookType2::Forward)
    } else if v == 3 {
        Some(HookType2::Output)
    } else {
        None
    }
}

/// A 32-bit two's complement number.
pub open spec fn signed32(v: u32) -> i64 {
    if v < 0x8000_0000 {
        v as i64
    } else {
        (v - 0x1_0000_0000) as i64
    }
}

/// The chain type "filter", as a kernel string.
pub open spec fn is_filter_type(p: Seq<u8>) -> bool {
    cstr(p) == seq![102u8, 105u8, 108u8, 116u8, 101u8, 114u8]
}

/// The chain type named by the chain's type attribute; a chain without one is
/// a filter chain.
pub open spec fn hook_type_of(a: AttrsView) -> Result<HookType, Error> {
    match find_attr(a, NFTA_CHAIN_TYPE) {
        None => Ok(HookType::Filter),
        Some(p) => if is_filter_type(p) {
            Ok(HookType::Filter)
        } else {
            Err(Error::Decode)
        },
    }
}

/// The hook of a chain: absent when the hook attribute is absent; otherwise
/// its hook number and priority are required.
pub open spec fn hook_of(a: AttrsView) -> Result<Option<Hook>, Error> {
    match nested_field(a, NFTA_CHAIN_HOOK) {
        Err(e) => Err(e),
        Ok(None) => Ok(None),
        Ok(Some(h)) => match u32_field(h, NFTA_HOOK_HOOKNUM) {
            Err(e) => Err(e),
            Ok(None) => Err(Error::Parse),
            Ok(Some(num)) => match u32_field(h, NFTA_HOOK_PRIORITY) {
                Err(e) => Err(e),
                Ok(None) => Err(Error::Parse),
                Ok(Some(prio)) => match hook_point_of(num) {
                    None => Err(Error::Decode),
                    Some(point) => match hook_type_of(a) {
                        Err(e) => Err(e),
                        Ok(t) => Ok(Some(Hook { type_: t, type2: point, priority: signed32(prio) })),
                    },
                },
            },
        },
    }
}

/// The policy of a chain: Accept when the attribute is absent.
pub open spec fn policy_of(a: AttrsView) -> Result<Policy, Error> {
    match u32_field(a, NFTA_CHAIN_POLICY) {
        Err(e) => Err(e),
        Ok(None) => Ok(Policy::Accept),
        Ok(Some(v)) => match policy_of_code(v) {
            None => Err(Error::Decode),
            Some(p) => Ok(p),
        },
    }
}

/// The counters of a chain as (bytes, packets); a missing counter reads 0.
pub open spec fn counters_of(a: AttrsView) -> Result<(u64, u64), Error> {
    match nested_field(a, NFTA_CHAIN_COUNTERS) {
        Err(e) => Err(e),
        Ok(None) => Ok((0, 0)),
        Ok(Some(c)) => match u64_field(c, NFTA_COUNTER_BYTES) {
            Err(e) => Err(e),
            Ok(b) => match u64_field(c, NFTA_COUNTER_PACKETS) {
                Err(e) => Err(e),
                Ok(p) => Ok((
                    match b {
                        Some(x) => x,
                        None => 0,
                    },
                    match p {
                        Some(x) => x,
                        None => 0,
                    },
                )),
            },
        },
    }
}

/// What a GET-CHAIN response says of a chain; the name is required.
pub open spec fn chain_of(body: Seq<u8>) -> Result<ChainHead, Error> {
    match body_attrs(body) {
        None => Err(Error::Parse),
        Some(a) => match text_field(a, NFTA_CHAIN_NAME) {
            Err(e) => Err(e),
            Ok(None) => Err(Error::Parse),
            Ok(Some(name)) => match policy_of(a) {
                Err(e) => Err(e),
                Ok(policy) => match counters_of(a) {
                    Err(e) => Err(e),
                    Ok(cnt) => match hook_of(a) {
                        Err(e) => Err(e),
                        Ok(hook) => Ok(
                            ChainHead { name, hook, policy, bytes: cnt.0, packets: cnt.1 },
                        ),
                    },
                },
            },
        },
    }
}

/// Whether a GET-RULE response is well formed. Rule bodies are not decoded.
pub open spec fn rule_ok(body: Seq<u8>) -> bool {
    body_attrs(body) is Some
}

/// A freshly decoded chain carries the response's fields and no rules.
pub open spec fn chain_matches(c: Chain, h: ChainHead) -> bool {
    &&& c.name@ == h.name
    &&& c.hook == h.hook
    &&& c.policy == h.policy
    &&& c.bytes == h.bytes
    &&& c.packets == h.packets
    &&& c.rules@.len() == 0
}

/// A freshly decoded table carries the response's name and family, and no
/// chains or sets.
pub open spec fn table_matches(t: Table, h: (Seq<char>, Family)) -> bool {
    &&& t.name@ == h.0
    &&& t.family == h.1
    &&& t.chains@.len() == 0
    &&& t.sets@.len() == 0
}

fn is_filter(p: &[u8]) -> (r: bool)
    ensures
        r == is_filter_type(p@),
{
    let ghost f = seq![102u8, 105u8, 108u8, 116u8, 101u8, 114u8];
    let mut k: usize = 0;
    while k < p.len() && p[k] != 0
        invariant
            k <= p@.len(),
            forall|j: int| 0 <= j < k ==> p@[j] != 0,
        decreases p@.len() - k,
    {
        k = k + 1;
    }
    proof {
        lemma_cstr_prefix(p@, k as int);
    }
    let r = k == 6 && p[0] == 102u8 && p[1] == 105u8 && p[2] == 108u8 && p[3] == 116u8 && p[4]
        == 101u8 && p[5] == 114u8;
    assert(r ==> p@.subrange(0, k as int) =~= f);
    assert(p@.subrange(0, k as int) =~= f ==> r) by {
        if p@.subrange(0, k as int) =~= f {
            assert(p@.subrange(0, k as int).len() == 6);
            assert(p@[0] == f[0] && p@[1] == f[1] && p@[2] == f[2]);
            assert(p@[3] == f[3] && p@[4] == f[4] && p@[5] == f[5]);
        }
    }
    r
}

fn decode_hook_point(v: u32) -> (r: Option<HookType2>)
    ensures
        r == hook_point_of(v),
{
    if v == 1 {
        Some(HookType2::Input)
    } else if v == 2 {
        Some(HookType2::Forward)
    } else if v == 3 {
        Some(HookType2::Output)
    } else {
        None
    }
}

fn to_signed(v: u32) -> (r: i64)
    ensures
        r == signed32(v),
{
    if v < 0x8000_0000 {
        v as i64
    } else {
        v as i64 - 0x1_0000_0000
    }
}

fn decode_hook(a: &Vec<Attr>) -> (r: Result<Option<Hook>, Error>)
    ensures
        r == hook_of(attrs_view(a@)),
{
    let h = match get_nested(a, NFTA_CHAIN_HOOK) {
        Err(e) => return Err(e),
        Ok(None) => return Ok(None),
        Ok(Some(h)) => h,
    };
    let num = match get_u32(&h, NFTA_HOOK_HOOKNUM) {
        Err(e) => return Err(e),
        Ok(None) => return Err(Error::Parse),
        Ok(Some(v)) => v,
    };
    let prio = match get_u32(&h, NFTA_HOOK_PRIORITY) {
        Err(e) => return Err(e),
        Ok(None) => return Err(Error::Parse),
        Ok(Some(v)) => v,
    };
    let point = match decode_hook_point(num) {
        None => return Err(Error::Decode),
        Some(p) => p,
    };
    let t = match get_attr(a, NFTA_CHAIN_TYPE) {
        None => HookType::Filter,
        Some(p) => if is_filter(p.as_slice()) {
            HookType::Filter
        } else {
            return Err(Error::Decode);
        },
    };
    Ok(Some(Hook { type_: t, type2: point, priority: to_signed(prio) }))
}

fn decode_policy(a: &Vec<Attr>) -> (r: Result<Policy, Error>)
    ensures
        r == policy_of(attrs_view(a@)),
{
    match get_u32(a, NFTA_CHAIN_POLICY) {
        Err(e) => Err(e),
        Ok(None) => Ok(Policy::Accept),
        Ok(Some(v)) => Policy::from_wire(v),
    }
}

fn decode_counters(a: &Vec<Attr>) -> (r: Result<(u64, u64), Error>)
    ensures
        r == counters_of(attrs_view(a@)),
{
    let c = match get_nested(a, NFTA_CHAIN_COUNTERS) {
        Err(e) => return Err(e),
        Ok(None) => return Ok((0, 0)),
        Ok(Some(c)) => c,
    };
    let b = match get_u64(&c, NFTA_COUNTER_BYTES) {
        Err(e) => return Err(e),
        Ok(b) => b,
    };
    let p = match get_u64(&c, NFTA_COUNTER_PACKETS) {
        Err(e) => return Err(e),
        Ok(p) => p,
    };
    Ok((
        match b {
            Some(x) => x,
            None => 0,
        },
        match p {
            Some(x) => x,
            None => 0,
        },
    ))
}

impl Table {
    /// Decodes one GET-TABLE response message.
    pub fn decode(m: &Message) -> (r: Result<Table, Error>)
        ensures
            match table_of(m.body@) {
                Ok(h) => r matches Ok(t) && table_matches(t, h),
                Err(e) => r matches Err(e2) && e2 == e,
            },
    {
        let a = match message_attrs(m) {
            None => return Err(Error::Parse),
            Some(a) => a,
        };
        let name = match get_text(&a, NFTA_TABLE_NAME) {
            Err(e) => return Err(e),
            Ok(None) => return Err(Error::Parse),
            Ok(Some(s)) => s,
        };
        let family = match Family::from_wire(m.body[0]) {
            Err(e) => return Err(e),
            Ok(f) => f,
        };
        Ok(Table { name, family, chains: Vec::new(), sets: Vec::new() })
    }
}

impl Chain {
    /// Decodes one GET-CHAIN response message. Rules are attached later.
    pub fn decode(m: &Message) -> (r: Result<Chain, Error>)
        ensures
            match chain_of(m.body@) {
                Ok(h) => r matches Ok(c) && chain_matches(c, h),
                Err(e) => r matches Err(e2) && e2 == e,
            },
    {
        let a = match message_attrs(m) {
            None => return Err(Error::Parse),
            Some(a) => a,
        };
        let name = match get_text(&a, NFTA_CHAIN_NAME) {
            Err(e) => return Err(e),
            Ok(None) => return Err(Error::Parse),
            Ok(Some(s)) => s,
        };
        let policy = match decode_policy(&a) {
            Err(e) => return Err(e),
            Ok(p) => p,
        };
        let cnt = match decode_counters(&a) {
            Err(e) => return Err(e),
            Ok(c) => c,
        };
        let hook = match decode_hook(&a) {
            Err(e) => return Err(e),
            Ok(h) => h,
        };
        Ok(Chain { name, rules: Vec::new(), hook, policy, bytes: cnt.0, packets: cnt.1 })
    }
}

impl Rule {
    /// Decodes one GET-RULE response message. The rule's expressions are not
    /// decoded, so it holds none.
    pub fn decode(m: &Message) -> (r: Result<Rule, Error>)
        ensures
            rule_ok(m.body@) ==> (r matches Ok(x) && x.expressions@.len() == 0),
            !rule_ok(m.body@) ==> (r matches Err(e) && e == Error::Parse),
    {
        match message_attrs(m) {
            None => Err(Error::Parse),
            Some(_) => Ok(Rule { expressions: Vec::new() }),
        }
    }
}

/// A chain decoded from a response without a hook attribute has no hook, and
/// one decoded from a response without a policy attribute has the policy
/// Accept.
pub proof fn chain_defaults(body: Seq<u8>)
    requires
        chain_of(body) is Ok,
    ensures
        body_attrs(body) matches Some(a) && find_attr(a, NFTA_CHAIN_HOOK) is None ==> chain_of(body)->Ok_0.hook is None,
        body_attrs(body) matches Some(a) && find_attr(a, NFTA_CHAIN_POLICY) is None ==> chain_of(body)->Ok_0.policy == Policy::Accept,
{
}

} // verus!
