use rftables::session::{absorb_chains, chain_request, tables_request};
use rftables::wire::{encode_request, parse_attrs, Attr, NLM_F_DUMP};
use rftables::{
    split_messages, Chain, Error, Family, Flow, Hook, HookType, HookType2, Loader, Message, Policy,
    Rule, Stage, Table,
};

const NEWTABLE: u16 = (10 << 8) | 0;
const NEWCHAIN: u16 = (10 << 8) | 3;
const NEWRULE: u16 = (10 << 8) | 6;

fn attr(kind: u16, payload: &[u8]) -> Vec<u8> {
    let mut v = Vec::new();
    v.extend_from_slice(&((payload.len() + 4) as u16).to_le_bytes());
    v.extend_from_slice(&kind.to_le_bytes());
    v.extend_from_slice(payload);
    while v.len() % 4 != 0 {
        v.push(0);
    }
    v
}

fn str_attr(kind: u16, s: &str) -> Vec<u8> {
    let mut p = s.as_bytes().to_vec();
    p.push(0);
    attr(kind, &p)
}

fn msg(kind: u16, flags: u16, port: u32, family: u8, attrs: &[Vec<u8>]) -> Vec<u8> {
    let mut body = vec![family, 0, 0, 0];
    for a in attrs {
        body.extend_from_slice(a);
    }
    let mut v = Vec::new();
    v.extend_from_slice(&((16 + body.len()) as u32).to_le_bytes());
    v.extend_from_slice(&kind.to_le_bytes());
    v.extend_from_slice(&flags.to_le_bytes());
    v.extend_from_slice(&0u32.to_le_bytes());
    v.extend_from_slice(&port.to_le_bytes());
    v.extend_from_slice(&body);
    v
}

fn done() -> Vec<u8> {
    let mut v = Vec::new();
    v.extend_from_slice(&20u32.to_le_bytes());
    v.extend_from_slice(&3u16.to_le_bytes());
    v.extend_from_slice(&2u16.to_le_bytes());
    v.extend_from_slice(&0u32.to_le_bytes());
    v.extend_from_slice(&0u32.to_le_bytes());
    v.extend_from_slice(&0u32.to_le_bytes());
    v
}

fn error_msg(code: i32) -> Vec<u8> {
    let mut v = Vec::new();
    v.extend_from_slice(&36u32.to_le_bytes());
    v.extend_from_slice(&2u16.to_le_bytes());
    v.extend_from_slice(&0u16.to_le_bytes());
    v.extend_from_slice(&0u32.to_le_bytes());
    v.extend_from_slice(&0u32.to_le_bytes());
    v.extend_from_slice(&code.to_le_bytes());
    v.extend_from_slice(&[0u8; 16]);
    v
}

fn table_msg(name: &str, family: u8) -> Vec<u8> {
    msg(NEWTABLE, 2, 0, family, &[str_attr(1, name)])
}

fn chain_msg(name: &str, hook: Option<(u32, u32)>, policy: Option<u32>, counters: Option<(u64, u64)>) -> Vec<u8> {
    let mut attrs = vec![str_attr(1, "filter"), str_attr(3, name)];
    if let Some((num, prio)) = hook {
        let mut nested = attr(1, &num.to_be_bytes());
        nested.extend_from_slice(&attr(2, &prio.to_be_bytes()));
        attrs.push(attr(4, &nested));
    }
    if let Some(p) = policy {
        attrs.push(attr(5, &p.to_be_bytes()));
    }
    if hook.is_some() {
        attrs.push(str_attr(7, "filter"));
    }
    if let Some((packets, bytes)) = counters {
        let mut nested = attr(1, &bytes.to_be_bytes());
        nested.extend_from_slice(&attr(2, &packets.to_be_bytes()));
        attrs.push(attr(8, &nested));
    }
    msg(NEWCHAIN, 2, 0, 1, &attrs)
}

fn rule_msg() -> Vec<u8> {
    msg(NEWRULE, 2, 0, 1, &[str_attr(1, "filter"), str_attr(2, "input")])
}

fn cat(parts: &[Vec<u8>]) -> Vec<u8> {
    parts.concat()
}

/// Runs a loader against canned replies: one list of datagrams per exchange,
/// in order. Returns the loader and the requests it sent.
fn drive(mut l: Loader, replies: Vec<Vec<Vec<u8>>>) -> (Result<Loader, Error>, Vec<Vec<u8>>) {
    let mut sent = Vec::new();
    let mut replies = replies.into_iter();
    while !l.is_done() {
        let req = match l.request() {
            Ok(r) => r,
            Err(e) => return (Err(e), sent),
        };
        sent.push(req);
        let datagrams = replies.next().unwrap_or_default();
        for d in datagrams {
            match l.absorb(&d, 0) {
                Ok(Flow::Continue) => {}
                Ok(Flow::Stop) => break,
                Err(e) => return (Err(e), sent),
            }
        }
        if let Err(e) = l.finish() {
            return (Err(e), sent);
        }
    }
    (Ok(l), sent)
}

fn decode_one_chain(d: &[u8]) -> Result<Chain, Error> {
    let msgs = split_messages(d);
    Chain::decode(&msgs[0])
}

#[test]
fn family_wire_codes_round_trip() {
    for f in [Family::Inet, Family::Ipv4, Family::Ipv6] {
        assert_eq!(Family::from_wire(f.to_wire()), Ok(f));
    }
    assert_eq!(Family::Inet.to_wire(), 1);
    assert_eq!(Family::Ipv4.to_wire(), 2);
    assert_eq!(Family::Ipv6.to_wire(), 10);
    for v in 0..=255u8 {
        let r = Family::from_wire(v);
        if v == 1 || v == 2 || v == 10 {
            assert_eq!(r.unwrap().to_wire(), v);
        } else {
            assert_eq!(r, Err(Error::Decode));
        }
    }
}

#[test]
fn policy_wire_codes_round_trip() {
    assert_eq!(Policy::from_wire(0), Ok(Policy::Drop));
    assert_eq!(Policy::from_wire(1), Ok(Policy::Accept));
    assert_eq!(Policy::Drop.to_wire(), 0);
    assert_eq!(Policy::Accept.to_wire(), 1);
    assert_eq!(Policy::from_wire(2), Err(Error::Decode));
    assert_eq!(Policy::from_wire(u32::MAX), Err(Error::Decode));
    assert_eq!(Policy::default(), Policy::Accept);
}

#[test]
fn chain_without_hook_or_policy_gets_defaults() {
    let c = decode_one_chain(&chain_msg("forward", None, None, None)).unwrap();
    assert_eq!(c.name, "forward");
    assert!(c.hook.is_none());
    assert_eq!(c.policy, Policy::Accept);
    assert_eq!(c.packets, 0);
    assert_eq!(c.bytes, 0);
    assert!(c.rules.is_empty());
    let d = Chain::default();
    assert_eq!(d.policy, Policy::Accept);
    assert!(d.hook.is_none());
}

#[test]
fn chain_decodes_every_field() {
    let c = decode_one_chain(&chain_msg("output", Some((3, (-150i32) as u32)), Some(0), Some((7, 512)))).unwrap();
    assert_eq!(c.name, "output");
    assert_eq!(c.hook, Some(Hook { type_: HookType::Filter, type2: HookType2::Output, priority: -150 }));
    assert_eq!(c.policy, Policy::Drop);
    assert_eq!(c.packets, 7);
    assert_eq!(c.bytes, 512);
}

#[test]
fn chain_with_unknown_policy_is_a_decode_error() {
    assert_eq!(decode_one_chain(&chain_msg("input", None, Some(2), None)).unwrap_err(), Error::Decode);
}

#[test]
fn chain_with_unknown_hook_point_is_a_decode_error() {
    assert_eq!(decode_one_chain(&chain_msg("pre", Some((0, 0)), Some(1), None)).unwrap_err(), Error::Decode);
}

#[test]
fn chain_without_name_is_a_parse_error() {
    let m = msg(NEWCHAIN, 2, 0, 1, &[str_attr(1, "filter")]);
    assert_eq!(decode_one_chain(&m).unwrap_err(), Error::Parse);
}

#[test]
fn truncated_attribute_is_a_parse_error() {
    let mut m = chain_msg("input", None, None, None);
    // Claim a longer name attribute than the message holds.
    let len = m.len();
    m[16 + 4 + 12] = 0xff;
    let msgs = split_messages(&m);
    assert_eq!(msgs.len(), 1);
    assert_eq!(msgs[0].body.len(), len - 16);
    assert_eq!(Chain::decode(&msgs[0]).unwrap_err(), Error::Parse);
}

#[test]
fn name_that_is_not_utf8_is_a_decode_error() {
    let m = msg(NEWTABLE, 2, 0, 1, &[attr(1, &[0xff, 0xfe, 0])]);
    let msgs = split_messages(&m);
    assert_eq!(Table::decode(&msgs[0]).unwrap_err(), Error::Decode);
}

#[test]
fn table_with_unknown_family_is_a_decode_error() {
    let msgs = split_messages(&table_msg("filter", 3));
    assert_eq!(Table::decode(&msgs[0]).unwrap_err(), Error::Decode);
}

#[test]
fn table_decodes_name_and_family() {
    let msgs = split_messages(&table_msg("nat", 10));
    let t = Table::decode(&msgs[0]).unwrap();
    assert_eq!(t.name, "nat");
    assert_eq!(t.family, Family::Ipv6);
    assert!(t.chains.is_empty());
    assert!(t.sets.is_empty());
}

#[test]
fn string_attribute_stops_at_zero_byte() {
    let m = msg(NEWTABLE, 2, 0, 2, &[attr(1, b"raw\0junk")]);
    let t = Table::decode(&split_messages(&m)[0]).unwrap();
    assert_eq!(t.name, "raw");
}

#[test]
fn rule_decodes_without_expressions() {
    let r = Rule::decode(&split_messages(&rule_msg())[0]).unwrap();
    assert!(r.expressions.is_empty());
}

#[test]
fn tables_request_bytes() {
    let r = tables_request();
    assert_eq!(
        r,
        vec![20, 0, 0, 0, 1, 10, 0x01, 0x03, 0, 0, 0, 0, 0, 0, 0, 0, 0, 0, 0, 0]
    );
}

#[test]
fn chain_request_bytes_select_table_and_chain() {
    let r = chain_request(Family::Inet, "filter", "input");
    let mut expected = vec![0u8; 0];
    expected.extend_from_slice(&44u32.to_le_bytes());
    expected.extend_from_slice(&[4, 10]);
    expected.extend_from_slice(&[0x05, 0]);
    expected.extend_from_slice(&[0; 8]);
    expected.extend_from_slice(&[1, 0, 0, 0]);
    expected.extend_from_slice(&[11, 0, 1, 0]);
    expected.extend_from_slice(b"filter\0\0");
    expected.extend_from_slice(&[10, 0, 3, 0]);
    expected.extend_from_slice(b"input\0\0\0");
    assert_eq!(r, expected);
}

#[test]
fn encoded_attributes_parse_back() {
    let a = vec![Attr { kind: 3, value: vec![1, 2, 3] }, Attr { kind: 9, value: vec![] }];
    let r = encode_request(4, 2, NLM_F_DUMP, 0, &a);
    let back = parse_attrs(&r, 20).unwrap();
    assert_eq!(back.len(), 2);
    assert_eq!(back[0].kind, 3);
    assert_eq!(back[0].value, vec![1, 2, 3]);
    assert_eq!(back[1].kind, 9);
    assert!(back[1].value.is_empty());
}

#[test]
fn datagram_splits_into_messages() {
    let d = cat(&[table_msg("a", 1), table_msg("bb", 2), done()]);
    let msgs: Vec<Message> = split_messages(&d);
    assert_eq!(msgs.len(), 3);
    assert_eq!(msgs[0].kind, NEWTABLE);
    assert_eq!(msgs[2].kind, 3);
}

#[test]
fn chain_dump_keeps_kernel_order() {
    let d = cat(&[
        chain_msg("zeta", None, None, None),
        chain_msg("alpha", None, None, None),
        chain_msg("mid", None, None, None),
        done(),
    ]);
    let mut out = Vec::new();
    assert_eq!(absorb_chains(&mut out, &d, 0, false), Ok(Flow::Stop));
    let names: Vec<&str> = out.iter().map(|c| c.name.as_str()).collect();
    assert_eq!(names, vec!["zeta", "alpha", "mid"]);
    assert_eq!(split_messages(&d).len(), 4);
}

#[test]
fn chain_dump_without_end_asks_for_more() {
    let d = cat(&[chain_msg("a", None, None, None)]);
    let mut out = Vec::new();
    assert_eq!(absorb_chains(&mut out, &d, 0, false), Ok(Flow::Continue));
    assert_eq!(out.len(), 1);
}

#[test]
fn one_chain_query_stops_after_first_record() {
    let d = cat(&[chain_msg("input", None, None, None), chain_msg("other", None, None, None)]);
    let mut out = Vec::new();
    assert_eq!(absorb_chains(&mut out, &d, 0, true), Ok(Flow::Stop));
    assert_eq!(out.len(), 1);
    assert_eq!(out[0].name, "input");

    // Through the loader: the second datagram is never handed over.
    let l = Loader::one_chain(Family::Inet, "filter", "input");
    let (r, sent) = drive(
        l,
        vec![
            vec![chain_msg("input", None, None, None), chain_msg("late", None, None, None)],
            vec![done()],
        ],
    );
    let l = r.unwrap();
    assert_eq!(sent.len(), 2);
    assert_eq!(l.tables[0].chains.len(), 1);
}

#[test]
fn message_for_another_port_is_a_transport_error() {
    let d = msg(NEWCHAIN, 2, 77, 1, &[str_attr(3, "input")]);
    let mut out = Vec::new();
    assert_eq!(absorb_chains(&mut out, &d, 5, false), Err(Error::Transport(3)));
    assert_eq!(absorb_chains(&mut out, &d, 77, false), Ok(Flow::Continue));
}

#[test]
fn interrupted_dump_is_a_transport_error() {
    let d = msg(NEWCHAIN, 0x12, 0, 1, &[str_attr(3, "input")]);
    let mut out = Vec::new();
    assert_eq!(absorb_chains(&mut out, &d, 0, false), Err(Error::Transport(4)));
}

#[test]
fn kernel_error_reply_carries_errno() {
    let mut out = Vec::new();
    assert_eq!(absorb_chains(&mut out, &error_msg(-2), 0, false), Err(Error::Transport(2)));
    assert_eq!(absorb_chains(&mut out, &error_msg(0), 0, false), Ok(Flow::Stop));
    assert!(out.is_empty());
}

#[test]
fn decode_error_in_dump_fails_the_datagram() {
    let d = cat(&[chain_msg("a", None, None, None), chain_msg("b", None, Some(9), None), done()]);
    let mut out = Vec::new();
    assert_eq!(absorb_chains(&mut out, &d, 0, false), Err(Error::Decode));
}

#[test]
fn load_one_chain_input() {
    let reply = chain_msg("input", Some((1, 0)), Some(1), Some((120, 9600)));
    let l = Loader::one_chain(Family::Inet, "filter", "input");
    assert_eq!(l.request().unwrap(), chain_request(Family::Inet, "filter", "input"));
    let mut l = l;
    assert_eq!(l.absorb(&reply, 0), Ok(Flow::Stop));
    {
        let c = &l.tables[0].chains[0];
        assert_eq!(c.name, "input");
        assert_eq!(c.policy, Policy::Accept);
        assert_eq!(c.packets, 120);
        assert_eq!(c.bytes, 9600);
        assert_eq!(c.hook, Some(Hook { type_: HookType::Filter, type2: HookType2::Input, priority: 0 }));
        assert!(c.rules.is_empty());
    }
    assert_eq!(l.finish(), Ok(()));
    assert_eq!(l.stage, Stage::Rules(0, 0));
    assert_eq!(l.absorb(&cat(&[rule_msg(), rule_msg(), done()]), 0), Ok(Flow::Stop));
    assert_eq!(l.finish(), Ok(()));
    assert!(l.is_done());
    let c = l.into_chain();
    assert_eq!(c.name, "input");
    assert_eq!(c.rules.len(), 2);
}

#[test]
fn one_chain_without_reply_fails() {
    let (r, _) = drive(Loader::one_chain(Family::Inet, "filter", "input"), vec![vec![error_msg(0)]]);
    assert_eq!(r.err(), Some(Error::Parse));
}

#[test]
fn load_all_tables_two_tables() {
    let tables = cat(&[table_msg("filter", 1), table_msg("nat", 2), done()]);
    let filter_chains = cat(&[chain_msg("input", Some((1, 0)), Some(1), Some((1, 2))), done()]);
    let input_rules = cat(&[rule_msg(), done()]);
    let nat_chains = cat(&[chain_msg("post", None, None, None), done()]);
    let post_rules = vec![done()];
    let (r, sent) = drive(
        Loader::all_tables(),
        vec![vec![tables], vec![filter_chains], vec![input_rules], vec![nat_chains], post_rules],
    );
    let tables = r.unwrap().into_tables();
    assert_eq!(tables.len(), 2);
    assert_eq!(tables[0].name, "filter");
    assert_eq!(tables[0].family, Family::Inet);
    assert_eq!(tables[1].name, "nat");
    assert_eq!(tables[1].family, Family::Ipv4);
    assert_eq!(tables[0].chains.len(), 1);
    assert_eq!(tables[0].chains[0].rules.len(), 1);
    assert_eq!(tables[1].chains.len(), 1);
    assert_eq!(tables[1].chains[0].name, "post");
    // Exactly one chain dump per table.
    let chain_dumps: Vec<&Vec<u8>> = sent.iter().filter(|r| r[4] == 4 && r[5] == 10).collect();
    assert_eq!(chain_dumps.len(), 2);
    assert_eq!(sent.len(), 5);
    assert_eq!(sent[1], rftables::session::chains_request(Family::Inet, "filter"));
    assert_eq!(sent[3], rftables::session::chains_request(Family::Ipv4, "nat"));
}

#[test]
fn load_all_tables_fails_when_nested_dump_fails() {
    let tables = cat(&[table_msg("filter", 1), table_msg("nat", 2), done()]);
    let filter_chains = cat(&[done()]);
    let (r, _) = drive(Loader::all_tables(), vec![vec![tables], vec![filter_chains], vec![error_msg(-1)]]);
    assert_eq!(r.err(), Some(Error::Transport(1)));
}

#[test]
fn load_chains_of_table_and_rules_of_chain() {
    let chains = cat(&[chain_msg("b", None, None, None), chain_msg("a", None, None, None), done()]);
    let (r, sent) = drive(
        Loader::chains_of(Family::Inet, "filter"),
        vec![vec![chains], vec![cat(&[rule_msg(), done()])], vec![done()]],
    );
    let chains = r.unwrap().into_chains();
    assert_eq!(chains.len(), 2);
    assert_eq!(chains[0].name, "b");
    assert_eq!(chains[0].rules.len(), 1);
    assert_eq!(chains[1].name, "a");
    assert!(chains[1].rules.is_empty());
    assert_eq!(sent.len(), 3);

    let (r, _) = drive(Loader::rules_of(Family::Ipv6, "t", "c"), vec![vec![cat(&[rule_msg(), rule_msg(), rule_msg(), done()])]]);
    assert_eq!(r.unwrap().into_rules().len(), 3);
}

#[test]
fn empty_ruleset_loads_no_tables() {
    let (r, sent) = drive(Loader::all_tables(), vec![vec![done()]]);
    assert!(r.unwrap().into_tables().is_empty());
    assert_eq!(sent.len(), 1);
}

#[test]
fn control_messages_are_skipped() {
    let mut noop = done();
    noop[4] = 1;
    let d = cat(&[noop, chain_msg("x", None, None, None)]);
    let mut out = Vec::new();
    assert_eq!(absorb_chains(&mut out, &d, 0, false), Ok(Flow::Continue));
    assert_eq!(out.len(), 1);
}
