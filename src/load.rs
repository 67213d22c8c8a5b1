//! The order in which a load queries the kernel, and where each answer goes.
//!
//! A `Loader` holds the hierarchy built so far and the exchange in progress.
//! Its driver sends `request()` on a fresh socket, hands every received
//! datagram to `absorb` until it answers `Flow::Stop` or the kernel sends an
//! empty datagram, then calls `finish` and goes on until `is_done()`. Any
//! error ends the whole load.
use vstd::prelude::*;
use vstd::string::StringExecFns;

use crate::decode::{chain_matches, table_matches, ChainHead};
use crate::session::{
    absorb_chains, absorb_rules, absorb_tables, chain_outcome, chain_request, chain_request_bytes,
    chains_request, chains_request_bytes, fits_attr, name_fits, rule_outcome, rules_request,
    rules_request_bytes, table_outcome, tables_request, tables_request_bytes, Flow,
};
use crate::types::{Chain, Error, Family, Rule, Table};

verus! {

/// The exchange a loader is in.
#[derive(Debug, Clone, Copy, PartialEq, Eq, Structural)]
pub enum Stage {
    /// Dumping every table.
    Tables,
    /// Dumping the chains of table `t`.
    Chains(usize),
    /// Asking for the one chain named by the loader's target.
    OneChain,
    /// Dumping the rules of chain `c` of table `t`.
    Rules(usize, usize),
    /// Nothing is left to ask.
    Done,
}

/// The stage after the chains of table `t` and all their rules.
pub open spec fn after_table(tables: Seq<Table>, t: int) -> Stage {
    if t + 1 < tables.len() {
        Stage::Chains((t + 1) as usize)
    } else {
        Stage::Done
    }
}

/// The stage that follows `s` once its exchange has completed: tables,
/// then for each table in order its chains, then for each of those chains in
/// order its rules.
pub open spec fn next_stage(tables: Seq<Table>, s: Stage) -> Stage {
    match s {
        Stage::Tables => if tables.len() > 0 {
            Stage::Chains(0)
        } else {
            Stage::Done
        },
        Stage::Chains(t) => if tables[t as int].chains@.len() > 0 {
            Stage::Rules(t, 0)
        } else {
            after_table(tables, t as int)
        },
        Stage::OneChain => Stage::Rules(0, 0),
        Stage::Rules(t, c) => if c + 1 < tables[t as int].chains@.len() {
            Stage::Rules(t, (c + 1) as usize)
        } else {
            after_table(tables, t as int)
        },
        Stage::Done => Stage::Done,
    }
}

/// A load asks for the chains of each table once, in table order: the chain
/// dump of table 0 comes only right after the table dump, and the chain dump
/// of table `t + 1` only right after the last exchange for table `t`. Every
/// other step stays within one table or ends the load.
pub proof fn chains_asked_once_per_table(tables: Seq<Table>, s: Stage)
    requires
        tables.len() <= usize::MAX,
        forall|i: int| 0 <= i < tables.len() ==> #[trigger] tables[i].chains@.len() <= usize::MAX,
        s matches Stage::Chains(t) ==> t < tables.len(),
        s matches Stage::Rules(t, c) ==> t < tables.len(),
    ensures
        next_stage(tables, s) matches Stage::Chains(t2) ==> match s {
            Stage::Tables => t2 == 0,
            Stage::Chains(t) => t2 == t + 1 && tables[t as int].chains@.len() == 0,
            Stage::Rules(t, c) => t2 == t + 1 && c + 1 >= tables[t as int].chains@.len(),
            _ => false,
        },
        next_stage(tables, s) matches Stage::Rules(t2, c2) ==> match s {
            Stage::Chains(t) => t2 == t && c2 == 0,
            Stage::OneChain => t2 == 0 && c2 == 0,
            Stage::Rules(t, c) => t2 == t && c2 == c + 1,
            _ => false,
        },
        next_stage(tables, s) == Stage::Tables ==> false,
        next_stage(tables, s) == Stage::OneChain ==> false,
{
}

/// `new` is `old` followed by a table for each of `hs`.
pub open spec fn tables_appended(old: Seq<Table>, new: Seq<Table>, hs: Seq<(Seq<char>, Family)>) -> bool {
    &&& new.len() == old.len() + hs.len()
    &&& forall|i: int| 0 <= i < old.len() ==> #[trigger] new[i] == old[i]
    &&& forall|j: int| 0 <= j < hs.len() ==> table_matches(#[trigger] new[old.len() + j], hs[j])
}

/// `new` is `old` followed by a chain for each of `hs`.
pub open spec fn chains_appended(old: Seq<Chain>, new: Seq<Chain>, hs: Seq<ChainHead>) -> bool {
    &&& new.len() == old.len() + hs.len()
    &&& forall|i: int| 0 <= i < old.len() ==> #[trigger] new[i] == old[i]
    &&& forall|j: int| 0 <= j < hs.len() ==> chain_matches(#[trigger] new[old.len() + j], hs[j])
}

/// `new` is `old` followed by `n` rules without expressions.
pub open spec fn rules_appended(old: Seq<Rule>, new: Seq<Rule>, n: int) -> bool {
    &&& new.len() == old.len() + n
    &&& forall|i: int| 0 <= i < old.len() ==> #[trigger] new[i] == old[i]
    &&& forall|j: int| 0 <= j < n ==> (#[trigger] new[old.len() + j]).expressions@.len() == 0
}

/// `a` and `b` differ at most in their chains.
pub open spec fn same_but_chains(a: Table, b: Table) -> bool {
    a.name == b.name && a.family == b.family && a.sets == b.sets
}

/// `a` and `b` differ at most in their rules.
pub open spec fn same_but_rules(a: Chain, b: Chain) -> bool {
    a.name == b.name && a.hook == b.hook && a.policy == b.policy && a.bytes == b.bytes
        && a.packets == b.packets
}

/// A chain exchange's datagram went to the chains of table `t` and nowhere
/// else.
pub open spec fn chain_step(
    old: Seq<Table>,
    new: Seq<Table>,
    t: int,
    o: Result<(Seq<ChainHead>, Flow), Error>,
    r: Result<Flow, Error>,
) -> bool {
    &&& new.len() == old.len()
    &&& forall|i: int| 0 <= i < old.len() && i != t ==> #[trigger] new[i] == old[i]
    &&& same_but_chains(old[t], new[t])
    &&& match o {
        Err(e) => r == Err::<Flow, Error>(e),
        Ok((hs, flow)) => r == Ok::<Flow, Error>(flow) && chains_appended(old[t].chains@, new[t].chains@, hs),
    }
}

/// A rule exchange's datagram went to the rules of chain `c` of table `t` and
/// nowhere else.
pub open spec fn rule_step(
    old: Seq<Table>,
    new: Seq<Table>,
    t: int,
    c: int,
    o: Result<(Seq<()>, Flow), Error>,
    r: Result<Flow, Error>,
) -> bool {
    &&& new.len() == old.len()
    &&& forall|i: int| 0 <= i < old.len() && i != t ==> #[trigger] new[i] == old[i]
    &&& same_but_chains(old[t], new[t])
    &&& new[t].chains@.len() == old[t].chains@.len()
    &&& forall|i: int| 0 <= i < old[t].chains@.len() && i != c ==> #[trigger] new[t].chains@[i] == old[t].chains@[i]
    &&& same_but_rules(old[t].chains@[c], new[t].chains@[c])
    &&& match o {
        Err(e) => r == Err::<Flow, Error>(e),
        Ok((hs, flow)) => r == Ok::<Flow, Error>(flow) && rules_appended(
            old[t].chains@[c].rules@,
            new[t].chains@[c].rules@,
            hs.len() as int,
        ),
    }
}

fn absorb_into_table(tables: &mut Vec<Table>, t: usize, d: &[u8], port_id: u32, single: bool) -> (r: Result<Flow, Error>)
    requires
        t < old(tables)@.len(),
    ensures
        chain_step(old(tables)@, final(tables)@, t as int, chain_outcome(d@, port_id, single), r),
{
    let mut tb = tables.remove(t);
    let ghost before = tb;
    let r = absorb_chains(&mut tb.chains, d, port_id, single);
    let ghost after = tb;
    tables.insert(t, tb);
    assert(final(tables)@ =~= old(tables)@.update(t as int, after));
    assert(same_but_chains(before, after));
    r
}

fn absorb_into_chain(tables: &mut Vec<Table>, t: usize, c: usize, d: &[u8], port_id: u32) -> (r: Result<Flow, Error>)
    requires
        t < old(tables)@.len(),
        c < old(tables)@[t as int].chains@.len(),
    ensures
        rule_step(old(tables)@, final(tables)@, t as int, c as int, rule_outcome(d@, port_id), r),
{
    let mut tb = tables.remove(t);
    let ghost tb0 = tb;
    let mut ch = tb.chains.remove(c);
    let ghost ch0 = ch;
    let r = absorb_rules(&mut ch.rules, d, port_id);
    let ghost ch1 = ch;
    tb.chains.insert(c, ch);
    assert(tb.chains@ =~= tb0.chains@.update(c as int, ch1));
    let ghost tb1 = tb;
    tables.insert(t, tb);
    assert(final(tables)@ =~= old(tables)@.update(t as int, tb1));
    assert(same_but_rules(ch0, ch1));
    r
}

/// The state of a load.
pub struct Loader {
    /// The hierarchy built so far.
    pub tables: Vec<Table>,
    /// The exchange in progress.
    pub stage: Stage,
    /// The chain asked for in `Stage::OneChain`.
    pub target: String,
}

impl Loader {
    pub open spec fn wf(&self) -> bool {
        match self.stage {
            Stage::Tables => true,
            Stage::Chains(t) => t < self.tables@.len(),
            Stage::OneChain => self.tables@.len() == 1,
            Stage::Rules(t, c) => t < self.tables@.len() && c < self.tables@[t as int].chains@.len(),
            Stage::Done => true,
        }
    }

    /// The request of the current exchange; `None` when a name in it does
    /// not fit an attribute, or when nothing is left to ask.
    pub open spec fn request_of(&self) -> Option<Seq<u8>> {
        match self.stage {
            Stage::Tables => Some(tables_request_bytes()),
            Stage::Chains(t) => {
                let tb = self.tables@[t as int];
                if name_fits(tb.name@) {
                    Some(chains_request_bytes(tb.family, tb.name@))
                } else {
                    None
                }
            },
            Stage::OneChain => {
                let tb = self.tables@[0];
                if name_fits(tb.name@) && name_fits(self.target@) {
                    Some(chain_request_bytes(tb.family, tb.name@, self.target@))
                } else {
                    None
                }
            },
            Stage::Rules(t, c) => {
                let tb = self.tables@[t as int];
                let ch = tb.chains@[c as int];
                if name_fits(tb.name@) && name_fits(ch.name@) {
                    Some(rules_request_bytes(tb.family, tb.name@, ch.name@))
                } else {
                    None
                }
            },
            Stage::Done => None,
        }
    }

    /// A load of every table, with their chains and the chains' rules.
    pub fn all_tables() -> (r: Loader)
        ensures
            r.wf(),
            r.stage == Stage::Tables,
            r.tables@.len() == 0,
    {
        Loader { tables: Vec::new(), stage: Stage::Tables, target: String::new() }
    }

    fn one_table(family: Family, table: &str) -> (r: Table)
        ensures
            r.name@ == table@,
            r.family == family,
            r.chains@.len() == 0,
            r.sets@.len() == 0,
    {
        Table { name: String::from_str(table), family, chains: Vec::new(), sets: Vec::new() }
    }

    /// A load of the chains of one table, with their rules.
    pub fn chains_of(family: Family, table: &str) -> (r: Loader)
        ensures
            r.wf(),
            r.stage == Stage::Chains(0),
            r.tables@.len() == 1,
            r.tables@[0].name@ == table@,
            r.tables@[0].family == family,
            r.tables@[0].chains@.len() == 0,
    {
        let mut tables: Vec<Table> = Vec::new();
        tables.push(Loader::one_table(family, table));
        Loader { tables, stage: Stage::Chains(0), target: String::new() }
    }

    /// A load of one chain of one table, with its rules.
    pub fn one_chain(family: Family, table: &str, name: &str) -> (r: Loader)
        ensures
            r.wf(),
            r.stage == Stage::OneChain,
            r.tables@.len() == 1,
            r.tables@[0].name@ == table@,
            r.tables@[0].family == family,
            r.tables@[0].chains@.len() == 0,
            r.target@ == name@,
    {
        let mut tables: Vec<Table> = Vec::new();
        tables.push(Loader::one_table(family, table));
        Loader { tables, stage: Stage::OneChain, target: String::from_str(name) }
    }

    /// A load of the rules of one chain.
    pub fn rules_of(family: Family, table: &str, chain: &str) -> (r: Loader)
        ensures
            r.wf(),
            r.stage == Stage::Rules(0, 0),
            r.tables@.len() == 1,
            r.tables@[0].name@ == table@,
            r.tables@[0].family == family,
            r.tables@[0].chains@.len() == 1,
            r.tables@[0].chains@[0].name@ == chain@,
            r.tables@[0].chains@[0].rules@.len() == 0,
    {
        let mut t = Loader::one_table(family, table);
        let mut c = Chain::default();
        c.name = String::from_str(chain);
        t.chains.push(c);
        let mut tables: Vec<Table> = Vec::new();
        tables.push(t);
        Loader { tables, stage: Stage::Rules(0, 0), target: String::new() }
    }

    pub fn is_done(&self) -> (r: bool)
        ensures
            r == (self.stage == Stage::Done),
    {
        match self.stage {
            Stage::Done => true,
            _ => false,
        }
    }

    /// The bytes to send for the current exchange.
    pub fn request(&self) -> (r: Result<Vec<u8>, Error>)
        requires
            self.wf(),
            self.stage != Stage::Done,
        ensures
            match self.request_of() {
                Some(b) => r matches Ok(v) && v@ == b,
                None => r matches Err(e) && e == Error::Parse,
            },
    {
        match self.stage {
            Stage::Tables => Ok(tables_request()),
            Stage::Chains(t) => {
                let tb = &self.tables[t];
                if fits_attr(tb.name.as_str()) {
                    Ok(chains_request(tb.family, tb.name.as_str()))
                } else {
                    Err(Error::Parse)
                }
            },
            Stage::OneChain => {
                let tb = &self.tables[0];
                if fits_attr(tb.name.as_str()) && fits_attr(self.target.as_str()) {
                    Ok(chain_request(tb.family, tb.name.as_str(), self.target.as_str()))
                } else {
                    Err(Error::Parse)
                }
            },
            Stage::Rules(t, c) => {
                let tb = &self.tables[t];
                let ch = &tb.chains[c];
                if fits_attr(tb.name.as_str()) && fits_attr(ch.name.as_str()) {
                    Ok(rules_request(tb.family, tb.name.as_str(), ch.name.as_str()))
                } else {
                    Err(Error::Parse)
                }
            },
            Stage::Done => Err(Error::Parse),
        }
    }

    /// Handles one received datagram of the current exchange: its records go
    /// where the stage says, in the order the kernel sent them.
    pub fn absorb(&mut self, d: &[u8], port_id: u32) -> (r: Result<Flow, Error>)
        requires
            old(self).wf(),
            old(self).stage != Stage::Done,
        ensures
            final(self).wf(),
            final(self).stage == old(self).stage,
            final(self).target == old(self).target,
            match old(self).stage {
                Stage::Tables => match table_outcome(d@, port_id) {
                    Err(e) => r == Err::<Flow, Error>(e),
                    Ok((hs, flow)) => r == Ok::<Flow, Error>(flow) && tables_appended(
                        old(self).tables@,
                        final(self).tables@,
                        hs,
                    ),
                },
                Stage::Chains(t) => chain_step(
                    old(self).tables@,
                    final(self).tables@,
                    t as int,
                    chain_outcome(d@, port_id, false),
                    r,
                ),
                Stage::OneChain => chain_step(
                    old(self).tables@,
                    final(self).tables@,
                    0,
                    chain_outcome(d@, port_id, true),
                    r,
                ),
                Stage::Rules(t, c) => rule_step(
                    old(self).tables@,
                    final(self).tables@,
                    t as int,
                    c as int,
                    rule_outcome(d@, port_id),
                    r,
                ),
                Stage::Done => false,
            },
    {
        match self.stage {
            Stage::Tables => absorb_tables(&mut self.tables, d, port_id),
            Stage::Chains(t) => absorb_into_table(&mut self.tables, t, d, port_id, false),
            Stage::OneChain => absorb_into_table(&mut self.tables, 0, d, port_id, true),
            Stage::Rules(t, c) => absorb_into_chain(&mut self.tables, t, c, d, port_id),
            Stage::Done => Err(Error::Parse),
        }
    }

    /// Ends the current exchange and moves to the next one. A one-chain
    /// query that the kernel answered with no chain fails.
    pub fn finish(&mut self) -> (r: Result<(), Error>)
        requires
            old(self).wf(),
            old(self).stage != Stage::Done,
        ensures
            final(self).wf(),
            final(self).tables == old(self).tables,
            final(self).target == old(self).target,
            old(self).stage == Stage::OneChain && old(self).tables@[0].chains@.len() == 0 ==> {
                &&& r == Err::<(), Error>(Error::Parse)
                &&& final(self).stage == old(self).stage
            },
            !(old(self).stage == Stage::OneChain && old(self).tables@[0].chains@.len() == 0) ==> {
                &&& r == Ok::<(), Error>(())
                &&& final(self).stage == next_stage(old(self).tables@, old(self).stage)
            },
    {
        let next = match self.stage {
            Stage::Tables => if self.tables.len() > 0 {
                Stage::Chains(0)
            } else {
                Stage::Done
            },
            Stage::Chains(t) => if self.tables[t].chains.len() > 0 {
                Stage::Rules(t, 0)
            } else if t < self.tables.len() - 1 {
                Stage::Chains(t + 1)
            } else {
                Stage::Done
            },
            Stage::OneChain => if self.tables[0].chains.len() > 0 {
                Stage::Rules(0, 0)
            } else {
                return Err(Error::Parse);
            },
            Stage::Rules(t, c) => if c < self.tables[t].chains.len() - 1 {
                Stage::Rules(t, c + 1)
            } else if t < self.tables.len() - 1 {
                Stage::Chains(t + 1)
            } else {
                Stage::Done
            },
            Stage::Done => Stage::Done,
        };
        self.stage = next;
        Ok(())
    }

    /// The tables loaded.
    pub fn into_tables(self) -> (r: Vec<Table>)
        ensures
            r@ == self.tables@,
    {
        self.tables
    }

    /// The chains of the first table.
    pub fn into_chains(self) -> (r: Vec<Chain>)
        requires
            self.tables@.len() >= 1,
        ensures
            r@ == self.tables@[0].chains@,
    {
        let mut tables = self.tables;
        let t = tables.swap_remove(0);
        t.chains
    }

    /// The first chain of the first table.
    pub fn into_chain(self) -> (r: Chain)
        requires
            self.tables@.len() >= 1,
            self.tables@[0].chains@.len() >= 1,
        ensures
            r == self.tables@[0].chains@[0],
    {
        let mut tables = self.tables;
        let t = tables.swap_remove(0);
        let mut chains = t.chains;
        chains.swap_remove(0)
    }

    /// The rules of the first chain of the first table.
    pub fn into_rules(self) -> (r: Vec<Rule>)
        requires
            self.tables@.len() >= 1,
            self.tables@[0].chains@.len() >= 1,
        ensures
            r@ == self.tables@[0].chains@[0].rules@,
    {
        let c = self.into_chain();
        c.rules
    }
}

} // verus!
