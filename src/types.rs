use vstd::prelude::*;

verus! {

/// The failure kinds of a load.
#[derive(Debug, Clone, Copy, PartialEq, Eq, Structural)]
pub enum Error {
    /// The socket could not be created or bound; holds the OS error number.
    Connect(i32),
    /// A send or receive failed, or the kernel answered with an error; holds
    /// the OS error number.
    Transport(i32),
    /// A message does not have the shape of the expected kind.
    Parse,
    /// An attribute's value is outside its closed set of values, or a string
    /// attribute is not valid UTF-8.
    Decode,
}

/// Address family of a table. The wire codes are fixed by the kernel.
#[derive(Debug, Clone, Copy, PartialEq, Eq, Structural)]
pub enum Family {
    Inet,
    Ipv4,
    Ipv6,
}

/// The wire code of a family.
pub open spec fn family_code(f: Family) -> u8 {
    match f {
        Family::Inet => 1,
        Family::Ipv4 => 2,
        Family::Ipv6 => 10,
    }
}

/// The family with wire code `v`, if there is one.
pub open spec fn family_of_code(v: u8) -> Option<Family> {
    if v == 1 {
        Some(Family::Inet)
    } else if v == 2 {
        Some(Family::Ipv4)
    } else if v == 10 {
        Some(Family::Ipv6)
    } else {
        None
    }
}

impl Family {
    pub fn to_wire(self) -> (r: u8)
        ensures
            r == family_code(self),
    {
        match self {
            Family::Inet => 1,
            Family::Ipv4 => 2,
            Family::Ipv6 => 10,
        }
    }

    pub fn from_wire(v: u8) -> (r: Result<Family, Error>)
        ensures
            family_of_code(v) matches Some(f) ==> r == Ok::<Family, Error>(f),
            family_of_code(v) is None ==> r == Err::<Family, Error>(Error::Decode),
    {
        if v == 1 {
            Ok(Family::Inet)
        } else if v == 2 {
            Ok(Family::Ipv4)
        } else if v == 10 {
            Ok(Family::Ipv6)
        } else {
            Err(Error::Decode)
        }
    }
}

/// Encoding a family and decoding the code gives the family back; the only
/// codes that decode are 1, 2 and 10, and each decodes to the family that
/// encodes to it.
pub proof fn family_round_trip(f: Family, v: u8)
    ensures
        family_of_code(family_code(f)) == Some(f),
        family_of_code(v) matches Some(g) ==> family_code(g) == v,
        family_of_code(v) is Some <==> (v == 1 || v == 2 || v == 10),
{
}

/// Default verdict of a base chain. The wire codes are fixed by the kernel.
#[derive(Debug, Clone, Copy, PartialEq, Eq, Structural)]
pub enum Policy {
    Drop,
    Accept,
}

/// The wire code of a policy.
pub open spec fn policy_code(p: Policy) -> u32 {
    match p {
        Policy::Drop => 0,
        Policy::Accept => 1,
    }
}

/// The policy with wire code `v`, if there is one.
pub open spec fn policy_of_code(v: u32) -> Option<Policy> {
    if v == 0 {
        Some(Policy::Drop)
    } else if v == 1 {
        Some(Policy::Accept)
    } else {
        None
    }
}

impl Policy {
    pub fn to_wire(self) -> (r: u32)
        ensures
            r == policy_code(self),
    {
        match self {
            Policy::Drop => 0,
            Policy::Accept => 1,
        }
    }

    pub fn from_wire(v: u32) -> (r: Result<Policy, Error>)
        ensures
            policy_of_code(v) matches Some(p) ==> r == Ok::<Policy, Error>(p),
            policy_of_code(v) is None ==> r == Err::<Policy, Error>(Error::Decode),
    {
        if v == 0 {
            Ok(Policy::Drop)
        } else if v == 1 {
            Ok(Policy::Accept)
        } else {
            Err(Error::Decode)
        }
    }
}

impl Default for Policy {
    fn default() -> (r: Policy)
        ensures
            r == Policy::Accept,
    {
        Policy::Accept
    }
}

/// Encoding a policy and decoding the code gives the policy back; the only
/// codes that decode are 0 and 1.
pub proof fn policy_round_trip(p: Policy, v: u32)
    ensures
        policy_of_code(policy_code(p)) == Some(p),
        policy_of_code(v) matches Some(q) ==> policy_code(q) == v,
        policy_of_code(v) is Some <==> (v == 0 || v == 1),
{
}

/// Chain type of a base chain.
#[derive(Debug, Clone, Copy, PartialEq, Eq, Structural)]
pub enum HookType {
    Filter,
}

/// The kernel hook point a base chain is attached to.
#[derive(Debug, Clone, Copy, PartialEq, Eq, Structural)]
pub enum HookType2 {
    Input,
    Output,
    Forward,
}

/// Where and in which order a base chain is evaluated.
#[derive(Debug, Clone, Copy, PartialEq, Eq, Structural)]
pub struct Hook {
    pub type_: HookType,
    pub type2: HookType2,
    pub priority: i64,
}

/// One instruction of a rule. Rule bodies are not decoded: the loader never
/// produces an expression, and the single variant only keeps the type open for
/// a future decoder.
#[derive(Debug)]
pub enum Expression {
    Opaque,
}

/// A rule: its expressions in evaluation order.
#[derive(Debug)]
pub struct Rule {
    pub expressions: Vec<Expression>,
}

/// A chain with its rules in kernel order.
#[derive(Debug)]
pub struct Chain {
    pub name: String,
    pub rules: Vec<Rule>,
    pub hook: Option<Hook>,
    pub policy: Policy,
    pub bytes: u64,
    pub packets: u64,
}

impl Default for Chain {
    fn default() -> (r: Chain)
        ensures
            r.name@.len() == 0,
            r.rules@.len() == 0,
            r.hook is None,
            r.policy == Policy::Accept,
            r.bytes == 0,
            r.packets == 0,
    {
        Chain {
            name: String::new(),
            rules: Vec::new(),
            hook: None,
            policy: Policy::Accept,
            bytes: 0,
            packets: 0,
        }
    }
}

/// A literal value held by a set. Integers and bitmasks are limited to 64 bits.
#[derive(Debug, Clone, PartialEq, Eq, Hash)]
pub enum Item {
    Ipv4([u8; 4]),
    Ipv6([u8; 16]),
    String(String),
    Integer(u64),
    Bitmask(u64),
    Mac(String),
}

/// A set of literal values, unique by value.
pub type ItemSet = std::collections::HashSet<Item>;

/// A table with its chains in kernel order.
#[derive(Debug)]
pub struct Table {
    pub name: String,
    pub family: Family,
    pub chains: Vec<Chain>,
    pub sets: Vec<ItemSet>,
}

} // verus!
