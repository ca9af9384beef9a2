//! Chains, their policies and the lines that declare them.

use crate::error::MalformedKind;
use crate::iptables::counter::{counter_of, parse_counter, Counter};
use crate::iptables::rule::{rule_views, Rule, RuleView};
use crate::text::{after, before, first_index, spells};
use crate::text::{has_char, skip_after, spells_keyword, string_from_chars, take_before, to_chars};
use vstd::prelude::*;

verus! {

/// What a chain does with a packet that none of its rules decides.
#[derive(Clone, Copy, Debug, PartialEq, Eq, Structural)]
pub enum Policy {
    Accept,
    Drop,
}

/// The policy that a token names. Upper and lower case are the same.
pub open spec fn policy_of(token: Seq<char>) -> Option<Policy> {
    if spells(token, "accept"@) {
        Some(Policy::Accept)
    } else if spells(token, "drop"@) {
        Some(Policy::Drop)
    } else {
        None
    }
}

/// The text by which a policy is shown.
pub open spec fn policy_label(policy: Policy) -> Seq<char> {
    match policy {
        Policy::Accept => "ACCEPT"@,
        Policy::Drop => "DROP"@,
    }
}

/// Reads a policy.
pub fn parse_policy(token: &[char]) -> (r: Option<Policy>)
    ensures
        r == policy_of(token@),
{
    let accept = to_chars("accept");
    let drop = to_chars("drop");
    if spells_keyword(token, accept.as_slice()) {
        Some(Policy::Accept)
    } else if spells_keyword(token, drop.as_slice()) {
        Some(Policy::Drop)
    } else {
        None
    }
}

impl Policy {
    /// Reads a policy from its name, in any mix of cases.
    pub fn from_str(s: &str) -> (r: Result<Policy, MalformedKind>)
        ensures
            r == match policy_of(s@) {
                Some(p) => Ok::<Policy, MalformedKind>(p),
                None => Err::<Policy, MalformedKind>(MalformedKind::InvalidPolicy),
            },
    {
        let token = to_chars(s);
        match parse_policy(token.as_slice()) {
            Some(p) => Ok(p),
            None => Err(MalformedKind::InvalidPolicy),
        }
    }

    /// The text by which the policy is shown.
    pub fn as_str(&self) -> (s: &'static str)
        ensures
            s@ == policy_label(*self),
    {
        match self {
            Policy::Accept => "ACCEPT",
            Policy::Drop => "DROP",
        }
    }
}

/// A named list of rules with a default policy. The counter of a chain is read
/// from its declaration and is independent of the counters of its rules.
#[derive(Clone, Debug, PartialEq, Eq)]
pub struct Chain {
    pub name: String,
    pub policy: Policy,
    pub counter: Counter,
    pub rules: Vec<Rule>,
}

/// What a `Chain` holds.
pub struct ChainView {
    pub name: Seq<char>,
    pub policy: Policy,
    pub counter: Counter,
    pub rules: Seq<RuleView>,
}

impl View for Chain {
    type V = ChainView;

    open spec fn view(&self) -> ChainView {
        ChainView {
            name: self.name@,
            policy: self.policy,
            counter: self.counter,
            rules: rule_views(self.rules@),
        }
    }
}

impl ChainView {
    /// The chain with one more rule at its end.
    pub open spec fn with_rule(self, rule: RuleView) -> ChainView {
        ChainView { rules: self.rules.push(rule), ..self }
    }
}

/// What the chains of a vector hold, in order.
pub open spec fn chain_views(chains: Seq<Chain>) -> Seq<ChainView> {
    Seq::new(chains.len(), |i: int| chains[i]@)
}

impl Chain {
    /// The text by which the policy of the chain is shown.
    pub fn policy(&self) -> (s: &'static str)
        ensures
            s@ == policy_label(self.policy),
    {
        self.policy.as_str()
    }
}

/// What a chain declaration of the form `:name POLICY [packets:bytes]`
/// denotes: a chain without rules. The three fields are separated by one space
/// each; the name is not empty.
pub open spec fn chain_of_line(line: Seq<char>) -> Result<ChainView, MalformedKind> {
    let body = line.skip(1);
    let name = before(body, ' ');
    let tail = after(body, ' ');
    if line.len() == 0 || line[0] != ':' || first_index(body, ' ') is None || name.len() == 0
        || first_index(tail, ' ') is None {
        Err(MalformedKind::MalformedChain)
    } else {
        match policy_of(before(tail, ' ')) {
            None => Err(MalformedKind::InvalidPolicy),
            Some(policy) => match counter_of(after(tail, ' ')) {
                None => Err(MalformedKind::MalformedCounter),
                Some(counter) => Ok(ChainView { name, policy, counter, rules: Seq::empty() }),
            },
        }
    }
}

/// Reads a chain declaration.
pub fn parse_chain_line(line: &[char]) -> (r: Result<Chain, MalformedKind>)
    ensures
        match r {
            Ok(chain) => chain_of_line(line@) == Ok::<ChainView, MalformedKind>(chain@),
            Err(kind) => chain_of_line(line@) == Err::<ChainView, MalformedKind>(kind),
        },
{
    if line.len() == 0 || line[0] != ':' {
        return Err(MalformedKind::MalformedChain);
    }
    let body = &line[1..line.len()];
    assert(body@ == line@.skip(1));
    let name = take_before(body, ' ');
    let tail = skip_after(body, ' ');
    if !has_char(body, ' ') || name.len() == 0 || !has_char(tail, ' ') {
        return Err(MalformedKind::MalformedChain);
    }
    let policy = match parse_policy(take_before(tail, ' ')) {
        None => {
            return Err(MalformedKind::InvalidPolicy);
        },
        Some(p) => p,
    };
    let counter = match parse_counter(skip_after(tail, ' ')) {
        None => {
            return Err(MalformedKind::MalformedCounter);
        },
        Some(c) => c,
    };
    let chain = Chain { name: string_from_chars(name), policy, counter, rules: Vec::new() };
    assert(chain@.rules =~= Seq::<RuleView>::empty());
    Ok(chain)
}

} // verus!
