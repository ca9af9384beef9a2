//! Packet and byte counters as the kernel reports them.

use crate::text::{after, before, decimal_u64, find_char, first_index, parse_u64};
use crate::text::lemma_first_index_props;
use vstd::prelude::*;

verus! {

/// A snapshot of a kernel accumulator: the packets and bytes counted so far.
/// The values are absolute readings, not differences, and a later reading may
/// be smaller than an earlier one when the accounting was reset in between.
#[derive(Clone, Copy, Debug, PartialEq, Eq, Structural)]
pub struct Counter {
    pub packets: u64,
    pub bytes: u64,
}

impl Counter {
    /// A counter with the given readings.
    pub fn new(packets: u64, bytes: u64) -> (c: Counter)
        ensures
            c == (Counter { packets, bytes }),
    {
        Counter { packets, bytes }
    }

    /// The packets counted.
    pub fn packets(&self) -> (n: u64)
        ensures
            n == self.packets,
    {
        self.packets
    }

    /// The bytes counted.
    pub fn bytes(&self) -> (n: u64)
        ensures
            n == self.bytes,
    {
        self.bytes
    }
}

/// The counter that a token of the form `[packets:bytes]` denotes: an opening
/// bracket, two unsigned decimal numbers with a colon between them, and a
/// closing bracket.
pub open spec fn counter_of(token: Seq<char>) -> Option<Counter> {
    if token.len() >= 2 && token[0] == '[' && token.last() == ']' {
        let inner = token.subrange(1, token.len() - 1);
        match (first_index(inner, ':'), decimal_u64(before(inner, ':')), decimal_u64(after(inner, ':'))) {
            (Some(_), Some(packets), Some(bytes)) => Some(Counter { packets, bytes }),
            _ => None,
        }
    } else {
        None
    }
}

/// Reads a counter of the form `[packets:bytes]`.
pub fn parse_counter(token: &[char]) -> (r: Option<Counter>)
    ensures
        r == counter_of(token@),
{
    let n = token.len();
    if n < 2 || token[0] != '[' || token[n - 1] != ']' {
        return None;
    }
    let inner = &token[1..n - 1];
    assert(inner@ == token@.subrange(1, token@.len() - 1));
    proof {
        lemma_first_index_props(inner@, ':');
    }
    match find_char(inner, ':') {
        None => None,
        Some(i) => {
            let left = &inner[0..i];
            let right = &inner[i + 1..inner.len()];
            assert(left@ == before(inner@, ':'));
            assert(right@ == after(inner@, ':'));
            match (parse_u64(left), parse_u64(right)) {
                (Some(packets), Some(bytes)) => Some(Counter { packets, bytes }),
                _ => None,
            }
        },
    }
}

} // verus!
