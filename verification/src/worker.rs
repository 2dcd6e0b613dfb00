//! The work that is handed to a background worker: a number of the Fibonacci
//! sequence, as a stand-in for a long computation.

use vstd::prelude::*;

verus! {

/// What is sent to the worker.
#[derive(Debug, Clone, Copy, PartialEq, Eq, Structural)]
pub struct WorkerInput {
    pub n: u32,
}

/// What the worker sends back: the input, and the value computed for it.
#[derive(Debug, Clone, Copy, PartialEq, Eq, Structural)]
pub struct WorkerOutput {
    pub input: u32,
    pub value: u32,
}

/// The sequence 1, 1, 2, 3, 5, 8, ...
pub open spec fn fib(n: nat) -> nat
    decreases n,
{
    if n <= 1 {
        1
    } else {
        fib((n - 1) as nat) + fib((n - 2) as nat)
    }
}

/// The sequence never falls.
pub proof fn lemma_fib_grows(i: nat, j: nat)
    requires
        i <= j,
    ensures
        1 <= fib(i) <= fib(j),
    decreases j,
{
    if j > 1 {
        if i == j {
            lemma_fib_grows(0, (j - 1) as nat);
        } else {
            lemma_fib_grows(i, (j - 1) as nat);
        }
    }
}

/// The number at position `n` of the sequence, if it fits 32 bits.
pub fn fib_checked(n: u32) -> (r: Option<u32>)
    ensures
        r == if fib(n as nat) <= u32::MAX {
            Some(fib(n as nat) as u32)
        } else {
            None
        },
{
    if n <= 1 {
        return Some(1);
    }
    let mut prev: u32 = 1;
    let mut cur: u32 = 1;
    let mut i: u32 = 1;
    while i < n
        invariant
            1 <= i <= n,
            prev == fib((i - 1) as nat),
            cur == fib(i as nat),
        decreases n - i,
    {
        if cur > u32::MAX - prev {
            proof {
                lemma_fib_grows((i + 1) as nat, n as nat);
            }
            return None;
        }
        let next = cur + prev;
        prev = cur;
        cur = next;
        i += 1;
    }
    Some(cur)
}

/// The worker's answer to an input, if the value fits 32 bits.
pub fn handle_input(msg: WorkerInput) -> (r: Option<WorkerOutput>)
    ensures
        r == if fib(msg.n as nat) <= u32::MAX {
            Some(WorkerOutput { input: msg.n, value: fib(msg.n as nat) as u32 })
        } else {
            None
        },
{
    match fib_checked(msg.n) {
        Some(value) => Some(WorkerOutput { input: msg.n, value }),
        None => None,
    }
}

} // verus!
