//! Three ways of computing Fibonacci numbers: with `loop`, `while` and `for`.

use vstd::prelude::*;

verus! {

/// The Fibonacci numbers, counted from `fib(1) == fib(2) == 1`; below 3
/// every argument gives 1.
pub open spec fn fib(n: nat) -> nat
    decreases n,
{
    if n < 3 {
        1
    } else {
        fib((n - 1) as nat) + fib((n - 2) as nat)
    }
}

/// The sequence does not decrease.
pub proof fn lemma_fib_monotonic(i: nat, j: nat)
    requires
        i <= j,
    ensures
        fib(i) <= fib(j),
    decreases j - i,
{
    if i < j {
        lemma_fib_monotonic(i, (j - 1) as nat);
        if j >= 3 {
            assert(fib(j) == fib((j - 1) as nat) + fib((j - 2) as nat));
        }
    }
}

pub fn fib_loop(n: u8) -> (r: i32)
    requires
        fib(n as nat) <= i32::MAX,
    ensures
        r == fib(n as nat),
{
    let mut a: i32 = 1;
    let mut b: i32 = 1;
    let mut i: u8 = 2;
    loop
        invariant
            2 <= i,
            i <= n || i == 2,
            a == fib((i - 1) as nat),
            b == fib(i as nat),
            fib(n as nat) <= i32::MAX,
        ensures
            b == fib(n as nat),
        decreases n - i,
    {
        if i >= n {
            break;
        }
        proof {
            lemma_fib_monotonic((i + 1) as nat, n as nat);
        }
        let c = a + b;
        a = b;
        b = c;
        i += 1;
    }
    b
}

pub fn fib_while(n: u8) -> (r: i32)
    requires
        fib(n as nat) <= i32::MAX,
    ensures
        r == fib(n as nat),
{
    let (mut a, mut b, mut i): (i32, i32, u8) = (1, 1, 2);
    while i < n
        invariant
            2 <= i,
            i <= n || i == 2,
            a == fib((i - 1) as nat),
            b == fib(i as nat),
            fib(n as nat) <= i32::MAX,
        decreases n - i,
    {
        proof {
            lemma_fib_monotonic((i + 1) as nat, n as nat);
        }
        let c = a + b;
        a = b;
        b = c;
        i += 1;
    }
    b
}

pub fn fib_for(n: u8) -> (r: i32)
    requires
        fib(n as nat) <= i32::MAX,
    ensures
        r == fib(n as nat),
{
    let (mut a, mut b): (i32, i32) = (1, 1);
    // `2..n` runs no round when `n < 2`, as `2..2` does
    let end: u8 = if n < 2 { 2 } else { n };
    for k in 2..end
        invariant
            end == n || (n < 2 && end == 2),
            a == fib((k - 1) as nat),
            b == fib(k as nat),
            fib(n as nat) <= i32::MAX,
    {
        proof {
            lemma_fib_monotonic((k + 1) as nat, n as nat);
        }
        let c = a + b;
        a = b;
        b = c;
    }
    b
}

} // verus!
