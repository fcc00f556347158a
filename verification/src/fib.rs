//! The Fibonacci numbers used to compare generated code with Rust.

use vstd::prelude::*;

verus! {

/// The Fibonacci numbers: 0, 1, 1, 2, 3, 5, ...
pub open spec fn fib(n: nat) -> nat
    decreases n,
{
    if n < 2 {
        n
    } else {
        fib((n - 2) as nat) + fib((n - 1) as nat)
    }
}

proof fn lemma_fib_monotonic(i: nat, j: nat)
    requires
        i <= j,
    ensures
        fib(i) <= fib(j),
    decreases j - i,
{
    if i < j {
        lemma_fib_monotonic(i, (j - 1) as nat);
        if j >= 2 {
            assert(fib(j) == fib((j - 2) as nat) + fib((j - 1) as nat));
        }
    }
}

/// The `n`-th Fibonacci number, iteratively; `n` itself when `n <= 1`.
pub fn fib_rust(n: i32) -> (r: i32)
    requires
        n <= 1 || fib(n as nat) <= i32::MAX,
    ensures
        n <= 1 ==> r == n,
        n > 1 ==> r == fib(n as nat),
{
    if n <= 1 {
        return n;
    }
    let mut m = n;
    let ghost top = n as nat;
    let mut a: i32 = 0;
    let mut b: i32 = 1;
    let ghost mut k: nat = 1;
    loop
        invariant
            2 <= m <= top,
            top == n,
            k + m == top + 1,
            a == fib((k - 1) as nat),
            b == fib(k),
            fib(top) <= i32::MAX,
        decreases m,
    {
        proof {
            lemma_fib_monotonic(k + 1, top);
            assert(fib(k + 1) == fib((k - 1) as nat) + fib(k));
        }
        let current = a + b;
        a = b;
        b = current;
        proof {
            k = k + 1;
        }
        if m == 2 {
            return current;
        }
        m = m - 1;
    }
}

/// The `n`-th Fibonacci number, by the recursive definition; `n` itself
/// when `n < 2`.
pub fn fib_rust_rec(n: i32) -> (r: i32)
    requires
        n < 2 || fib(n as nat) <= i32::MAX,
    ensures
        n < 2 ==> r == n,
        n >= 2 ==> r == fib(n as nat),
    decreases n,
{
    if n < 2 {
        return n;
    }
    proof {
        lemma_fib_monotonic((n - 1) as nat, n as nat);
        lemma_fib_monotonic((n - 2) as nat, n as nat);
    }
    fib_rust_rec(n - 2) + fib_rust_rec(n - 1)
}

} // verus!
