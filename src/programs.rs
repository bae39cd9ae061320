//! The reference programs that the pipeline stages and promotes.

use vstd::prelude::*;

verus! {

/// The Fibonacci sequence: `fib_spec(0) == 0`, `fib_spec(1) == 1`.
pub open spec fn fib_spec(n: nat) -> nat
    decreases n,
{
    if n == 0 {
        0
    } else if n == 1 {
        1
    } else {
        fib_spec((n - 1) as nat) + fib_spec((n - 2) as nat)
    }
}

/// `n!`, with `0! == 1`.
pub open spec fn factorial_spec(n: nat) -> nat
    decreases n,
{
    if n <= 1 {
        1
    } else {
        n * factorial_spec((n - 1) as nat)
    }
}

proof fn lemma_fib_monotone(i: nat, j: nat)
    requires
        i <= j,
    ensures
        fib_spec(i) <= fib_spec(j),
    decreases j,
{
    if i < j {
        lemma_fib_monotone(i, (j - 1) as nat);
        if j >= 2 {
            assert(fib_spec(j) == fib_spec((j - 1) as nat) + fib_spec((j - 2) as nat));
        }
    }
}

/// `fib_spec(93)`, the largest Fibonacci number that fits in a `u64`,
/// reached one step at a time from the definition.
proof fn lemma_fib_93()
    ensures
        fib_spec(93) == 12200160415121876738,
{
    assert(fib_spec(0) == 0);
    assert(fib_spec(1) == 1);
    assert(fib_spec(2) == 1);
    assert(fib_spec(3) == 2);
    assert(fib_spec(4) == 3);
    assert(fib_spec(5) == 5);
    assert(fib_spec(6) == 8);
    assert(fib_spec(7) == 13);
    assert(fib_spec(8) == 21);
    assert(fib_spec(9) == 34);
    assert(fib_spec(10) == 55);
    assert(fib_spec(11) == 89);
    assert(fib_spec(12) == 144);
    assert(fib_spec(13) == 233);
    assert(fib_spec(14) == 377);
    assert(fib_spec(15) == 610);
    assert(fib_spec(16) == 987);
    assert(fib_spec(17) == 1597);
    assert(fib_spec(18) == 2584);
    assert(fib_spec(19) == 4181);
    assert(fib_spec(20) == 6765);
    assert(fib_spec(21) == 10946);
    assert(fib_spec(22) == 17711);
    assert(fib_spec(23) == 28657);
    assert(fib_spec(24) == 46368);
    assert(fib_spec(25) == 75025);
    assert(fib_spec(26) == 121393);
    assert(fib_spec(27) == 196418);
    assert(fib_spec(28) == 317811);
    assert(fib_spec(29) == 514229);
    assert(fib_spec(30) == 832040);
    assert(fib_spec(31) == 1346269);
    assert(fib_spec(32) == 2178309);
    assert(fib_spec(33) == 3524578);
    assert(fib_spec(34) == 5702887);
    assert(fib_spec(35) == 9227465);
    assert(fib_spec(36) == 14930352);
    assert(fib_spec(37) == 24157817);
    assert(fib_spec(38) == 39088169);
    assert(fib_spec(39) == 63245986);
    assert(fib_spec(40) == 102334155);
    assert(fib_spec(41) == 165580141);
    assert(fib_spec(42) == 267914296);
    assert(fib_spec(43) == 433494437);
    assert(fib_spec(44) == 701408733);
    assert(fib_spec(45) == 1134903170);
    assert(fib_spec(46) == 1836311903);
    assert(fib_spec(47) == 2971215073);
    assert(fib_spec(48) == 4807526976);
    assert(fib_spec(49) == 7778742049);
    assert(fib_spec(50) == 12586269025);
    assert(fib_spec(51) == 20365011074);
    assert(fib_spec(52) == 32951280099);
    assert(fib_spec(53) == 53316291173);
    assert(fib_spec(54) == 86267571272);
    assert(fib_spec(55) == 139583862445);
    assert(fib_spec(56) == 225851433717);
    assert(fib_spec(57) == 365435296162);
    assert(fib_spec(58) == 591286729879);
    assert(fib_spec(59) == 956722026041);
    assert(fib_spec(60) == 1548008755920);
    assert(fib_spec(61) == 2504730781961);
    assert(fib_spec(62) == 4052739537881);
    assert(fib_spec(63) == 6557470319842);
    assert(fib_spec(64) == 10610209857723);
    assert(fib_spec(65) == 17167680177565);
    assert(fib_spec(66) == 27777890035288);
    assert(fib_spec(67) == 44945570212853);
    assert(fib_spec(68) == 72723460248141);
    assert(fib_spec(69) == 117669030460994);
    assert(fib_spec(70) == 190392490709135);
    assert(fib_spec(71) == 308061521170129);
    assert(fib_spec(72) == 498454011879264);
    assert(fib_spec(73) == 806515533049393);
    assert(fib_spec(74) == 1304969544928657);
    assert(fib_spec(75) == 2111485077978050);
    assert(fib_spec(76) == 3416454622906707);
    assert(fib_spec(77) == 5527939700884757);
    assert(fib_spec(78) == 8944394323791464);
    assert(fib_spec(79) == 14472334024676221);
    assert(fib_spec(80) == 23416728348467685);
    assert(fib_spec(81) == 37889062373143906);
    assert(fib_spec(82) == 61305790721611591);
    assert(fib_spec(83) == 99194853094755497);
    assert(fib_spec(84) == 160500643816367088);
    assert(fib_spec(85) == 259695496911122585);
    assert(fib_spec(86) == 420196140727489673);
    assert(fib_spec(87) == 679891637638612258);
    assert(fib_spec(88) == 1100087778366101931);
    assert(fib_spec(89) == 1779979416004714189);
    assert(fib_spec(90) == 2880067194370816120);
    assert(fib_spec(91) == 4660046610375530309);
    assert(fib_spec(92) == 7540113804746346429);
    assert(fib_spec(93) == 12200160415121876738);
}

/// The `n`-th Fibonacci number, computed iteratively; the loop's last step
/// forms `fib(n + 1)`, so `n` stops at 92.
pub fn fib(n: u32) -> (r: u64)
    requires
        n <= 92,
    ensures
        r as nat == fib_spec(n as nat),
{
    let mut a: u64 = 0;
    let mut b: u64 = 1;
    let mut i: u32 = 0;
    while i < n
        invariant
            i <= n <= 92,
            a as nat == fib_spec(i as nat),
            b as nat == fib_spec(i as nat + 1),
        decreases n - i,
    {
        proof {
            lemma_fib_93();
            lemma_fib_monotone(i as nat + 2, 93);
            assert(fib_spec(i as nat + 2) == fib_spec(i as nat + 1) + fib_spec(i as nat));
        }
        let t = a + b;
        a = b;
        b = t;
        i = i + 1;
    }
    a
}

proof fn lemma_factorial_monotone(i: nat, j: nat)
    requires
        i <= j,
    ensures
        factorial_spec(i) <= factorial_spec(j),
    decreases j,
{
    if i < j {
        lemma_factorial_monotone(i, (j - 1) as nat);
        if j >= 2 {
            assert(factorial_spec((j - 1) as nat) >= 1) by {
                lemma_factorial_positive((j - 1) as nat);
            }
            assert(j * factorial_spec((j - 1) as nat) >= factorial_spec((j - 1) as nat))
                by (nonlinear_arith)
                requires
                    j >= 2,
            ;
        }
    }
}

proof fn lemma_factorial_positive(n: nat)
    ensures
        factorial_spec(n) >= 1,
    decreases n,
{
    if n > 1 {
        lemma_factorial_positive((n - 1) as nat);
        assert(n * factorial_spec((n - 1) as nat) >= 1) by (nonlinear_arith)
            requires
                n > 1,
                factorial_spec((n - 1) as nat) >= 1,
        ;
    }
}

/// `factorial_spec(20)`, the largest factorial that fits in a `u64`,
/// reached one step at a time from the definition.
proof fn lemma_factorial_20()
    ensures
        factorial_spec(20) == 2432902008176640000,
{
    assert(factorial_spec(1) == 1);
    assert(factorial_spec(2) == 2);
    assert(factorial_spec(3) == 6);
    assert(factorial_spec(4) == 24);
    assert(factorial_spec(5) == 120);
    assert(factorial_spec(6) == 720);
    assert(factorial_spec(7) == 5040);
    assert(factorial_spec(8) == 40320);
    assert(factorial_spec(9) == 362880);
    assert(factorial_spec(10) == 3628800);
    assert(factorial_spec(11) == 39916800);
    assert(factorial_spec(12) == 479001600);
    assert(factorial_spec(13) == 6227020800);
    assert(factorial_spec(14) == 87178291200);
    assert(factorial_spec(15) == 1307674368000);
    assert(factorial_spec(16) == 20922789888000);
    assert(factorial_spec(17) == 355687428096000);
    assert(factorial_spec(18) == 6402373705728000);
    assert(factorial_spec(19) == 121645100408832000);
    assert(factorial_spec(20) == 2432902008176640000);
}

/// `n!`, computed recursively.
pub fn factorial(n: u64) -> (r: u64)
    requires
        n <= 20,
    ensures
        r as nat == factorial_spec(n as nat),
    decreases n,
{
    if n <= 1 {
        1
    } else {
        proof {
            lemma_factorial_20();
            lemma_factorial_monotone(n as nat, 20);
        }
        let p = factorial(n - 1);
        n * p
    }
}

} // verus!
