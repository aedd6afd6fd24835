use vstd::prelude::*;
use vstd::arithmetic::div_mod::lemma_fundamental_div_mod_converse;
use crate::text::{characters, decimal, digit, is_digit, push_char, signed_decimal};

verus! {

/// The base of the limbs: a limb holds nine decimal digits.
const BASE: u32 = 1_000_000_000;

/// The weight of the limb at index `k`: `BASE` to the power `k`.
spec fn weight(k: nat) -> nat
    decreases k,
{
    if k == 0 {
        1
    } else {
        BASE as nat * weight((k - 1) as nat)
    }
}

/// The natural number that the limbs write, the least significant first.
spec fn magnitude(limbs: Seq<u32>) -> nat
    decreases limbs.len(),
{
    if limbs.len() == 0 {
        0
    } else {
        magnitude(limbs.drop_last()) + limbs.last() as nat * weight((limbs.len() - 1) as nat)
    }
}

/// Whether every limb is below the base.
spec fn bounded(limbs: Seq<u32>) -> bool {
    forall|i: int| 0 <= i < limbs.len() ==> (#[trigger] limbs[i]) < BASE
}

/// Whether the limbs are bounded and do not end in a zero: the one way to
/// write their number.
spec fn canonical(limbs: Seq<u32>) -> bool {
    bounded(limbs) && (limbs.len() > 0 ==> limbs.last() != 0)
}

proof fn lemma_weight_positive(k: nat)
    ensures
        weight(k) > 0,
    decreases k,
{
    if k > 0 {
        lemma_weight_positive((k - 1) as nat);
        assert(BASE as nat * weight((k - 1) as nat) > 0) by (nonlinear_arith)
            requires
                weight((k - 1) as nat) > 0,
                BASE as nat > 0,
        ;
    }
}

proof fn lemma_weight_grows(i: nat, j: nat)
    requires
        i <= j,
    ensures
        weight(i) <= weight(j),
    decreases j,
{
    if i < j {
        lemma_weight_grows(i, (j - 1) as nat);
        lemma_weight_positive((j - 1) as nat);
        assert(weight((j - 1) as nat) <= BASE as nat * weight((j - 1) as nat)) by (nonlinear_arith)
            requires
                weight((j - 1) as nat) > 0,
                BASE as nat >= 1,
        ;
    }
}

/// One more limb adds its value times its weight.
proof fn lemma_magnitude_push(limbs: Seq<u32>, limb: u32)
    ensures
        magnitude(limbs.push(limb)) == magnitude(limbs) + limb as nat * weight(limbs.len()),
{
    assert(limbs.push(limb).drop_last() =~= limbs);
}

/// The first `i + 1` limbs write what the first `i` write and the limb at
/// `i`.
proof fn lemma_magnitude_take(limbs: Seq<u32>, i: int)
    requires
        0 <= i < limbs.len(),
    ensures
        magnitude(limbs.take(i + 1)) == magnitude(limbs.take(i)) + limbs[i] as nat * weight(
            i as nat,
        ),
{
    assert(limbs.take(i + 1).drop_last() =~= limbs.take(i));
}

/// Bounded limbs write a number below the weight of the next limb.
proof fn lemma_magnitude_below_weight(limbs: Seq<u32>)
    requires
        bounded(limbs),
    ensures
        magnitude(limbs) < weight(limbs.len()),
    decreases limbs.len(),
{
    if limbs.len() > 0 {
        let front = limbs.drop_last();
        lemma_magnitude_below_weight(front);
        let w = weight(front.len());
        let top = limbs.last() as nat;
        assert(magnitude(front) + top * w < BASE as nat * w) by (nonlinear_arith)
            requires
                magnitude(front) < w,
                top < BASE as nat,
        ;
    }
}

/// Canonical limbs write a number that is at least the weight of their
/// last limb.
proof fn lemma_magnitude_at_least_weight(limbs: Seq<u32>)
    requires
        canonical(limbs),
        limbs.len() > 0,
    ensures
        magnitude(limbs) >= weight((limbs.len() - 1) as nat),
{
    let w = weight((limbs.len() - 1) as nat);
    let top = limbs.last() as nat;
    assert(top * w >= w) by (nonlinear_arith)
        requires
            top >= 1,
    ;
}

/// A limb put before the others counts once, and the others count `BASE`
/// times.
proof fn lemma_magnitude_prepend(limb: u32, limbs: Seq<u32>)
    ensures
        magnitude(seq![limb] + limbs) == limb as nat + BASE as nat * magnitude(limbs),
    decreases limbs.len(),
{
    let all = seq![limb] + limbs;
    let base = BASE as nat;
    if limbs.len() == 0 {
        assert(all =~= Seq::<u32>::empty().push(limb));
        lemma_magnitude_push(Seq::<u32>::empty(), limb);
        assert(magnitude(Seq::<u32>::empty()) == 0);
        assert(weight(0) == 1);
        assert(magnitude(limbs) == 0);
        assert(base * 0 == 0);
        assert(limb as nat * weight(0) == limb as nat) by (nonlinear_arith)
            requires
                weight(0) == 1,
        ;
        assert(magnitude(all) == limb as nat);
        assert(magnitude(all) == limb as nat + base * magnitude(limbs));
    } else {
        let front = limbs.drop_last();
        let top = limbs.last();
        lemma_magnitude_prepend(limb, front);
        assert(all =~= (seq![limb] + front).push(top));
        lemma_magnitude_push(seq![limb] + front, top);
        assert(limbs =~= front.push(top));
        lemma_magnitude_push(front, top);
        let w = weight(front.len());
        let m = magnitude(front);
        let t = top as nat;
        assert(weight((front.len() + 1) as nat) == base * w);
        assert(magnitude(all) == limb as nat + base * m + t * (base * w));
        assert(magnitude(limbs) == m + t * w);
        assert(base * (m + t * w) == base * m + t * (base * w)) by (nonlinear_arith);
        assert(magnitude(all) == limb as nat + base * magnitude(limbs));
    }
}

/// Removes the zeros at the end.
fn trim(limbs: Vec<u32>) -> (r: Vec<u32>)
    requires
        bounded(limbs@),
    ensures
        canonical(r@),
        magnitude(r@) == magnitude(limbs@),
{
    let mut r = limbs;
    while r.len() > 0 && r[r.len() - 1] == 0
        invariant
            bounded(r@),
            magnitude(r@) == magnitude(limbs@),
        decreases r.len(),
    {
        assert(magnitude(r@) == magnitude(r@.drop_last()) + 0 * weight((r.len() - 1) as nat));
        r.pop();
    }
    r
}

/// The sum of two numbers.
fn add_limbs(a: &Vec<u32>, b: &Vec<u32>) -> (r: Vec<u32>)
    requires
        bounded(a@),
        bounded(b@),
    ensures
        canonical(r@),
        magnitude(r@) == magnitude(a@) + magnitude(b@),
{
    let mut r: Vec<u32> = Vec::new();
    let mut carry: u32 = 0;
    let mut i: usize = 0;
    let ghost mut done_a: nat = 0;
    let ghost mut done_b: nat = 0;
    while i < a.len() || i < b.len()
        invariant
            bounded(a@),
            bounded(b@),
            bounded(r@),
            r.len() == i,
            carry <= 1,
            done_a == magnitude(a@.take(if i <= a.len() { i as int } else { a.len() as int })),
            done_b == magnitude(b@.take(if i <= b.len() { i as int } else { b.len() as int })),
            magnitude(r@) + carry as nat * weight(i as nat) == done_a + done_b,
        decreases (if a.len() > b.len() { a.len() } else { b.len() }) - i,
    {
        let x: u32 = if i < a.len() { a[i] } else { 0 };
        let y: u32 = if i < b.len() { b[i] } else { 0 };
        let sum: u32 = x + y + carry;
        let (limb, next): (u32, u32) = if sum >= BASE { (sum - BASE, 1) } else { (sum, 0) };
        proof {
            if i < a.len() {
                lemma_magnitude_take(a@, i as int);
                done_a = done_a + x as nat * weight(i as nat);
            }
            if i < b.len() {
                lemma_magnitude_take(b@, i as int);
                done_b = done_b + y as nat * weight(i as nat);
            }
            lemma_magnitude_push(r@, limb);
            let w = weight(i as nat);
            assert(limb as nat * w + next as nat * (BASE as nat * w) == (x as nat + y as nat
                + carry as nat) * w) by (nonlinear_arith)
                requires
                    limb as nat + next as nat * BASE as nat == x as nat + y as nat + carry as nat,
            ;
            assert((x as nat + y as nat + carry as nat) * w == x as nat * w + y as nat * w
                + carry as nat * w) by (nonlinear_arith);
        }
        r.push(limb);
        carry = next;
        i += 1;
    }
    proof {
        assert(a@.take(a.len() as int) =~= a@);
        assert(b@.take(b.len() as int) =~= b@);
        lemma_magnitude_push(r@, carry);
    }
    r.push(carry);
    trim(r)
}

/// The difference of two numbers, the first being no smaller than the
/// second.
fn sub_limbs(a: &Vec<u32>, b: &Vec<u32>) -> (r: Vec<u32>)
    requires
        bounded(a@),
        bounded(b@),
        magnitude(a@) >= magnitude(b@),
    ensures
        canonical(r@),
        magnitude(r@) == magnitude(a@) - magnitude(b@),
{
    let mut r: Vec<u32> = Vec::new();
    let mut borrow: u32 = 0;
    let mut i: usize = 0;
    let ghost mut done_a: nat = 0;
    let ghost mut done_b: nat = 0;
    while i < a.len() || i < b.len()
        invariant
            bounded(a@),
            bounded(b@),
            bounded(r@),
            r.len() == i,
            borrow <= 1,
            done_a == magnitude(a@.take(if i <= a.len() { i as int } else { a.len() as int })),
            done_b == magnitude(b@.take(if i <= b.len() { i as int } else { b.len() as int })),
            magnitude(r@) + done_b == done_a + borrow as nat * weight(i as nat),
        decreases (if a.len() > b.len() { a.len() } else { b.len() }) - i,
    {
        let x: u32 = if i < a.len() { a[i] } else { 0 };
        let y: u32 = if i < b.len() { b[i] } else { 0 };
        let taken: u32 = y + borrow;
        let (limb, next): (u32, u32) = if x >= taken { (x - taken, 0) } else { (x + BASE - taken, 1) };
        proof {
            if i < a.len() {
                lemma_magnitude_take(a@, i as int);
                done_a = done_a + x as nat * weight(i as nat);
            }
            if i < b.len() {
                lemma_magnitude_take(b@, i as int);
                done_b = done_b + y as nat * weight(i as nat);
            }
            lemma_magnitude_push(r@, limb);
            let w = weight(i as nat);
            assert(limb as nat * w + y as nat * w + borrow as nat * w == x as nat * w
                + next as nat * (BASE as nat * w)) by (nonlinear_arith)
                requires
                    limb as nat + y as nat + borrow as nat == x as nat + next as nat * BASE as nat,
            ;
        }
        r.push(limb);
        borrow = next;
        i += 1;
    }
    proof {
        assert(a@.take(a.len() as int) =~= a@);
        assert(b@.take(b.len() as int) =~= b@);
        lemma_magnitude_below_weight(r@);
        if borrow == 1 {
            assert(borrow as nat * weight(i as nat) == weight(i as nat)) by (nonlinear_arith)
                requires
                    borrow == 1,
            ;
        } else {
            assert(borrow as nat * weight(i as nat) == 0) by (nonlinear_arith)
                requires
                    borrow == 0,
            ;
        }
    }
    trim(r)
}

/// How one number stands to another.
#[derive(Clone, Copy, Debug, PartialEq, Eq, Structural)]
pub enum Order {
    Less,
    Equal,
    Greater,
}

/// The order of two integers.
pub open spec fn order_of(a: int, b: int) -> Order {
    if a < b {
        Order::Less
    } else if a == b {
        Order::Equal
    } else {
        Order::Greater
    }
}

/// How the first number stands to the second.
fn compare_limbs(a: &Vec<u32>, b: &Vec<u32>) -> (order: Order)
    requires
        canonical(a@),
        canonical(b@),
    ensures
        order == order_of(magnitude(a@) as int, magnitude(b@) as int),
{
    proof {
        lemma_magnitude_below_weight(a@);
        lemma_magnitude_below_weight(b@);
        if a.len() > 0 {
            lemma_magnitude_at_least_weight(a@);
        }
        if b.len() > 0 {
            lemma_magnitude_at_least_weight(b@);
        }
        if a.len() < b.len() {
            lemma_weight_grows(a@.len(), (b.len() - 1) as nat);
        }
        if b.len() < a.len() {
            lemma_weight_grows(b@.len(), (a.len() - 1) as nat);
        }
    }
    if a.len() < b.len() {
        return Order::Less;
    }
    if a.len() > b.len() {
        return Order::Greater;
    }
    let mut i: usize = a.len();
    proof {
        assert(a@.take(a.len() as int) =~= a@);
        assert(b@.take(b.len() as int) =~= b@);
    }
    while i > 0
        invariant
            a.len() == b.len(),
            i <= a.len(),
            bounded(a@),
            bounded(b@),
            magnitude(a@) - magnitude(a@.take(i as int)) == magnitude(b@) - magnitude(
                b@.take(i as int),
            ),
        decreases i,
    {
        i -= 1;
        proof {
            lemma_magnitude_take(a@, i as int);
            lemma_magnitude_take(b@, i as int);
            assert(bounded(a@.take(i as int)));
            assert(bounded(b@.take(i as int)));
            lemma_magnitude_below_weight(a@.take(i as int));
            lemma_magnitude_below_weight(b@.take(i as int));
            let w = weight(i as nat);
            let x = a@[i as int] as nat;
            let y = b@[i as int] as nat;
            if x < y {
                assert(x * w + w <= y * w) by (nonlinear_arith)
                    requires
                        x + 1 <= y,
                ;
            }
            if y < x {
                assert(y * w + w <= x * w) by (nonlinear_arith)
                    requires
                        y + 1 <= x,
                ;
            }
        }
        if a[i] < b[i] {
            return Order::Less;
        }
        if a[i] > b[i] {
            return Order::Greater;
        }
    }
    assert(a@.take(0) =~= b@.take(0));
    Order::Equal
}

/// The product of a number and `factor`, plus `addend`.
fn scale(a: &Vec<u32>, factor: u32, addend: u32) -> (r: Vec<u32>)
    requires
        bounded(a@),
    ensures
        canonical(r@),
        magnitude(r@) == magnitude(a@) * factor as nat + addend as nat,
{
    let mut r: Vec<u32> = Vec::new();
    let mut carry: u64 = addend as u64;
    let mut i: usize = 0;
    proof {
        assert(a@.take(0) =~= Seq::<u32>::empty());
        assert(weight(0) == 1);
        assert(magnitude(a@.take(0)) == 0);
        assert(0 * factor as nat == 0);
        assert(carry as nat * weight(0) == addend as nat);
    }
    while i < a.len()
        invariant
            i <= a.len(),
            bounded(a@),
            bounded(r@),
            r.len() == i,
            carry <= u32::MAX,
            magnitude(r@) + carry as nat * weight(i as nat) == magnitude(a@.take(i as int))
                * factor as nat + addend as nat,
        decreases a.len() - i,
    {
        let x: u64 = a[i] as u64;
        assert(x * factor as u64 + carry <= (BASE as u64 - 1) * u32::MAX as u64 + u32::MAX as u64)
            by (nonlinear_arith)
            requires
                x <= BASE as u64 - 1,
                factor as u64 <= u32::MAX as u64,
                carry <= u32::MAX as u64,
        ;
        let product: u64 = x * factor as u64 + carry;
        let limb: u32 = (product % BASE as u64) as u32;
        let next: u64 = product / BASE as u64;
        proof {
            vstd::arithmetic::div_mod::lemma_fundamental_div_mod(product as int, BASE as int);
            lemma_magnitude_take(a@, i as int);
            lemma_magnitude_push(r@, limb);
            let w = weight(i as nat);
            let done = magnitude(a@.take(i as int));
            assert(limb as nat * w + next as nat * (BASE as nat * w) == (x as nat * factor as nat
                + carry as nat) * w) by (nonlinear_arith)
                requires
                    limb as nat + next as nat * BASE as nat == x as nat * factor as nat
                        + carry as nat,
            ;
            assert((x as nat * factor as nat + carry as nat) * w == (x as nat * w) * factor as nat
                + carry as nat * w) by (nonlinear_arith);
            assert((done + x as nat * w) * factor as nat == done * factor as nat + (x as nat * w)
                * factor as nat) by (nonlinear_arith);
        }
        r.push(limb);
        carry = next;
        i += 1;
    }
    let low: u32 = (carry % BASE as u64) as u32;
    let high: u32 = (carry / BASE as u64) as u32;
    proof {
        vstd::arithmetic::div_mod::lemma_fundamental_div_mod(carry as int, BASE as int);
        assert(a@.take(a.len() as int) =~= a@);
        lemma_magnitude_push(r@, low);
        lemma_magnitude_push(r@.push(low), high);
        let w = weight(i as nat);
        assert(low as nat * w + high as nat * (BASE as nat * w) == carry as nat * w)
            by (nonlinear_arith)
            requires
                low as nat + high as nat * BASE as nat == carry as nat,
        ;
    }
    r.push(low);
    r.push(high);
    trim(r)
}

/// The number times `BASE`, plus `limb`.
fn shift_in(a: Vec<u32>, limb: u32) -> (r: Vec<u32>)
    requires
        bounded(a@),
        limb < BASE,
    ensures
        canonical(r@),
        magnitude(r@) == magnitude(a@) * BASE as nat + limb as nat,
{
    let mut r = a;
    proof {
        lemma_magnitude_prepend(limb, a@);
        assert(a@.insert(0, limb) =~= seq![limb] + a@);
        assert(magnitude(a@) * BASE as nat == BASE as nat * magnitude(a@)) by (nonlinear_arith);
    }
    r.insert(0, limb);
    trim(r)
}

/// The limbs from index `i` on write what the limb at `i` and, `BASE`
/// times, the limbs after it write.
proof fn lemma_magnitude_from(limbs: Seq<u32>, i: int)
    requires
        0 <= i < limbs.len(),
    ensures
        magnitude(limbs.subrange(i, limbs.len() as int)) == limbs[i] as nat + BASE as nat
            * magnitude(limbs.subrange(i + 1, limbs.len() as int)),
{
    lemma_magnitude_prepend(limbs[i], limbs.subrange(i + 1, limbs.len() as int));
    assert(limbs.subrange(i, limbs.len() as int) =~= seq![limbs[i]] + limbs.subrange(
        i + 1,
        limbs.len() as int,
    ));
}

/// The product of two numbers.
fn mul_limbs(a: &Vec<u32>, b: &Vec<u32>) -> (r: Vec<u32>)
    requires
        bounded(a@),
        bounded(b@),
    ensures
        canonical(r@),
        magnitude(r@) == magnitude(a@) * magnitude(b@),
{
    let mut r: Vec<u32> = Vec::new();
    let mut i: usize = b.len();
    proof {
        assert(b@.subrange(b.len() as int, b.len() as int) =~= Seq::<u32>::empty());
        assert(magnitude(a@) * 0 == 0);
    }
    while i > 0
        invariant
            i <= b.len(),
            bounded(a@),
            bounded(b@),
            canonical(r@),
            magnitude(r@) == magnitude(a@) * magnitude(b@.subrange(i as int, b.len() as int)),
        decreases i,
    {
        i -= 1;
        let shifted = shift_in(r, 0);
        let part = scale(a, b[i], 0);
        proof {
            lemma_magnitude_from(b@, i as int);
            let high = magnitude(b@.subrange(i + 1, b.len() as int));
            let x = magnitude(a@);
            let y = b@[i as int] as nat;
            assert((x * high) * BASE as nat + x * y == x * (y + BASE as nat * high))
                by (nonlinear_arith);
        }
        r = add_limbs(&shifted, &part);
    }
    proof {
        assert(b@.subrange(0, b.len() as int) =~= b@);
    }
    r
}

/// The quotient and the remainder of a number by `divisor`.
fn div_small(a: &Vec<u32>, divisor: u32) -> (r: (Vec<u32>, u32))
    requires
        bounded(a@),
        divisor > 0,
    ensures
        canonical(r.0@),
        magnitude(a@) == magnitude(r.0@) * divisor as nat + r.1 as nat,
        r.1 < divisor,
{
    let n = a.len();
    let mut q: Vec<u32> = Vec::new();
    while q.len() < n
        invariant
            q.len() <= n,
            bounded(q@),
        decreases n - q.len(),
    {
        q.push(0);
    }
    let mut rest: u32 = 0;
    let mut i: usize = n;
    proof {
        assert(a@.subrange(n as int, n as int) =~= Seq::<u32>::empty());
        assert(q@.subrange(n as int, n as int) =~= Seq::<u32>::empty());
        assert(0 * divisor as nat == 0);
    }
    while i > 0
        invariant
            i <= n,
            n == a.len(),
            q.len() == n,
            bounded(a@),
            bounded(q@),
            divisor > 0,
            rest < divisor,
            magnitude(a@.subrange(i as int, n as int)) == magnitude(q@.subrange(i as int, n as int))
                * divisor as nat + rest as nat,
        decreases i,
    {
        i -= 1;
        assert(rest as u64 * BASE as u64 <= u32::MAX as u64 * BASE as u64) by (nonlinear_arith)
            requires
                rest as u64 <= u32::MAX as u64,
        ;
        let current: u64 = rest as u64 * BASE as u64 + a[i] as u64;
        let digit: u64 = current / divisor as u64;
        let left: u64 = current % divisor as u64;
        proof {
            vstd::arithmetic::div_mod::lemma_fundamental_div_mod(current as int, divisor as int);
            assert(divisor as int * (current as int / divisor as int) == digit * divisor as u64)
                by (nonlinear_arith)
                requires
                    digit == current as int / divisor as int,
            ;
            assert(current < divisor as u64 * BASE as u64) by (nonlinear_arith)
                requires
                    current == rest as u64 * BASE as u64 + a@[i as int] as u64,
                    rest < divisor,
                    a@[i as int] < BASE,
            ;
            assert(digit < BASE as u64) by (nonlinear_arith)
                requires
                    digit * divisor as u64 + left == current,
                    current < divisor as u64 * BASE as u64,
                    divisor > 0,
            ;
        }
        let ghost before = q@;
        q.set(i, digit as u32);
        proof {
            lemma_magnitude_from(a@, i as int);
            lemma_magnitude_from(q@, i as int);
            assert(q@.subrange(i + 1, n as int) =~= before.subrange(i + 1, n as int));
            let high_q = magnitude(q@.subrange(i + 1, n as int));
            let high_a = magnitude(a@.subrange(i + 1, n as int));
            let d = divisor as nat;
            assert(a@[i as int] as nat + BASE as nat * (high_q * d + rest as nat) == (digit as nat
                + BASE as nat * high_q) * d + left as nat) by (nonlinear_arith)
                requires
                    rest as nat * BASE as nat + a@[i as int] as nat == digit as nat * d
                        + left as nat,
            ;
        }
        rest = left as u32;
    }
    proof {
        assert(a@.subrange(0, n as int) =~= a@);
        assert(q@.subrange(0, n as int) =~= q@);
    }
    (trim(q), rest)
}

/// The quotient and the remainder of a number by another that is not zero.
fn divide_limbs(a: &Vec<u32>, divisor: &Vec<u32>) -> (r: (Vec<u32>, Vec<u32>))
    requires
        bounded(a@),
        canonical(divisor@),
        magnitude(divisor@) > 0,
    ensures
        canonical(r.0@),
        canonical(r.1@),
        magnitude(a@) == magnitude(r.0@) * magnitude(divisor@) + magnitude(r.1@),
        magnitude(r.1@) < magnitude(divisor@),
{
    let n = a.len();
    let ghost d = magnitude(divisor@);
    let mut q: Vec<u32> = Vec::new();
    while q.len() < n
        invariant
            q.len() <= n,
            bounded(q@),
        decreases n - q.len(),
    {
        q.push(0);
    }
    let mut rest: Vec<u32> = Vec::new();
    let mut i: usize = n;
    proof {
        assert(a@.subrange(n as int, n as int) =~= Seq::<u32>::empty());
        assert(q@.subrange(n as int, n as int) =~= Seq::<u32>::empty());
        assert(0 * d == 0);
    }
    while i > 0
        invariant
            i <= n,
            n == a.len(),
            q.len() == n,
            bounded(a@),
            bounded(q@),
            canonical(divisor@),
            canonical(rest@),
            d == magnitude(divisor@),
            d > 0,
            magnitude(rest@) < d,
            magnitude(a@.subrange(i as int, n as int)) == magnitude(q@.subrange(i as int, n as int))
                * d + magnitude(rest@),
        decreases i,
    {
        i -= 1;
        let ghost carried = magnitude(rest@);
        rest = shift_in(rest, a[i]);
        let ghost current = magnitude(rest@);
        proof {
            assert(current < BASE as nat * d) by (nonlinear_arith)
                requires
                    current == carried * BASE as nat + a@[i as int] as nat,
                    carried < d,
                    a@[i as int] < BASE,
            ;
            assert(0 * d == 0);
        }
        // The digit is the largest number whose product with the divisor
        // is no larger than what is left; it lies below `BASE`.
        let mut low: u32 = 0;
        let mut high: u32 = BASE;
        while high - low > 1
            invariant
                low < high <= BASE,
                canonical(divisor@),
                canonical(rest@),
                d == magnitude(divisor@),
                current == magnitude(rest@),
                low as nat * d <= current < high as nat * d,
            decreases high - low,
        {
            let middle: u32 = low + (high - low) / 2;
            let product = scale(divisor, middle, 0);
            proof {
                assert(d * middle as nat == middle as nat * d) by (nonlinear_arith);
            }
            match compare_limbs(&product, &rest) {
                Order::Greater => {
                    high = middle;
                },
                _ => {
                    low = middle;
                },
            }
        }
        let product = scale(divisor, low, 0);
        proof {
            assert(d * low as nat == low as nat * d) by (nonlinear_arith);
            assert(current - low as nat * d < d) by (nonlinear_arith)
                requires
                    current < high as nat * d,
                    high == low + 1,
            ;
        }
        rest = sub_limbs(&rest, &product);
        let ghost before = q@;
        q.set(i, low);
        proof {
            lemma_magnitude_from(a@, i as int);
            lemma_magnitude_from(q@, i as int);
            assert(q@.subrange(i + 1, n as int) =~= before.subrange(i + 1, n as int));
            let high_q = magnitude(q@.subrange(i + 1, n as int));
            let left = magnitude(rest@);
            assert(a@[i as int] as nat + BASE as nat * (high_q * d + carried) == (low as nat
                + BASE as nat * high_q) * d + left) by (nonlinear_arith)
                requires
                    carried * BASE as nat + a@[i as int] as nat == low as nat * d + left,
            ;
        }
    }
    proof {
        assert(a@.subrange(0, n as int) =~= a@);
        assert(q@.subrange(0, n as int) =~= q@);
    }
    (trim(q), rest)
}

/// The quotient of `a` by `b`, rounded toward zero, for `b != 0`.
pub open spec fn quotient(a: int, b: int) -> int {
    if a >= 0 {
        if b > 0 {
            a / b
        } else {
            -(a / (-b))
        }
    } else {
        if b > 0 {
            -((-a) / b)
        } else {
            (-a) / (-b)
        }
    }
}

/// The remainder of `a` by `b`, with the sign of `a`, for `b != 0`.
pub open spec fn remainder(a: int, b: int) -> int {
    let divisor = if b > 0 {
        b
    } else {
        -b
    };
    if a >= 0 {
        a % divisor
    } else {
        -((-a) % divisor)
    }
}

/// The value of the decimal digits `s[from..to]`.
pub open spec fn number_value(s: Seq<char>, from: int, to: int) -> nat
    decreases to - from,
{
    if to <= from {
        0
    } else {
        (number_value(s, from, to - 1) * 10 + (s[to - 1] as int - '0' as int)) as nat
    }
}

/// An integer of any size.
#[derive(Debug)]
pub struct Integer {
    negative: bool,
    limbs: Vec<u32>,
}

impl View for Integer {
    type V = int;

    closed spec fn view(&self) -> int {
        if self.negative {
            -(magnitude(self.limbs@) as int)
        } else {
            magnitude(self.limbs@) as int
        }
    }
}

fn limbs_of(n: u64) -> (limbs: Vec<u32>)
    ensures
        canonical(limbs@),
        magnitude(limbs@) == n,
{
    let base: u64 = BASE as u64;
    let low: u32 = (n % base) as u32;
    let middle: u32 = ((n / base) % base) as u32;
    let high: u32 = ((n / base) / base) as u32;
    let mut limbs: Vec<u32> = Vec::new();
    proof {
        vstd::arithmetic::div_mod::lemma_fundamental_div_mod(n as int, base as int);
        vstd::arithmetic::div_mod::lemma_fundamental_div_mod((n / base) as int, base as int);
        lemma_magnitude_push(limbs@, low);
        lemma_magnitude_push(limbs@.push(low), middle);
        lemma_magnitude_push(limbs@.push(low).push(middle), high);
        assert(weight(0) == 1);
        assert(weight(1) == BASE as nat * weight(0));
        assert(weight(2) == BASE as nat * weight(1));
        assert(weight(1) == 1_000_000_000);
        assert(weight(2) == 1_000_000_000_000_000_000);
        assert(magnitude(limbs@) == 0);
    }
    limbs.push(low);
    limbs.push(middle);
    limbs.push(high);
    proof {
        let none = Seq::<u32>::empty();
        let one = none.push(low);
        let two = one.push(middle);
        lemma_magnitude_push(none, low);
        lemma_magnitude_push(one, middle);
        lemma_magnitude_push(two, high);
        assert(magnitude(none) == 0);
        assert(limbs@ =~= two.push(high));
        assert(magnitude(one) == low);
        assert(magnitude(two) == low + middle * 1_000_000_000);
        assert(magnitude(limbs@) == low + middle * 1_000_000_000 + high
            * 1_000_000_000_000_000_000);
        assert(n == low + 1_000_000_000 * (n / base));
        assert(n / base == middle + 1_000_000_000 * high);
    }
    trim(limbs)
}

impl Integer {
    #[verifier::type_invariant]
    spec fn well_formed(&self) -> bool {
        canonical(self.limbs@) && (self.limbs@.len() == 0 ==> !self.negative)
    }

    fn signed(negative: bool, limbs: Vec<u32>) -> (r: Integer)
        requires
            canonical(limbs@),
        ensures
            r@ == if negative {
                -(magnitude(limbs@) as int)
            } else {
                magnitude(limbs@) as int
            },
    {
        if limbs.len() == 0 {
            Integer { negative: false, limbs }
        } else {
            Integer { negative, limbs }
        }
    }

    /// The integer zero.
    pub fn zero() -> (r: Integer)
        ensures
            r@ == 0,
    {
        Integer { negative: false, limbs: Vec::new() }
    }

    /// The integer `n`.
    pub fn from_i64(n: i64) -> (r: Integer)
        ensures
            r@ == n,
    {
        if n < 0 {
            let magnitude: u64 = (-(n + 1)) as u64 + 1;
            Integer::signed(true, limbs_of(magnitude))
        } else {
            Integer::signed(false, limbs_of(n as u64))
        }
    }

    /// The integer `n`.
    pub fn from_usize(n: usize) -> (r: Integer)
        ensures
            r@ == n,
    {
        Integer::signed(false, limbs_of(n as u64))
    }

    /// The size of the integer without its sign, where it is below
    /// `BASE` to the power 3.
    fn small(&self) -> (r: Option<u128>)
        ensures
            match r {
                Some(size) => size == magnitude(self.limbs@) && size
                    < 1_000_000_000_000_000_000_000_000_000,
                None => magnitude(self.limbs@) >= 1_000_000_000_000_000_000_000_000_000,
            },
    {
        proof {
            use_type_invariant(self);
            lemma_magnitude_below_weight(self.limbs@);
            if self.limbs@.len() > 0 {
                lemma_magnitude_at_least_weight(self.limbs@);
            }
            assert(weight(0) == 1);
            assert(weight(1) == BASE as nat * weight(0));
            assert(weight(2) == BASE as nat * weight(1));
            assert(weight(3) == BASE as nat * weight(2));
            assert(weight(3) == 1_000_000_000_000_000_000_000_000_000);
            if self.limbs@.len() > 3 {
                lemma_weight_grows(3, (self.limbs@.len() - 1) as nat);
            }
        }
        if self.limbs.len() > 3 {
            return None;
        }
        let base: u128 = BASE as u128;
        let mut total: u128 = 0;
        let mut i: usize = self.limbs.len();
        proof {
            assert(self.limbs@.subrange(i as int, i as int) =~= Seq::<u32>::empty());
        }
        while i > 0
            invariant
                i <= self.limbs.len() <= 3,
                bounded(self.limbs@),
                base == BASE,
                total == magnitude(self.limbs@.subrange(i as int, self.limbs.len() as int)),
                total < weight((self.limbs.len() - i) as nat),
                weight(0) == 1,
                weight(1) == 1_000_000_000,
                weight(2) == 1_000_000_000_000_000_000,
                weight(3) == 1_000_000_000_000_000_000_000_000_000,
            decreases i,
        {
            i -= 1;
            proof {
                lemma_magnitude_from(self.limbs@, i as int);
                let w = weight((self.limbs.len() - i - 1) as nat);
                lemma_weight_grows((self.limbs.len() - i - 1) as nat, 2);
                assert(weight((self.limbs.len() - i) as nat) == BASE as nat * w);
                assert(self.limbs@[i as int] as nat + BASE as nat * (total as nat) < BASE as nat * w)
                    by (nonlinear_arith)
                    requires
                        total as nat + 1 <= w,
                        self.limbs@[i as int] < BASE,
                ;
                assert(BASE as nat * (total as nat) <= BASE as nat * w) by (nonlinear_arith)
                    requires
                        total as nat <= w,
                ;
            }
            total = self.limbs[i] as u128 + base * total;
        }
        proof {
            assert(self.limbs@.subrange(0, self.limbs.len() as int) =~= self.limbs@);
            lemma_weight_grows(self.limbs@.len(), 3);
        }
        Some(total)
    }

    /// The integer as a `usize`, where it is one.
    pub fn to_usize(&self) -> (r: Option<usize>)
        ensures
            match r {
                Some(n) => n == self@,
                None => self@ < 0 || self@ > usize::MAX,
            },
    {
        match self.small() {
            Some(size) => if !self.negative && size <= usize::MAX as u128 {
                Some(size as usize)
            } else if size == 0 {
                Some(0)
            } else {
                None
            },
            None => None,
        }
    }

    /// The integer as an `i64`, where it is one.
    pub fn to_i64(&self) -> (r: Option<i64>)
        ensures
            match r {
                Some(n) => n == self@,
                None => self@ < i64::MIN || self@ > i64::MAX,
            },
    {
        match self.small() {
            Some(size) => if self.negative {
                if size <= 0x8000_0000_0000_0000u128 {
                    Some((-(size as i128)) as i64)
                } else {
                    None
                }
            } else {
                if size <= 0x7fff_ffff_ffff_ffffu128 {
                    Some(size as i64)
                } else {
                    None
                }
            },
            None => None,
        }
    }

    /// Whether the integer is zero.
    pub fn is_zero(&self) -> (b: bool)
        ensures
            b == (self@ == 0),
    {
        proof {
            use_type_invariant(self);
            if self.limbs@.len() > 0 {
                lemma_magnitude_at_least_weight(self.limbs@);
                lemma_weight_positive((self.limbs@.len() - 1) as nat);
            }
        }
        self.limbs.len() == 0
    }

    /// Whether the integer is below zero.
    pub fn is_negative(&self) -> (b: bool)
        ensures
            b == (self@ < 0),
    {
        proof {
            use_type_invariant(self);
            if self.limbs@.len() > 0 {
                lemma_magnitude_at_least_weight(self.limbs@);
                lemma_weight_positive((self.limbs@.len() - 1) as nat);
            }
        }
        self.negative
    }

    /// A copy of the integer.
    pub fn duplicate(&self) -> (r: Integer)
        ensures
            r@ == self@,
    {
        proof {
            use_type_invariant(self);
        }
        let limbs = self.limbs.clone();
        assert(limbs@ =~= self.limbs@);
        Integer { negative: self.negative, limbs }
    }

    /// How the integer stands to `other`.
    pub fn compare(&self, other: &Integer) -> (order: Order)
        ensures
            order == order_of(self@, other@),
    {
        proof {
            use_type_invariant(self);
            use_type_invariant(other);
            if self.limbs@.len() > 0 {
                lemma_magnitude_at_least_weight(self.limbs@);
                lemma_weight_positive((self.limbs@.len() - 1) as nat);
            }
            if other.limbs@.len() > 0 {
                lemma_magnitude_at_least_weight(other.limbs@);
                lemma_weight_positive((other.limbs@.len() - 1) as nat);
            }
        }
        if self.negative && !other.negative {
            Order::Less
        } else if !self.negative && other.negative {
            Order::Greater
        } else if self.negative {
            compare_limbs(&other.limbs, &self.limbs)
        } else {
            compare_limbs(&self.limbs, &other.limbs)
        }
    }

    /// Whether the two integers are the same number.
    pub fn same(&self, other: &Integer) -> (b: bool)
        ensures
            b == (self@ == other@),
    {
        match self.compare(other) {
            Order::Equal => true,
            _ => false,
        }
    }

    /// The integer with the opposite sign.
    pub fn negate(&self) -> (r: Integer)
        ensures
            r@ == -self@,
    {
        proof {
            use_type_invariant(self);
        }
        let limbs = self.limbs.clone();
        assert(limbs@ =~= self.limbs@);
        Integer::signed(!self.negative, limbs)
    }

    /// The sum of the two integers.
    pub fn plus(&self, other: &Integer) -> (r: Integer)
        ensures
            r@ == self@ + other@,
    {
        proof {
            use_type_invariant(self);
            use_type_invariant(other);
        }
        if self.negative == other.negative {
            Integer::signed(self.negative, add_limbs(&self.limbs, &other.limbs))
        } else {
            match compare_limbs(&self.limbs, &other.limbs) {
                Order::Less => Integer::signed(
                    other.negative,
                    sub_limbs(&other.limbs, &self.limbs),
                ),
                _ => Integer::signed(self.negative, sub_limbs(&self.limbs, &other.limbs)),
            }
        }
    }

    /// The difference of the two integers.
    pub fn minus(&self, other: &Integer) -> (r: Integer)
        ensures
            r@ == self@ - other@,
    {
        let opposite = other.negate();
        self.plus(&opposite)
    }

    /// The product of the two integers.
    pub fn times(&self, other: &Integer) -> (r: Integer)
        ensures
            r@ == self@ * other@,
    {
        proof {
            use_type_invariant(self);
            use_type_invariant(other);
            let a = magnitude(self.limbs@) as int;
            let b = magnitude(other.limbs@) as int;
            assert((-a) * b == -(a * b)) by (nonlinear_arith);
            assert(a * (-b) == -(a * b)) by (nonlinear_arith);
            assert((-a) * (-b) == a * b) by (nonlinear_arith);
        }
        Integer::signed(self.negative != other.negative, mul_limbs(&self.limbs, &other.limbs))
    }

    /// The quotient and the remainder of the integer by `other`: the
    /// quotient rounded toward zero, the remainder with the sign of the
    /// dividend. There are none where `other` is zero.
    pub fn divided_by(&self, other: &Integer) -> (r: Option<(Integer, Integer)>)
        ensures
            match r {
                Some(pair) => other@ != 0 && pair.0@ == quotient(self@, other@) && pair.1@
                    == remainder(self@, other@),
                None => other@ == 0,
            },
    {
        if other.is_zero() {
            return None;
        }
        proof {
            use_type_invariant(self);
            use_type_invariant(other);
        }
        let (q, rest) = divide_limbs(&self.limbs, &other.limbs);
        proof {
            lemma_fundamental_div_mod_converse(
                magnitude(self.limbs@) as int,
                magnitude(other.limbs@) as int,
                magnitude(q@) as int,
                magnitude(rest@) as int,
            );
        }
        Some(
            (
                Integer::signed(self.negative != other.negative, q),
                Integer::signed(self.negative, rest),
            ),
        )
    }

    /// The integer that the decimal digits `chars[from..to]` write.
    pub(crate) fn read(chars: &Vec<char>, from: usize, to: usize) -> (r: Integer)
        requires
            from <= to <= chars.len(),
            forall|j: int| from <= j < to ==> #[trigger] is_digit(chars@[j]),
        ensures
            r@ == number_value(chars@, from as int, to as int),
    {
        let mut limbs: Vec<u32> = Vec::new();
        let mut i: usize = from;
        while i < to
            invariant
                from <= i <= to <= chars.len(),
                forall|j: int| from <= j < to ==> #[trigger] is_digit(chars@[j]),
                canonical(limbs@),
                magnitude(limbs@) == number_value(chars@, from as int, i as int),
            decreases to - i,
        {
            assert(is_digit(chars@[i as int]));
            let digit: u32 = chars[i] as u32 - '0' as u32;
            limbs = scale(&limbs, 10, digit);
            i += 1;
        }
        Integer::signed(false, limbs)
    }

    /// The integer that the decimal digits of `text` write; none where
    /// `text` holds anything but digits. The empty text writes zero.
    pub fn from_digits(text: &str) -> (r: Option<Integer>)
        ensures
            match r {
                Some(n) => n@ == number_value(text@, 0, text@.len() as int) && forall|j: int|
                    0 <= j < text@.len() ==> #[trigger] is_digit(text@[j]),
                None => exists|j: int| 0 <= j < text@.len() && !#[trigger] is_digit(text@[j]),
            },
    {
        let chars = characters(text);
        let mut i: usize = 0;
        while i < chars.len()
            invariant
                i <= chars.len(),
                chars@ == text@,
                forall|j: int| 0 <= j < i ==> #[trigger] is_digit(chars@[j]),
            decreases chars.len() - i,
        {
            if !('0' <= chars[i] && chars[i] <= '9') {
                assert(!is_digit(text@[i as int]));
                return None;
            }
            i += 1;
        }
        Some(Integer::read(&chars, 0, chars.len()))
    }

    /// The decimal notation of the integer.
    pub fn to_text(&self) -> (text: String)
        ensures
            text@ == signed_decimal(self@),
    {
        let mut text = String::new();
        self.append_to(&mut text);
        assert(text@ =~= signed_decimal(self@));
        text
    }

    /// Appends the decimal notation of the integer to `out`.
    pub fn append_to(&self, out: &mut String)
        ensures
            final(out)@ == old(out)@ + signed_decimal(self@),
    {
        proof {
            use_type_invariant(self);
            if self.limbs@.len() > 0 {
                lemma_magnitude_at_least_weight(self.limbs@);
                lemma_weight_positive((self.limbs@.len() - 1) as nat);
            }
        }
        if self.negative {
            push_char(out, '-');
            append_limbs(out, &self.limbs);
            assert(out@ =~= old(out)@ + signed_decimal(self@));
        } else {
            append_limbs(out, &self.limbs);
        }
    }
}

fn append_limbs(out: &mut String, limbs: &Vec<u32>)
    requires
        bounded(limbs@),
    ensures
        final(out)@ == old(out)@ + decimal(magnitude(limbs@)),
    decreases magnitude(limbs@),
{
    let (tens, unit) = div_small(limbs, 10);
    proof {
        lemma_fundamental_div_mod_converse(
            magnitude(limbs@) as int,
            10,
            magnitude(tens@) as int,
            unit as int,
        );
    }
    if tens.len() == 0 {
        proof {
            assert(magnitude(tens@) == 0);
        }
        push_char(out, digit(unit as u64));
        assert(out@ =~= old(out)@ + decimal(magnitude(limbs@)));
    } else {
        proof {
            lemma_magnitude_at_least_weight(tens@);
            lemma_weight_positive((tens@.len() - 1) as nat);
        }
        append_limbs(out, &tens);
        push_char(out, digit(unit as u64));
        assert(out@ =~= old(out)@ + decimal(magnitude(limbs@)));
    }
}

impl Clone for Integer {
    fn clone(&self) -> (r: Integer)
        ensures
            r@ == self@,
    {
        self.duplicate()
    }
}

impl Eq for Integer {

}

impl PartialEq for Integer {
    fn eq(&self, other: &Integer) -> (equal: bool) {
        self.same(other)
    }
}

impl vstd::std_specs::cmp::PartialEqSpecImpl for Integer {
    open spec fn obeys_eq_spec() -> bool {
        true
    }

    open spec fn eq_spec(&self, other: &Integer) -> bool {
        self@ == other@
    }
}

/// The quotient and the remainder make up the dividend.
pub proof fn lemma_quotient_and_remainder(a: int, b: int)
    requires
        b != 0,
    ensures
        a == b * quotient(a, b) + remainder(a, b),
{
    let divisor = if b > 0 {
        b
    } else {
        -b
    };
    let dividend = if a >= 0 {
        a
    } else {
        -a
    };
    vstd::arithmetic::div_mod::lemma_fundamental_div_mod(dividend, divisor);
    let q = dividend / divisor;
    assert(b * (-q) == -(b * q)) by (nonlinear_arith);
    assert((-b) * q == -(b * q)) by (nonlinear_arith);
    assert((-b) * (-q) == b * q) by (nonlinear_arith);
}

/// The remainder is smaller in magnitude than the divisor and has the sign
/// of the dividend.
pub proof fn lemma_remainder_bounds(a: int, b: int)
    requires
        b != 0,
    ensures
        a >= 0 ==> 0 <= remainder(a, b) <= a,
        a < 0 ==> a <= remainder(a, b) <= 0,
        b > 0 ==> -b < remainder(a, b) < b,
        b < 0 ==> b < remainder(a, b) < -b,
{
    let divisor = if b > 0 {
        b
    } else {
        -b
    };
    let dividend = if a >= 0 {
        a
    } else {
        -a
    };
    vstd::arithmetic::div_mod::lemma_mod_bound(dividend, divisor);
    vstd::arithmetic::div_mod::lemma_mod_decreases(dividend as nat, divisor as nat);
}

} // verus!
