//! Numbers of single precision, reckoned with in whole digits.
//!
//! A number is its digits times a power of two. Its digits are twenty-four binary
//! places at most, and what does not fit is rounded to the nearest, to the even one of
//! two that are as near. The powers of two have no bounds here: nothing that a table
//! is reckoned with comes near those of the machine.
use vstd::prelude::*;

verus! {

/// One more than the most digits below a full word of twenty-four places.
pub const FULL: i64 = 0x100_0000;

/// The least digits of a full word.
pub const HALF: i64 = 0x80_0000;

/// A number of single precision.
pub ghost struct Value {
    pub digits: int,
    pub shift: int,
}

/// A power of two.
pub open spec fn two_to(n: nat) -> int
    decreases n,
{
    if n == 0 {
        1
    } else {
        2 * two_to((n - 1) as nat)
    }
}

/// A quotient to the nearest whole number, to the even one of two that are as near.
pub open spec fn nearest_even(over: int, under: int) -> int {
    let low = over / under;
    let rest = over % under;
    if 2 * rest < under {
        low
    } else if 2 * rest > under {
        low + 1
    } else {
        low + low % 2
    }
}

/// The same number further up by a power of two.
pub open spec fn shifted(value: Value, by: int) -> Value {
    Value { shift: value.shift + by, ..value }
}

/// A quotient below a full word, rounded: it is doubled until it fills one.
pub open spec fn finer(over: int, under: int) -> Value
    decreases
            if over < HALF * under {
                HALF * under - over
            } else {
                0
            },
{
    if over <= 0 || over >= HALF * under {
        Value { digits: nearest_even(over, under), shift: 0 }
    } else {
        shifted(finer(2 * over, under), -1)
    }
}

/// A quotient above a full word, rounded: it is halved until it fits in one.
pub open spec fn coarser(over: int, under: int) -> Value
    decreases
            if over >= FULL * under {
                1 + over - FULL * under
            } else {
                0
            },
{
    if under <= 0 || over < FULL * under {
        Value { digits: nearest_even(over, under), shift: 0 }
    } else {
        shifted(coarser(over, 2 * under), 1)
    }
}

/// The same number with its sign turned where `turn` says so.
pub open spec fn turned(value: Value, turn: bool) -> Value {
    if turn {
        Value { digits: -value.digits, ..value }
    } else {
        value
    }
}

pub open spec fn size(number: int) -> int {
    if number < 0 {
        -number
    } else {
        number
    }
}

/// A whole number.
pub open spec fn whole(number: int) -> Value {
    turned(coarser(size(number), 1), number < 0)
}

pub open spec fn quotient(one: Value, two: Value) -> Value {
    if one.digits == 0 {
        Value { digits: 0, shift: 0 }
    } else {
        shifted(
            turned(finer(size(one.digits), two.digits), one.digits < 0),
            one.shift - two.shift,
        )
    }
}

pub open spec fn product(one: Value, two: Value) -> Value {
    shifted(whole(one.digits * two.digits), one.shift + two.shift)
}

pub open spec fn lower(one: int, two: int) -> int {
    if one < two {
        one
    } else {
        two
    }
}

/// The digits of a number, counted from a lower power of two on.
pub open spec fn from_shift(value: Value, shift: int) -> int {
    value.digits * two_to((value.shift - shift) as nat)
}

pub open spec fn sum(one: Value, two: Value) -> Value {
    let low = lower(one.shift, two.shift);
    shifted(whole(from_shift(one, low) + from_shift(two, low)), low)
}

pub open spec fn difference(one: Value, two: Value) -> Value {
    sum(one, turned(two, true))
}

pub open spec fn less(one: Value, two: Value) -> bool {
    let low = lower(one.shift, two.shift);
    from_shift(one, low) < from_shift(two, low)
}

/// The nearest whole number that is not negative, the greater of two that are as near;
/// as great as the machine has one.
pub open spec fn to_count(value: Value) -> u32 {
    let count = if value.digits < 0 {
        0
    } else if value.shift >= 0 {
        value.digits * two_to(value.shift as nat)
    } else {
        (2 * value.digits + two_to((-value.shift) as nat)) / (2 * two_to((-value.shift) as nat))
    };
    if count > u32::MAX {
        u32::MAX
    } else {
        count as u32
    }
}

// --- powers of two ------------------------------------------------------------------

pub proof fn powers_add(one: nat, two: nat)
    ensures
        two_to(one + two) == two_to(one) * two_to(two),
        two_to(one) >= 1,
        two_to(two) >= 1,
    decreases one,
{
    if one > 0 {
        powers_add((one - 1) as nat, two);
        let a = two_to((one - 1) as nat);
        let b = two_to(two);
        assert((2 * a) * b == 2 * (a * b)) by (nonlinear_arith);
    } else {
        powers_are_some(two);
    }
}

proof fn powers_are_some(n: nat)
    ensures
        two_to(n) >= 1,
    decreases n,
{
    if n > 0 {
        powers_are_some((n - 1) as nat);
    }
}

pub proof fn powers_rise(one: nat, two: nat)
    requires
        one <= two,
    ensures
        1 <= two_to(one) <= two_to(two),
{
    let more = (two - one) as nat;
    powers_add(one, more);
    powers_are_some(more);
    assert(two_to(one) <= two_to(one) * two_to(more)) by (nonlinear_arith)
        requires
            two_to(one) >= 1,
            two_to(more) >= 1,
    ;
}

pub proof fn some_powers()
    ensures
        two_to(1) == 2,
        two_to(2) == 4,
        two_to(6) == 64,
        two_to(8) == 256,
        two_to(16) == 0x1_0000,
        two_to(23) == HALF,
        two_to(24) == FULL,
        two_to(25) == 2 * FULL,
        two_to(32) == 0x1_0000_0000,
        two_to(48) == 0x1_0000_0000_0000,
        two_to(96) == 0x1_0000_0000_0000_0000_0000_0000,
{
    reveal_with_fuel(two_to, 9);
    assert(two_to(8) == 256);
    powers_add(8, 8);
    assert(two_to(16) == 0x1_0000);
    powers_add(16, 7);
    powers_add(16, 8);
    powers_add(24, 1);
    powers_add(16, 16);
    powers_add(24, 24);
    powers_add(48, 48);
    let word = two_to(24);
    assert(word == 0x100_0000);
    assert(word * word == 0x1_0000_0000_0000) by (nonlinear_arith)
        requires
            word == 0x100_0000,
    ;
    let long = two_to(48);
    assert(long * long == 0x1_0000_0000_0000_0000_0000_0000) by (nonlinear_arith)
        requires
            long == 0x1_0000_0000_0000,
    ;
}

// --- how far rounding goes ----------------------------------------------------------

proof fn nearest_is_near(over: int, under: int, most: int)
    requires
        0 <= over,
        0 < under,
        over < most * under,
    ensures
        0 <= over / under <= nearest_even(over, under) <= most,
{
    assert(0 <= over / under < most && 0 <= over % under < under) by (nonlinear_arith)
        requires
            0 <= over,
            0 < under,
            over < most * under,
    ;
}

/// A number that is halved has the digits of a full word at most, and is not halved
/// more often than it takes.
pub proof fn coarser_fits(over: int, under: int, j: nat)
    requires
        0 <= over,
        0 < under,
        over < FULL * (under * two_to(j)),
    ensures
        0 <= coarser(over, under).shift <= j,
        0 <= coarser(over, under).digits <= FULL,
        over >= HALF * under ==> coarser(over, under).digits >= HALF,
    decreases j,
{
    if over >= FULL * under {
        if j == 0 {
            assert(under * 1 == under);
        } else {
            let less = two_to((j - 1) as nat);
            assert(under * (2 * less) == (2 * under) * less) by (nonlinear_arith);
            coarser_fits(over, 2 * under, (j - 1) as nat);
        }
    } else {
        nearest_is_near(over, under, FULL as int);
        if over >= HALF * under {
            assert(over / under >= HALF) by (nonlinear_arith)
                requires
                    over >= HALF * under,
                    under > 0,
            ;
        }
    }
}

/// A number that is much above a full word is halved often.
pub proof fn coarser_halves(over: int, under: int, j: nat)
    requires
        0 < under,
        over >= HALF * (under * two_to(j)),
        exists|k: nat| over < FULL * (under * two_to(k)),
    ensures
        coarser(over, under).shift >= j,
    decreases j,
{
    let k = choose|k: nat| over < FULL * (under * two_to(k));
    powers_are_some(j);
    assert(0 <= HALF * (under * two_to(j))) by (nonlinear_arith)
        requires
            under > 0,
            two_to(j) >= 1,
    ;
    if j == 0 {
        coarser_fits(over, under, k);
    } else {
        let less = two_to((j - 1) as nat);
        powers_are_some((j - 1) as nat);
        assert(HALF * (under * (2 * less)) == FULL * (under * less)) by (nonlinear_arith);
        assert(FULL * (under * less) >= FULL * under) by (nonlinear_arith)
            requires
                under > 0,
                less >= 1,
        ;
        assert(over >= FULL * under);
        assert(k > 0) by {
            if k == 0 {
                assert(under * 1 == under);
            }
        }
        let fewer = two_to((k - 1) as nat);
        assert(under * (2 * fewer) == (2 * under) * fewer) by (nonlinear_arith);
        assert(over < FULL * ((2 * under) * two_to((k - 1) as nat)));
        assert(HALF * (under * (2 * less)) == HALF * ((2 * under) * less)) by (nonlinear_arith);
        coarser_halves(over, 2 * under, (j - 1) as nat);
    }
}

/// A quotient that is doubled fills a full word, and is not doubled more often than it
/// takes.
pub proof fn finer_fits(over: int, under: int, j: nat)
    requires
        0 < over <= FULL * under,
        0 < under,
        HALF * under <= over * two_to(j),
    ensures
        -(j as int) <= finer(over, under).shift <= 0,
        HALF <= finer(over, under).digits <= FULL,
    decreases j,
{
    if over < HALF * under {
        if j == 0 {
            assert(over * 1 == over);
        } else {
            let less = two_to((j - 1) as nat);
            assert(over * (2 * less) == (2 * over) * less) by (nonlinear_arith);
            finer_fits(2 * over, under, (j - 1) as nat);
        }
    } else {
        if over == FULL * under {
            assert(over / under == FULL && over % under == 0) by (nonlinear_arith)
                requires
                    over == FULL * under,
                    under > 0,
            ;
        } else {
            nearest_is_near(over, under, FULL as int);
            assert(over / under >= HALF) by (nonlinear_arith)
                requires
                    over >= HALF * under,
                    under > 0,
            ;
        }
    }
}

/// What is no more than one is doubled often.
pub proof fn finer_doubles(over: int, under: int, j: nat)
    requires
        0 < over,
        over * two_to(j) <= HALF * under,
        0 < under,
    ensures
        finer(over, under).shift <= -(j as int),
    decreases j,
{
    powers_are_some(j);
    if over >= HALF * under {
        if j > 0 {
            let less = two_to((j - 1) as nat);
            powers_are_some((j - 1) as nat);
            assert(over * (2 * less) >= 2 * over) by (nonlinear_arith)
                requires
                    over > 0,
                    less >= 1,
            ;
        }
    } else if j > 0 {
        let less = two_to((j - 1) as nat);
        assert(over * (2 * less) == (2 * over) * less) by (nonlinear_arith);
        finer_doubles(2 * over, under, (j - 1) as nat);
    } else {
        finer_is_low(over, under);
    }
}

/// How often a whole number is halved.
pub proof fn filled_product(number: int, least: nat, most: nat)
    requires
        least == 0 || number >= HALF * two_to(least),
        0 <= number < FULL * two_to(most),
    ensures
        least <= whole(number).shift <= most,
        number == 0 ==> whole(number) == (Value { digits: 0, shift: 0 }),
        number >= HALF ==> whole(number).digits >= HALF,
{
    assert(1 * two_to(most) == two_to(most));
    assert(1 * two_to(least) == two_to(least));
    assert(number < FULL * (1 * two_to(most)));
    coarser_fits(number, 1, most);
    if least > 0 {
        coarser_halves(number, 1, least);
    }
}

/// A full word of digits that is no more than a hundred.
pub proof fn no_more_than_a_hundred(value: Value)
    requires
        HALF <= value.digits <= FULL,
        -41 <= value.shift,
        !less(whole(100), value),
    ensures
        value.shift <= -17,
{
    some_powers();
    a_whole_number_stays(100);
    assert(whole(100) == (Value { digits: 100, shift: 0 }));
    if value.shift >= 0 {
        let p = two_to(value.shift as nat);
        powers_are_some(value.shift as nat);
        let d = value.digits;
        assert(d * p >= HALF) by (nonlinear_arith)
            requires
                d >= HALF,
                p >= 1,
        ;
        assert(from_shift(whole(100), 0) == 100 * two_to(0));
        assert(from_shift(value, 0) == d * p);
    } else if value.shift > -17 {
        let by = (-value.shift) as nat;
        powers_rise(by, 16);
        assert(two_to(0) == 1);
        assert(from_shift(value, value.shift) == value.digits * 1);
        assert(from_shift(whole(100), value.shift) == 100 * two_to(by));
    }
}

proof fn finer_is_low(over: int, under: int)
    ensures
        finer(over, under).shift <= 0,
    decreases
            if over < HALF * under {
                HALF * under - over
            } else {
                0
            },
{
    if 0 < over < HALF * under {
        finer_is_low(2 * over, under);
    }
}

// --- reckoning ----------------------------------------------------------------------

/// A number of single precision: its digits times a power of two.
#[derive(Clone, Copy, Debug, PartialEq, Eq, Structural)]
pub struct Single {
    pub digits: i64,
    pub shift: i32,
}

impl View for Single {
    type V = Value;

    open spec fn view(&self) -> Value {
        Value { digits: self.digits as int, shift: self.shift as int }
    }
}

impl Single {
    /// The digits fit in a full word, and the power of two lies between two others.
    pub open spec fn within(self, least: int, most: int) -> bool {
        -FULL <= self.digits <= FULL && least <= self.shift <= most
    }
}

fn to_nearest(over: u128, under: u128) -> (out: u128)
    requires
        0 < under <= 0x1_0000_0000_0000_0000_0000_0000,
        over < 0x100_0000_0000_0000_0000_0000_0000_0000,
    ensures
        out == nearest_even(over as int, under as int),
{
    let low: u128 = over / under;
    let rest: u128 = over % under;
    assert(0 <= low <= over) by (nonlinear_arith)
        requires
            low == over / under,
            under > 0,
            over >= 0,
    ;
    if 2 * rest < under {
        low
    } else if 2 * rest > under {
        low + 1
    } else {
        low + low % 2
    }
}

fn halved(over: u128) -> (out: Single)
    requires
        over < FULL * two_to(96),
    ensures
        out@ == coarser(over as int, 1),
        out.within(0, 96),
        out.digits >= 0,
{
    proof {
        some_powers();
        coarser_fits(over as int, 1, 96);
    }
    let mut under: u128 = 1;
    let mut shift: i32 = 0;
    while over >= 0x100_0000 * under
        invariant
            0 <= shift <= 96,
            under == two_to(shift as nat),
            over < FULL * two_to(96),
            1 <= under <= two_to(96) == 0x1_0000_0000_0000_0000_0000_0000,
            coarser(over as int, 1) == shifted(coarser(over as int, under as int), shift as int),
        decreases 96 - shift,
    {
        proof {
            if shift == 96 {
                assert(false);
            }
            powers_rise((shift + 1) as nat, 96);
        }
        under = under * 2;
        shift = shift + 1;
    }
    let digits: u128 = to_nearest(over, under);
    Single { digits: digits as i64, shift }
}

fn doubled(over: u128, under: u128) -> (out: Single)
    requires
        0 < over <= FULL,
        0 < under <= FULL,
    ensures
        out@ == finer(over as int, under as int),
        out.within(-47, 0),
        out.digits >= HALF,
{
    proof {
        some_powers();
        powers_add(24, 23);
        assert(two_to(47) == FULL * HALF);
        assert(HALF * under <= over * two_to(47)) by (nonlinear_arith)
            requires
                0 < over,
                0 < under <= FULL,
                two_to(47) == FULL * HALF,
        ;
        assert(over <= FULL * under) by (nonlinear_arith)
            requires
                over <= FULL,
                under >= 1,
        ;
        finer_fits(over as int, under as int, 47);
    }
    let mut more: u128 = over;
    let mut shift: i32 = 0;
    while more < 0x80_0000 * under
        invariant
            0 < more <= FULL * FULL,
            0 < under <= FULL,
            finer(over as int, under as int) == shifted(
                finer(more as int, under as int),
                shift as int,
            ),
            -47 <= shift <= 0,
            finer(over as int, under as int).shift >= -47,
        decreases 47 + shift,
    {
        proof {
            finer_is_low(2 * more, under as int);
        }
        more = 2 * more;
        shift = shift - 1;
    }
    let digits: u128 = to_nearest(more, under);
    Single { digits: digits as i64, shift }
}

/// A whole number.
pub fn of_whole(number: i64) -> (out: Single)
    requires
        -0xffff_ffff <= number <= 0xffff_ffff,
    ensures
        out@ == whole(number as int),
        out.within(0, 8),
        number > 0 ==> out.digits > 0,
        -FULL < number < FULL ==> out.digits == number && out.shift == 0,
{
    let turn: bool = number < 0;
    let over: u128 = if turn {
        (-number) as u128
    } else {
        number as u128
    };
    proof {
        some_powers();
        powers_add(24, 8);
        assert(over < FULL * (1 * two_to(8)));
        coarser_fits(over as int, 1, 8);
        a_whole_number_stays(over as int);
    }
    let out = halved(over);
    if turn {
        Single { digits: -out.digits, shift: out.shift }
    } else {
        out
    }
}

/// A whole number that fits in a full word is its own digits.
pub proof fn a_whole_number_stays(number: int)
    requires
        0 <= number,
    ensures
        number < FULL ==> coarser(number, 1) == (Value { digits: number, shift: 0 }),
        number >= FULL && (exists|k: nat| number < FULL * (1 * two_to(k))) ==> coarser(
            number,
            1,
        ).digits >= HALF,
{
    if number >= FULL && (exists|k: nat| number < FULL * (1 * two_to(k))) {
        let k = choose|k: nat| number < FULL * (1 * two_to(k));
        coarser_fits(number, 1, k);
    }
}

/// One number over another.
pub fn over(one: Single, two: Single) -> (out: Single)
    requires
        one.within(-400, 400),
        two.within(-400, 400),
        two.digits > 0,
    ensures
        out@ == quotient(one@, two@),
        one.digits == 0 ==> out.digits == 0 && out.shift == 0,
        one.digits != 0 ==> out.within(one.shift - two.shift - 47, one.shift - two.shift),
        one.digits > 0 ==> out.digits >= HALF,
        out.within(-2000, 2000),
{
    if one.digits == 0 {
        return Single { digits: 0, shift: 0 };
    }
    let turn: bool = one.digits < 0;
    let top: u128 = if turn {
        (-one.digits) as u128
    } else {
        one.digits as u128
    };
    let out = doubled(top, two.digits as u128);
    let digits: i64 = if turn {
        -out.digits
    } else {
        out.digits
    };
    Single { digits, shift: out.shift + (one.shift - two.shift) }
}

/// One number times another.
pub fn times(one: Single, two: Single) -> (out: Single)
    requires
        one.within(-400, 400),
        two.within(-400, 400),
    ensures
        out@ == product(one@, two@),
        out.within(one.shift + two.shift, one.shift + two.shift + 25),
        one.digits >= 0 && two.digits >= 0 ==> out.digits >= 0,
{
    let a: i128 = one.digits as i128;
    let b: i128 = two.digits as i128;
    assert(-(FULL * FULL) <= a * b <= FULL * FULL) by (nonlinear_arith)
        requires
            -FULL <= a <= FULL,
            -FULL <= b <= FULL,
    ;
    assert(one.digits >= 0 && two.digits >= 0 ==> a * b >= 0) by (nonlinear_arith)
        requires
            a == one.digits,
            b == two.digits,
    ;
    let both: i128 = a * b;
    let turn: bool = both < 0;
    let top: u128 = if turn {
        (-both) as u128
    } else {
        both as u128
    };
    proof {
        some_powers();
        assert(top < FULL * (1 * two_to(25)));
        coarser_fits(top as int, 1, 25);
        powers_rise(25, 96);
    }
    let out = halved(top);
    let digits: i64 = if turn {
        -out.digits
    } else {
        out.digits
    };
    Single { digits, shift: out.shift + (one.shift + two.shift) }
}

/// The digits of a number, counted from a lower power of two on.
fn lowered(one: Single, shift: i32) -> (out: i128)
    requires
        one.within(-400, 400),
        -400 <= shift <= one.shift <= shift + 95,
    ensures
        out == from_shift(one@, shift as int),
        -(FULL * two_to((one.shift - shift) as nat)) <= out <= FULL * two_to(
            (one.shift - shift) as nat,
        ),
        -(FULL * two_to(95)) <= out <= FULL * two_to(95),
        one.digits >= 0 ==> out >= 0,
{
    let by: i32 = one.shift - shift;
    let mut out: i128 = one.digits as i128;
    let mut k: i32 = 0;
    proof {
        some_powers();
        powers_add(95, 1);
        powers_rise(by as nat, 95);
        let p = two_to(by as nat);
        let d = one.digits as int;
        assert(-(FULL * p) <= d * p <= FULL * p) by (nonlinear_arith)
            requires
                -FULL <= d <= FULL,
                p >= 1,
        ;
        assert(d >= 0 ==> d * p >= 0) by (nonlinear_arith)
            requires
                p >= 1,
        ;
    }
    while k < by
        invariant
            0 <= k <= by <= 95,
            one.within(-400, 400),
            out == one.digits * two_to(k as nat),
            2 * two_to(95) == 0x1_0000_0000_0000_0000_0000_0000,
        decreases by - k,
    {
        proof {
            powers_rise((k + 1) as nat, 95);
            let p = two_to(k as nat);
            let d = one.digits as int;
            assert(two_to((k + 1) as nat) == 2 * p);
            assert(2 * (d * p) == d * (2 * p)) by (nonlinear_arith);
            assert(-(FULL * (2 * p)) <= d * (2 * p) <= FULL * (2 * p)) by (nonlinear_arith)
                requires
                    -FULL <= d <= FULL,
                    p >= 1,
            ;
        }
        out = 2 * out;
        k += 1;
    }
    out
}

pub open spec fn higher(one: int, two: int) -> int {
    if one < two {
        two
    } else {
        one
    }
}

/// One number and another.
pub fn plus(one: Single, two: Single) -> (out: Single)
    requires
        one.within(-400, 400),
        two.within(-400, 400),
        -95 <= one.shift - two.shift <= 95,
    ensures
        out@ == sum(one@, two@),
        out.within(
            lower(one.shift as int, two.shift as int),
            higher(one.shift as int, two.shift as int) + 2,
        ),
        one.digits >= 0 && two.digits >= 0 ==> out.digits >= 0,
{
    let low: i32 = if one.shift < two.shift {
        one.shift
    } else {
        two.shift
    };
    let a: i128 = lowered(one, low);
    let b: i128 = lowered(two, low);
    proof {
        some_powers();
        powers_add(95, 1);
    }
    let both: i128 = a + b;
    let turn: bool = both < 0;
    let top: u128 = if turn {
        (-both) as u128
    } else {
        both as u128
    };
    proof {
        let far = (higher(one.shift as int, two.shift as int) - low) as nat;
        powers_rise((one.shift - low) as nat, far);
        powers_rise((two.shift - low) as nat, far);
        powers_add(far, 2);
        assert(two_to(far + 2) == 4 * two_to(far));
        assert(top < FULL * (1 * two_to(far + 2)));
        coarser_fits(top as int, 1, far + 2);
    }
    let out = halved(top);
    let digits: i64 = if turn {
        -out.digits
    } else {
        out.digits
    };
    Single { digits, shift: out.shift + low }
}

/// One number without another.
pub fn minus(one: Single, two: Single) -> (out: Single)
    requires
        one.within(-400, 400),
        two.within(-400, 400),
        -95 <= one.shift - two.shift <= 95,
    ensures
        out@ == difference(one@, two@),
        out.within(
            lower(one.shift as int, two.shift as int),
            higher(one.shift as int, two.shift as int) + 2,
        ),
{
    plus(one, Single { digits: -two.digits, shift: two.shift })
}

/// Whether one number is less than another.
pub fn is_less(one: Single, two: Single) -> (out: bool)
    requires
        one.within(-400, 400),
        two.within(-400, 400),
        -95 <= one.shift - two.shift <= 95,
    ensures
        out == less(one@, two@),
{
    let low: i32 = if one.shift < two.shift {
        one.shift
    } else {
        two.shift
    };
    lowered(one, low) < lowered(two, low)
}

/// The nearest whole number that is not negative.
pub fn count_of(value: Single) -> (out: u32)
    requires
        value.within(-2000, 2000),
    ensures
        out == to_count(value@),
{
    if value.digits <= 0 {
        proof {
            nothing_is_none(value@);
        }
        return 0;
    }
    proof {
        some_powers();
    }
    if value.shift >= 0 {
        if value.shift >= 32 {
            proof {
                powers_rise(32, value.shift as nat);
                let p = two_to(value.shift as nat);
                let d = value.digits as int;
                assert(d * p >= p) by (nonlinear_arith)
                    requires
                        d >= 1,
                        p >= 1,
                ;
            }
            return 0xffff_ffff;
        }
        let mut out: u64 = value.digits as u64;
        let mut k: i32 = 0;
        while k < value.shift
            invariant
                0 <= k <= value.shift <= 32,
                value.within(-2000, 2000),
                value.digits > 0,
                out == value.digits * two_to(k as nat),
                two_to(32) == 0x1_0000_0000,
            decreases value.shift - k,
        {
            proof {
                powers_rise((k + 1) as nat, 32);
                let p = two_to(k as nat);
                let d = value.digits as int;
                assert(two_to((k + 1) as nat) == 2 * p);
                assert(2 * (d * p) == d * (2 * p)) by (nonlinear_arith);
                assert(d * (2 * p) <= FULL * (2 * p)) by (nonlinear_arith)
                    requires
                        d <= FULL,
                        p >= 1,
                ;
            }
            out = 2 * out;
            k += 1;
        }
        if out > 0xffff_ffff {
            0xffff_ffff
        } else {
            out as u32
        }
    } else {
        let by: i32 = -value.shift;
        if by >= 26 {
            proof {
                powers_rise(26, by as nat);
                powers_add(25, 1);
                let p = two_to(by as nat);
                let d = value.digits as int;
                assert((2 * d + p) / (2 * p) == 0) by (nonlinear_arith)
                    requires
                        0 <= d,
                        2 * d < p,
                ;
            }
            return 0;
        }
        let mut under: u64 = 1;
        let mut k: i32 = 0;
        while k < by
            invariant
                0 <= k <= by <= 25,
                under == two_to(k as nat),
                two_to(25) == 2 * FULL,
                1 <= under <= 2 * FULL,
            decreases by - k,
        {
            proof {
                powers_rise((k + 1) as nat, 25);
            }
            under = 2 * under;
            k += 1;
        }
        let out: u64 = (2 * value.digits as u64 + under) / (2 * under);
        assert(out <= 2 * FULL + 2 * FULL) by (nonlinear_arith)
            requires
                out == (2 * value.digits + under) / (2 * (under as int)),
                1 <= under <= 2 * FULL,
                0 <= value.digits <= FULL,
        ;
        out as u32
    }
}

proof fn nothing_is_none(value: Value)
    requires
        value.digits <= 0,
    ensures
        to_count(value) == 0,
{
    if value.digits == 0 {
        if value.shift >= 0 {
            assert(0 * two_to(value.shift as nat) == 0);
        } else {
            let p = two_to((-value.shift) as nat);
            powers_are_some((-value.shift) as nat);
            assert(p / (2 * p) == 0) by (nonlinear_arith)
                requires
                    p >= 1,
            ;
        }
    }
}

} // verus!
