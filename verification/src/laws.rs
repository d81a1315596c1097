//! What holds of the pool's operations whatever the amounts: how a swap
//! moves the product of the reserves, what a withdrawal pays out, and what a
//! deposit that is withdrawn again gives back.

use vstd::prelude::*;
use crate::asset::BucketView;
use crate::error::DexError;
use crate::fixed::{fx_div, fx_mul, limit, UNIT};
use crate::pool::{
    add_error, after_add, after_remove, after_swap, create_error, created_pool, input_reserve, lp_share,
    minted, output_reserve, ratio_a, ratio_b, redeemed_a, redeemed_b, remove_error, swap_error, swap_output,
    swap_quote, taken_a, taken_b, PoolState,
};
use crate::rounding::{lemma_fx_div_bounds, lemma_fx_mul_bounds, lemma_fx_mul_fraction};

verus! {

/// The product of the two reserves.
pub open spec fn reserve_product(s: PoolState) -> int {
    s.reserve_a * s.reserve_b
}

/// Whether the fee kept back on the input reserve makes up for what is cut
/// off when the fee is applied to the input: `(1 - swap_fee) * reserve_in`
/// is at least the part of `swap_fee * input` below one step. This holds of
/// every input where the fee is one, and where `(1 - swap_fee) * reserve_in`
/// comes to a whole step or more.
pub open spec fn rounding_covered(reserve_in: int, swap_fee: int, input: int) -> bool {
    (UNIT - swap_fee) * reserve_in >= (swap_fee * input) % (UNIT as int)
}

/// As `rounding_covered`, with something to spare.
pub open spec fn rounding_well_covered(reserve_in: int, swap_fee: int, input: int) -> bool {
    (UNIT - swap_fee) * reserve_in > (swap_fee * input) % (UNIT as int)
}

/// A quote times its divisor is at most the exact product of the output
/// reserve, the fee and the input.
pub proof fn lemma_quote_bound(reserve_in: int, reserve_out: int, swap_fee: int, input: int)
    requires
        reserve_in >= 0,
        reserve_out >= 0,
        0 <= swap_fee <= UNIT,
        input >= 0,
        reserve_in + fx_mul(swap_fee, input) > 0,
    ensures
        0 <= swap_quote(reserve_in, reserve_out, swap_fee, input),
        swap_quote(reserve_in, reserve_out, swap_fee, input) * (reserve_in + fx_mul(swap_fee, input)) * UNIT
            <= reserve_out * swap_fee * input,
{
    let (x, y, f, d) = (reserve_in, reserve_out, swap_fee, input);
    let e = UNIT as int;
    let t1 = fx_mul(y, f);
    let t2 = fx_mul(t1, d);
    let den = x + fx_mul(f, d);
    let out = fx_div(t2, den);
    lemma_fx_mul_bounds(y, f);
    lemma_fx_mul_bounds(t1, d);
    lemma_fx_div_bounds(t2, den);
    assert(out * den * e <= t2 * e * e) by (nonlinear_arith)
        requires
            out * den <= t2 * e,
            e > 0,
    ;
    assert(t2 * e * e <= t1 * d * e) by (nonlinear_arith)
        requires
            t2 * e <= t1 * d,
            e > 0,
    ;
    assert(t1 * d * e <= y * f * d) by (nonlinear_arith)
        requires
            t1 * e <= y * f,
            d >= 0,
    ;
}

/// A swap whose rounding is covered pays out no more than the part of the
/// output reserve that the input makes up of the input reserve once it is
/// in: `input / (reserve_in + input)`. That is what a swap without a fee
/// pays out before rounding.
pub proof fn lemma_quote_fair(reserve_in: int, reserve_out: int, swap_fee: int, input: int)
    requires
        reserve_in >= 0,
        reserve_out >= 0,
        0 <= swap_fee <= UNIT,
        input >= 0,
        reserve_in + fx_mul(swap_fee, input) > 0,
        rounding_covered(reserve_in, swap_fee, input),
    ensures
        0 <= swap_quote(reserve_in, reserve_out, swap_fee, input),
        (reserve_in + input) * swap_quote(reserve_in, reserve_out, swap_fee, input) <= input * reserve_out,
        rounding_well_covered(reserve_in, swap_fee, input) && input > 0 && reserve_out > 0 ==> (reserve_in
            + input) * swap_quote(reserve_in, reserve_out, swap_fee, input) < input * reserve_out,
{
    let (x, y, f, d) = (reserve_in, reserve_out, swap_fee, input);
    let e = UNIT as int;
    let t3 = fx_mul(f, d);
    let den = x + t3;
    let out = swap_quote(x, y, f, d);
    let rem = (f * d) % e;
    lemma_quote_bound(x, y, f, d);
    lemma_fx_mul_bounds(f, d);
    lemma_fx_mul_bounds(y, f);
    lemma_fx_mul_bounds(fx_mul(y, f), d);
    assert(f * (x + d) <= e * den) by (nonlinear_arith)
        requires
            t3 * e + rem == f * d,
            (e - f) * x >= rem,
            den == x + t3,
    ;
    if f == 0 {
        assert(y * f == 0) by (nonlinear_arith)
            requires
                f == 0,
        ;
        assert(fx_mul(y, f) == 0);
        assert(fx_mul(y, f) * d == 0) by (nonlinear_arith)
            requires
                fx_mul(y, f) == 0,
        ;
        assert(fx_mul(fx_mul(y, f), d) == 0);
        assert(0 * e == 0);
        assert(out == 0) by (nonlinear_arith)
            requires
                out == (0 * e) / den,
                den > 0,
        ;
        assert((x + d) * out == 0) by (nonlinear_arith)
            requires
                out == 0,
        ;
        assert(d * y >= 0) by (nonlinear_arith)
            requires
                d >= 0,
                y >= 0,
        ;
        assert(d > 0 && y > 0 ==> d * y > 0) by (nonlinear_arith);
    } else {
        assert(f * ((x + d) * out) <= f * (d * y)) by (nonlinear_arith)
            requires
                f * (x + d) <= e * den,
                out * den * e <= y * f * d,
                out >= 0,
        ;
        assert((x + d) * out <= d * y) by (nonlinear_arith)
            requires
                f * ((x + d) * out) <= f * (d * y),
                f > 0,
        ;
        if rounding_well_covered(x, f, d) && d > 0 && y > 0 {
            assert(f * (x + d) < e * den) by (nonlinear_arith)
                requires
                    t3 * e + rem == f * d,
                    (e - f) * x > rem,
                    den == x + t3,
            ;
            if out > 0 {
                assert(f * ((x + d) * out) < f * (d * y)) by (nonlinear_arith)
                    requires
                        f * (x + d) < e * den,
                        out * den * e <= y * f * d,
                        out > 0,
                ;
                assert((x + d) * out < d * y) by (nonlinear_arith)
                    requires
                        f * ((x + d) * out) < f * (d * y),
                        f > 0,
                ;
            } else {
                assert((x + d) * out == 0) by (nonlinear_arith)
                    requires
                        out == 0,
                ;
                assert(d * y > 0) by (nonlinear_arith)
                    requires
                        d > 0,
                        y > 0,
                ;
            }
        }
    }
}

/// Conservation. A swap that the pool carries out, and whose rounding is
/// covered, does not lower the product of the reserves. The product rises
/// where the input and the output reserve are positive and the rounding is
/// covered with something to spare, which takes a fee below one.
pub proof fn lemma_swap_keeps_product(s: PoolState, input: BucketView)
    requires
        s.wf(),
        swap_error(s, input) is None,
        rounding_covered(input_reserve(s, input), s.swap_fee, input.amount),
    ensures
        after_swap(s, input).wf(),
        reserve_product(after_swap(s, input)) >= reserve_product(s),
        rounding_well_covered(input_reserve(s, input), s.swap_fee, input.amount) && input.amount > 0
            && output_reserve(s, input) > 0 ==> reserve_product(after_swap(s, input)) > reserve_product(
            s,
        ),
{
    let x = input_reserve(s, input);
    let y = output_reserve(s, input);
    let d = input.amount;
    let out = swap_output(s, input);
    lemma_fx_mul_fraction(d, s.swap_fee);
    lemma_quote_fair(x, y, s.swap_fee, d);
    assert((x + d) * (y - out) == x * y + d * y - (x + d) * out) by (nonlinear_arith);
    if input.resource == s.asset_a {
        assert(reserve_product(after_swap(s, input)) == (x + d) * (y - out));
        assert(reserve_product(s) == x * y);
    } else {
        assert(reserve_product(after_swap(s, input)) == (y - out) * (x + d));
        assert((y - out) * (x + d) == (x + d) * (y - out)) by (nonlinear_arith);
        assert(reserve_product(s) == y * x);
        assert(y * x == x * y) by (nonlinear_arith);
    }
}

/// The pool after a run of swaps, one after the other. A swap that the pool
/// turns down leaves it as it was.
pub open spec fn after_swaps(s: PoolState, inputs: Seq<BucketView>) -> PoolState
    decreases inputs.len(),
{
    if inputs.len() == 0 {
        s
    } else {
        let before = after_swaps(s, inputs.drop_last());
        if swap_error(before, inputs.last()) is None {
            after_swap(before, inputs.last())
        } else {
            before
        }
    }
}

/// Whether the rounding of every swap of a run that the pool carries out is
/// covered, each in the pool as the swaps before it have left it.
pub open spec fn swaps_covered(s: PoolState, inputs: Seq<BucketView>) -> bool
    decreases inputs.len(),
{
    if inputs.len() == 0 {
        true
    } else {
        let before = after_swaps(s, inputs.drop_last());
        &&& swaps_covered(s, inputs.drop_last())
        &&& swap_error(before, inputs.last()) is None ==> rounding_covered(
            input_reserve(before, inputs.last()),
            before.swap_fee,
            inputs.last().amount,
        )
    }
}

/// Conservation over a run of swaps. Whatever swaps are asked of a pool, in
/// whatever order, the product of its reserves does not fall, as long as the
/// rounding of each swap that is carried out is covered.
pub proof fn lemma_swaps_keep_product(s: PoolState, inputs: Seq<BucketView>)
    requires
        s.wf(),
        swaps_covered(s, inputs),
    ensures
        after_swaps(s, inputs).wf(),
        reserve_product(after_swaps(s, inputs)) >= reserve_product(s),
    decreases inputs.len(),
{
    if inputs.len() > 0 {
        let before = after_swaps(s, inputs.drop_last());
        lemma_swaps_keep_product(s, inputs.drop_last());
        if swap_error(before, inputs.last()) is None {
            lemma_swap_keeps_product(before, inputs.last());
        }
    }
}

/// Proportionality. Liquidity tokens that make up a part of the supply
/// redeem that part of each reserve, cut off twice: never more than the
/// exact part, and less by under one step and one step for each whole unit
/// in the reserve. Where neither the share nor its product with the reserve
/// has anything to cut off, the exact part.
pub proof fn lemma_remove_is_proportional(s: PoolState, lp_amount: int)
    requires
        s.wf(),
        0 < lp_amount <= s.lp_supply,
    ensures
        0 <= lp_share(s, lp_amount) <= UNIT,
        0 <= redeemed_a(s, lp_amount) <= s.reserve_a,
        0 <= redeemed_b(s, lp_amount) <= s.reserve_b,
        redeemed_a(s, lp_amount) * s.lp_supply <= lp_amount * s.reserve_a,
        lp_amount * s.reserve_a * UNIT < (redeemed_a(s, lp_amount) + 1) * s.lp_supply * UNIT + s.reserve_a
            * s.lp_supply,
        redeemed_b(s, lp_amount) * s.lp_supply <= lp_amount * s.reserve_b,
        lp_amount * s.reserve_b * UNIT < (redeemed_b(s, lp_amount) + 1) * s.lp_supply * UNIT + s.reserve_b
            * s.lp_supply,
        (lp_amount * UNIT) % s.lp_supply == 0 && (lp_share(s, lp_amount) * s.reserve_a) % (UNIT as int) == 0
            ==> redeemed_a(s, lp_amount) * s.lp_supply == lp_amount * s.reserve_a,
        (lp_amount * UNIT) % s.lp_supply == 0 && (lp_share(s, lp_amount) * s.reserve_b) % (UNIT as int) == 0
            ==> redeemed_b(s, lp_amount) * s.lp_supply == lp_amount * s.reserve_b,
{
    crate::rounding::lemma_fx_div_fraction(lp_amount, s.lp_supply);
    lemma_part_of_reserve(lp_amount, s.lp_supply, s.reserve_a);
    lemma_part_of_reserve(lp_amount, s.lp_supply, s.reserve_b);
}

/// What `lemma_remove_is_proportional` says, of one reserve.
proof fn lemma_part_of_reserve(lp: int, supply: int, reserve: int)
    requires
        0 < lp <= supply,
        reserve >= 0,
    ensures
        0 <= fx_mul(fx_div(lp, supply), reserve) <= reserve,
        fx_mul(fx_div(lp, supply), reserve) * supply <= lp * reserve,
        lp * reserve * UNIT < (fx_mul(fx_div(lp, supply), reserve) + 1) * supply * UNIT + reserve * supply,
        (lp * UNIT) % supply == 0 && (fx_div(lp, supply) * reserve) % (UNIT as int) == 0 ==> fx_mul(
            fx_div(lp, supply),
            reserve,
        ) * supply == lp * reserve,
{
    let e = UNIT as int;
    let share = fx_div(lp, supply);
    let out = fx_mul(share, reserve);
    crate::rounding::lemma_fx_div_fraction(lp, supply);
    lemma_fx_div_bounds(lp, supply);
    lemma_fx_mul_bounds(share, reserve);
    lemma_fx_mul_fraction(reserve, share);
    crate::rounding::lemma_floor(lp * e, supply);
    assert(out * supply * e <= lp * reserve * e) by (nonlinear_arith)
        requires
            out * e <= share * reserve,
            share * supply <= lp * e,
            reserve >= 0,
            supply > 0,
    ;
    assert(out * supply <= lp * reserve) by (nonlinear_arith)
        requires
            out * supply * e <= lp * reserve * e,
            e > 0,
    ;
    assert(lp * reserve * e < (out + 1) * supply * e + reserve * supply) by (nonlinear_arith)
        requires
            share * reserve < out * e + e,
            lp * e < share * supply + supply,
            reserve >= 0,
            supply > 0,
    ;
    if (lp * e) % supply == 0 && (share * reserve) % e == 0 {
        assert(out * supply * e == lp * reserve * e) by (nonlinear_arith)
            requires
                out * e == share * reserve,
                share * supply == lp * e,
        ;
        assert(out * supply == lp * reserve) by (nonlinear_arith)
            requires
                out * supply * e == lp * reserve * e,
                e > 0,
        ;
    }
}

/// Tokens minted for no more than the supply times a ratio redeem, from a
/// reserve that grew by at least that ratio of itself, no more than it grew
/// by.
proof fn lemma_redeems_no_more(reserve: int, taken: int, supply: int, m: int, r: int)
    requires
        reserve >= 0,
        taken >= 0,
        supply >= 0,
        m >= 0,
        supply + m > 0,
        r >= 0,
        m * UNIT <= supply * r,
        reserve * r < (taken + 1) * UNIT,
    ensures
        0 <= fx_mul(fx_div(m, supply + m), reserve + taken) <= taken,
{
    let e = UNIT as int;
    let share = fx_div(m, supply + m);
    let out = fx_mul(share, reserve + taken);
    lemma_fx_div_bounds(m, supply + m);
    lemma_fx_mul_bounds(share, reserve + taken);
    assert(out * (supply + m) * e <= m * (reserve + taken) * e) by (nonlinear_arith)
        requires
            out * e <= share * (reserve + taken),
            share * (supply + m) <= m * e,
            reserve + taken >= 0,
            supply + m > 0,
    ;
    assert(out * (supply + m) <= m * (reserve + taken)) by (nonlinear_arith)
        requires
            out * (supply + m) * e <= m * (reserve + taken) * e,
            e > 0,
    ;
    if out >= taken + 1 {
        assert((taken + 1) * supply + m <= m * reserve) by (nonlinear_arith)
            requires
                out * (supply + m) <= m * (reserve + taken),
                out >= taken + 1,
                supply + m > 0,
        ;
        assert(m * e * reserve <= supply * r * reserve) by (nonlinear_arith)
            requires
                m * e <= supply * r,
                reserve >= 0,
        ;
        assert(supply * r * reserve <= supply * (taken + 1) * e - supply) by (nonlinear_arith)
            requires
                reserve * r <= (taken + 1) * e - 1,
                supply >= 0,
        ;
        assert(((taken + 1) * supply + m) * e <= m * e * reserve) by (nonlinear_arith)
            requires
                (taken + 1) * supply + m <= m * reserve,
                e > 0,
        ;
        assert(m * e + supply <= 0) by (nonlinear_arith)
            requires
                ((taken + 1) * supply + m) * e <= m * e * reserve,
                m * e * reserve <= supply * r * reserve,
                supply * r * reserve <= supply * (taken + 1) * e - supply,
        ;
        assert(m * e >= 0) by (nonlinear_arith)
            requires
                m >= 0,
                e > 0,
        ;
        assert(false);
    }
}

/// No free liquidity. Where a deposit is withdrawn again at once, with all
/// the liquidity tokens that it earned, neither asset comes back in a larger
/// amount than went in, so that what comes back is worth no more than what
/// went in at the pool's price: each amount of one asset weighed by the
/// reserve of the other. This is stated of deposits that earn no more than
/// the supply times their ratio. A deposit whose two ratios differ never
/// earns more.
pub proof fn lemma_add_then_remove_gives_no_more(s: PoolState, a: BucketView, b: BucketView)
    requires
        s.wf(),
        add_error(s, a, b) is None,
        remove_error(after_add(s, a, b), BucketView { resource: s.lp_token, amount: minted(s, a, b) })
            is None,
        ratio_a(s, a) == ratio_b(s, b) ==> minted(s, a, b) * UNIT <= s.lp_supply * ratio_a(s, a),
    ensures
        after_add(s, a, b).wf(),
        0 <= redeemed_a(after_add(s, a, b), minted(s, a, b)) <= taken_a(s, a, b),
        0 <= redeemed_b(after_add(s, a, b), minted(s, a, b)) <= taken_b(s, a, b),
        redeemed_a(after_add(s, a, b), minted(s, a, b)) * after_add(s, a, b).reserve_b + redeemed_b(
            after_add(s, a, b),
            minted(s, a, b),
        ) * after_add(s, a, b).reserve_a <= taken_a(s, a, b) * after_add(s, a, b).reserve_b + taken_b(
            s,
            a,
            b,
        ) * after_add(s, a, b).reserve_a,
{
    let e = UNIT as int;
    let t = after_add(s, a, b);
    let m = minted(s, a, b);
    let da = crate::pool::offered(s.asset_a, a);
    let db = crate::pool::offered(s.asset_b, b);
    let ra = ratio_a(s, a);
    let rb = ratio_b(s, b);
    let r = if ra <= rb {
        ra
    } else {
        rb
    };
    let ta = taken_a(s, a, b);
    let tb = taken_b(s, a, b);
    lemma_fx_div_bounds(da, s.reserve_a);
    lemma_fx_div_bounds(db, s.reserve_b);
    lemma_fx_mul_bounds(s.reserve_a, rb);
    lemma_fx_mul_bounds(s.reserve_b, ra);
    lemma_fx_mul_bounds(s.lp_supply, r);
    lemma_fx_mul_bounds(s.lp_unit_ratio, da);
    lemma_fx_mul_bounds(fx_mul(s.lp_unit_ratio, da), db);
    assert(ra * s.reserve_a == s.reserve_a * ra) by (nonlinear_arith);
    assert(rb * s.reserve_b == s.reserve_b * rb) by (nonlinear_arith);
    assert(m * e <= s.lp_supply * r);
    assert(s.reserve_a * r < (ta + 1) * e) by (nonlinear_arith)
        requires
            ra <= rb ==> r == ra && ta == da && s.reserve_a * ra <= da * e,
            ra > rb ==> r == rb && s.reserve_a * rb < ta * e + e,
            e > 0,
    ;
    assert(s.reserve_b * r < (tb + 1) * e) by (nonlinear_arith)
        requires
            rb <= ra ==> r == rb && tb == db && s.reserve_b * rb <= db * e,
            rb > ra ==> r == ra && s.reserve_b * ra < tb * e + e,
            e > 0,
    ;
    lemma_redeems_no_more(s.reserve_a, ta, s.lp_supply, m, r);
    lemma_redeems_no_more(s.reserve_b, tb, s.lp_supply, m, r);
    let out_a = redeemed_a(t, m);
    let out_b = redeemed_b(t, m);
    assert(out_a * t.reserve_b + out_b * t.reserve_a <= ta * t.reserve_b + tb * t.reserve_a)
        by (nonlinear_arith)
        requires
            0 <= out_a <= ta,
            0 <= out_b <= tb,
            t.reserve_a >= 0,
            t.reserve_b >= 0,
    ;
}

/// The dividend of the exact quotient that a quote cuts off.
pub open spec fn exact_quote_dividend(reserve_out: int, swap_fee: int, input: int) -> int {
    reserve_out * swap_fee * input
}

/// The divisor of the exact quotient that a quote cuts off.
pub open spec fn exact_quote_divisor(reserve_in: int, swap_fee: int, input: int) -> int {
    UNIT * reserve_in + swap_fee * input
}

/// The exact quotient that a quote cuts off grows with the swap fee, where
/// both reserves and the input are positive: the fee is the part of the
/// input that counts towards the price, so a larger one earns more. Of two
/// quotients the one with the larger cross product is the larger.
pub proof fn lemma_exact_quote_grows_with_fee(
    reserve_in: int,
    reserve_out: int,
    lower_fee: int,
    higher_fee: int,
    input: int,
)
    requires
        reserve_in > 0,
        reserve_out > 0,
        input > 0,
        0 <= lower_fee < higher_fee,
    ensures
        exact_quote_divisor(reserve_in, lower_fee, input) > 0,
        exact_quote_divisor(reserve_in, higher_fee, input) > 0,
        exact_quote_dividend(reserve_out, lower_fee, input) * exact_quote_divisor(
            reserve_in,
            higher_fee,
            input,
        ) < exact_quote_dividend(reserve_out, higher_fee, input) * exact_quote_divisor(
            reserve_in,
            lower_fee,
            input,
        ),
{
    let e = UNIT as int;
    let k = reserve_out * input;
    let x = e * reserve_in;
    assert(k > 0) by (nonlinear_arith)
        requires
            k == reserve_out * input,
            reserve_out > 0,
            input > 0,
    ;
    assert(x > 0) by (nonlinear_arith)
        requires
            x == e * reserve_in,
            reserve_in > 0,
            e > 0,
    ;
    assert(lower_fee * input >= 0 && higher_fee * input >= 0) by (nonlinear_arith)
        requires
            input > 0,
            0 <= lower_fee < higher_fee,
    ;
    assert(reserve_out * lower_fee * input == k * lower_fee) by (nonlinear_arith)
        requires
            k == reserve_out * input,
    ;
    assert(reserve_out * higher_fee * input == k * higher_fee) by (nonlinear_arith)
        requires
            k == reserve_out * input,
    ;
    assert(k * lower_fee * (x + higher_fee * input) < k * higher_fee * (x + lower_fee * input))
        by (nonlinear_arith)
        requires
            k > 0,
            x > 0,
            0 <= lower_fee < higher_fee,
    ;
}

/// A pool that can be made is valid.
pub proof fn lemma_created_pool_is_valid(
    a: BucketView,
    b: BucketView,
    lp_token: Seq<u8>,
    lp_initial_supply: int,
    swap_fee: int,
)
    requires
        a.amount < limit(),
        b.amount < limit(),
        lp_initial_supply < limit(),
        create_error(a, b, lp_initial_supply, swap_fee) is None,
    ensures
        created_pool(a, b, lp_token, lp_initial_supply, swap_fee).wf(),
        created_pool(a, b, lp_token, lp_initial_supply, swap_fee).reserve_a > 0,
        created_pool(a, b, lp_token, lp_initial_supply, swap_fee).reserve_b > 0,
{
    lemma_fx_mul_bounds(a.amount, b.amount);
    lemma_fx_div_bounds(lp_initial_supply, fx_mul(a.amount, b.amount));
    assert(a.amount > 0 && b.amount > 0) by (nonlinear_arith)
        requires
            a.amount >= 0,
            b.amount >= 0,
            a.amount * b.amount > 0,
    ;
}

/// A swap that the pool carries out leaves it valid. The whole input goes
/// into one reserve, and the output, which is not negative and no more than
/// the other reserve holds, comes out of that one: an input above zero
/// raises the one reserve, an output above zero lowers the other.
pub proof fn lemma_swap_moves_reserves(s: PoolState, input: BucketView)
    requires
        s.wf(),
        swap_error(s, input) is None,
    ensures
        after_swap(s, input).wf(),
        0 <= swap_output(s, input) <= output_reserve(s, input),
        input_reserve(after_swap(s, input), input) == input_reserve(s, input) + input.amount,
        output_reserve(after_swap(s, input), input) == output_reserve(s, input) - swap_output(s, input),
        input.amount > 0 ==> input_reserve(after_swap(s, input), input) > input_reserve(s, input),
        swap_output(s, input) > 0 ==> output_reserve(after_swap(s, input), input) < output_reserve(s, input),
        after_swap(s, input).lp_supply == s.lp_supply,
{
    lemma_fx_mul_fraction(input.amount, s.swap_fee);
    lemma_quote_bound(input_reserve(s, input), output_reserve(s, input), s.swap_fee, input.amount);
}

/// A deposit that the pool takes leaves it valid. Of neither asset does the
/// pool keep more than was offered, and it mints nothing for a deposit of
/// which it keeps nothing.
pub proof fn lemma_add_needs_deposit(s: PoolState, a: BucketView, b: BucketView)
    requires
        s.wf(),
        add_error(s, a, b) is None,
    ensures
        after_add(s, a, b).wf(),
        0 <= taken_a(s, a, b) <= a.amount,
        0 <= taken_b(s, a, b) <= b.amount,
        0 <= minted(s, a, b),
        minted(s, a, b) > 0 ==> taken_a(s, a, b) > 0 || taken_b(s, a, b) > 0,
{
    let da = crate::pool::offered(s.asset_a, a);
    let db = crate::pool::offered(s.asset_b, b);
    let ra = ratio_a(s, a);
    let rb = ratio_b(s, b);
    lemma_fx_div_bounds(da, s.reserve_a);
    lemma_fx_div_bounds(db, s.reserve_b);
    lemma_fx_mul_bounds(s.lp_unit_ratio, da);
    lemma_fx_mul_bounds(fx_mul(s.lp_unit_ratio, da), db);
    if ra > rb {
        crate::rounding::lemma_ratio_back(da, s.reserve_a, rb);
        lemma_fx_mul_bounds(s.lp_supply, rb);
        if rb == 0 {
            assert(s.lp_supply * rb == 0) by (nonlinear_arith)
                requires
                    rb == 0,
            ;
        } else {
            assert(db > 0) by (nonlinear_arith)
                requires
                    rb > 0,
                    rb * s.reserve_b <= db * UNIT,
                    s.reserve_b > 0,
                    db >= 0,
            ;
        }
    } else if ra < rb {
        crate::rounding::lemma_ratio_back(db, s.reserve_b, ra);
        lemma_fx_mul_bounds(s.lp_supply, ra);
        if ra == 0 {
            assert(s.lp_supply * ra == 0) by (nonlinear_arith)
                requires
                    ra == 0,
            ;
        } else {
            assert(da > 0) by (nonlinear_arith)
                requires
                    ra > 0,
                    ra * s.reserve_a <= da * UNIT,
                    s.reserve_a > 0,
                    da >= 0,
            ;
        }
    } else {
        if db == 0 {
            assert(fx_mul(s.lp_unit_ratio, da) * db == 0) by (nonlinear_arith)
                requires
                    db == 0,
            ;
        }
    }
}

/// A withdrawal that the pool carries out leaves it valid. It pays out no
/// more than the reserves hold, and nothing where no tokens are burned.
pub proof fn lemma_remove_needs_burn(s: PoolState, lp: BucketView)
    requires
        s.wf(),
        remove_error(s, lp) is None,
    ensures
        after_remove(s, lp).wf(),
        0 <= redeemed_a(s, lp.amount) <= s.reserve_a,
        0 <= redeemed_b(s, lp.amount) <= s.reserve_b,
        lp.amount == 0 ==> redeemed_a(s, lp.amount) == 0 && redeemed_b(s, lp.amount) == 0,
{
    crate::rounding::lemma_fx_div_fraction(lp.amount, s.lp_supply);
    lemma_fx_mul_fraction(s.reserve_a, lp_share(s, lp.amount));
    lemma_fx_mul_fraction(s.reserve_b, lp_share(s, lp.amount));
    lemma_fx_mul_bounds(lp_share(s, lp.amount), s.reserve_a);
    lemma_fx_mul_bounds(lp_share(s, lp.amount), s.reserve_b);
    if lp.amount == 0 {
        assert(lp.amount * UNIT == 0);
        assert(lp_share(s, lp.amount) == 0) by (nonlinear_arith)
            requires
                lp_share(s, lp.amount) == 0int / s.lp_supply,
                s.lp_supply > 0,
        ;
        assert(lp_share(s, lp.amount) * s.reserve_a == 0 && lp_share(s, lp.amount) * s.reserve_b == 0)
            by (nonlinear_arith)
            requires
                lp_share(s, lp.amount) == 0,
        ;
    }
}

/// What can be asked of a pool.
pub enum Operation {
    /// A swap of the bucket `input`.
    Swap { input: BucketView },
    /// A deposit of the buckets `a` and `b`.
    AddLiquidity { a: BucketView, b: BucketView },
    /// A withdrawal for the liquidity tokens `lp`.
    RemoveLiquidity { lp: BucketView },
}

/// Why the pool turns an operation down, or `None` where it carries it out.
pub open spec fn operation_error(s: PoolState, operation: Operation) -> Option<DexError> {
    match operation {
        Operation::Swap { input } => swap_error(s, input),
        Operation::AddLiquidity { a, b } => add_error(s, a, b),
        Operation::RemoveLiquidity { lp } => remove_error(s, lp),
    }
}

/// The pool after an operation. One that the pool turns down leaves it as it
/// was.
pub open spec fn after_operation(s: PoolState, operation: Operation) -> PoolState {
    if operation_error(s, operation) is Some {
        s
    } else {
        match operation {
            Operation::Swap { input } => after_swap(s, input),
            Operation::AddLiquidity { a, b } => after_add(s, a, b),
            Operation::RemoveLiquidity { lp } => after_remove(s, lp),
        }
    }
}

/// The pool after a run of operations, one after the other.
pub open spec fn after_operations(s: PoolState, operations: Seq<Operation>) -> PoolState
    decreases operations.len(),
{
    if operations.len() == 0 {
        s
    } else {
        after_operation(after_operations(s, operations.drop_last()), operations.last())
    }
}

/// Whatever is asked of a valid pool, in whatever order, it stays valid: no
/// reserve and no supply falls below zero. Its assets, its liquidity token,
/// its swap fee and its unit ratio stay what they were.
pub proof fn lemma_pool_stays_valid(s: PoolState, operations: Seq<Operation>)
    requires
        s.wf(),
    ensures
        after_operations(s, operations).wf(),
        after_operations(s, operations).asset_a == s.asset_a,
        after_operations(s, operations).asset_b == s.asset_b,
        after_operations(s, operations).lp_token == s.lp_token,
        after_operations(s, operations).swap_fee == s.swap_fee,
        after_operations(s, operations).lp_unit_ratio == s.lp_unit_ratio,
    decreases operations.len(),
{
    if operations.len() > 0 {
        let before = after_operations(s, operations.drop_last());
        lemma_pool_stays_valid(s, operations.drop_last());
        if operation_error(before, operations.last()) is None {
            match operations.last() {
                Operation::Swap { input } => lemma_swap_moves_reserves(before, input),
                Operation::AddLiquidity { a, b } => lemma_add_needs_deposit(before, a, b),
                Operation::RemoveLiquidity { lp } => lemma_remove_needs_burn(before, lp),
            }
        }
    }
}

} // verus!
