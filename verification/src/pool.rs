//! The liquidity pool: two reserves, the supply of liquidity tokens that
//! stand for shares in them, and the operations that swap, add and remove.

use vstd::prelude::*;
use crate::asset::{Bucket, BucketView, ResourceId};
use crate::error::DexError;
use crate::fixed::{decimal_add, decimal_div, decimal_mul, decimal_sub, fx_div, fx_mul, limit, Fixed, UNIT};
use crate::rounding::{
    lemma_fx_div_bounds, lemma_fx_div_fraction, lemma_fx_mul_bounds, lemma_fx_mul_fraction, lemma_ratio_back,
};

verus! {

/// What a pool is in contracts. Amounts are counts of 10^-18 steps.
pub struct PoolState {
    /// The asset held in the first reserve.
    pub asset_a: Seq<u8>,
    /// The asset held in the second reserve.
    pub asset_b: Seq<u8>,
    /// The liquidity token that the pool issues.
    pub lp_token: Seq<u8>,
    /// How much of the first asset the pool holds.
    pub reserve_a: int,
    /// How much of the second asset the pool holds.
    pub reserve_b: int,
    /// How many liquidity tokens are out: all that were minted less all that
    /// were burned.
    pub lp_supply: int,
    /// The initial supply of liquidity tokens over the product of the
    /// initial reserves, fixed when the pool is made.
    pub lp_unit_ratio: int,
    /// The part of a swap's input that counts towards the price, between
    /// zero and one.
    pub swap_fee: int,
}

impl PoolState {
    /// What holds of every pool: no amount is negative or too large to
    /// hold, and the swap fee lies between zero and one.
    pub open spec fn wf(self) -> bool {
        &&& 0 <= self.reserve_a < limit()
        &&& 0 <= self.reserve_b < limit()
        &&& 0 <= self.lp_supply < limit()
        &&& 0 <= self.lp_unit_ratio < limit()
        &&& 0 <= self.swap_fee <= UNIT
    }
}

/// Why a pool cannot be made from these deposits, this initial supply of
/// liquidity tokens and this fee, or `None` where it can.
pub open spec fn create_error(a: BucketView, b: BucketView, lp_initial_supply: int, swap_fee: int) -> Option<
    DexError,
> {
    if a.amount < 0 || b.amount < 0 {
        Some(DexError::AmountOutOfRange)
    } else if a.amount == 0 && b.amount == 0 {
        Some(DexError::InvalidInitialDeposit)
    } else if swap_fee < 0 || swap_fee > UNIT {
        Some(DexError::InvalidFee)
    } else if lp_initial_supply < 0 || fx_mul(a.amount, b.amount) >= limit() {
        Some(DexError::AmountOutOfRange)
    } else if fx_mul(a.amount, b.amount) == 0 {
        Some(DexError::EmptyPool)
    } else if fx_div(lp_initial_supply, fx_mul(a.amount, b.amount)) >= limit() {
        Some(DexError::AmountOutOfRange)
    } else {
        None
    }
}

/// The pool that these deposits, this initial supply and this fee make.
pub open spec fn created_pool(
    a: BucketView,
    b: BucketView,
    lp_token: Seq<u8>,
    lp_initial_supply: int,
    swap_fee: int,
) -> PoolState {
    PoolState {
        asset_a: a.resource,
        asset_b: b.resource,
        lp_token,
        reserve_a: a.amount,
        reserve_b: b.amount,
        lp_supply: lp_initial_supply,
        lp_unit_ratio: fx_div(lp_initial_supply, fx_mul(a.amount, b.amount)),
        swap_fee,
    }
}

/// How much of one side's asset a bucket offers: what it holds where it
/// holds that asset, nothing where it holds another.
pub open spec fn offered(asset: Seq<u8>, bucket: BucketView) -> int {
    if bucket.resource == asset {
        bucket.amount
    } else {
        0
    }
}

/// The deposit offered for the first reserve over that reserve.
pub open spec fn ratio_a(s: PoolState, a: BucketView) -> int {
    fx_div(offered(s.asset_a, a), s.reserve_a)
}

/// The deposit offered for the second reserve over that reserve.
pub open spec fn ratio_b(s: PoolState, b: BucketView) -> int {
    fx_div(offered(s.asset_b, b), s.reserve_b)
}

/// How much of the first asset a deposit leaves in the pool: all that is
/// offered unless the first asset is the one in excess, and then the first
/// reserve times the ratio of the second.
pub open spec fn taken_a(s: PoolState, a: BucketView, b: BucketView) -> int {
    if ratio_a(s, a) <= ratio_b(s, b) {
        offered(s.asset_a, a)
    } else {
        fx_mul(s.reserve_a, ratio_b(s, b))
    }
}

/// How much of the second asset a deposit leaves in the pool.
pub open spec fn taken_b(s: PoolState, a: BucketView, b: BucketView) -> int {
    if ratio_b(s, b) <= ratio_a(s, a) {
        offered(s.asset_b, b)
    } else {
        fx_mul(s.reserve_b, ratio_a(s, a))
    }
}

/// How many liquidity tokens a deposit earns. Where both ratios agree, the
/// pool's unit ratio times both deposits; else the supply times the smaller
/// ratio.
pub open spec fn minted(s: PoolState, a: BucketView, b: BucketView) -> int {
    if ratio_a(s, a) == ratio_b(s, b) {
        fx_mul(fx_mul(s.lp_unit_ratio, offered(s.asset_a, a)), offered(s.asset_b, b))
    } else if ratio_a(s, a) > ratio_b(s, b) {
        fx_mul(s.lp_supply, ratio_b(s, b))
    } else {
        fx_mul(s.lp_supply, ratio_a(s, a))
    }
}

/// Whether one of the amounts that a deposit arrives at is too large to hold.
pub open spec fn add_overflows(s: PoolState, a: BucketView, b: BucketView) -> bool {
    ||| ratio_a(s, a) >= limit()
    ||| ratio_b(s, b) >= limit()
    ||| ratio_a(s, a) == ratio_b(s, b) && fx_mul(s.lp_unit_ratio, offered(s.asset_a, a)) >= limit()
    ||| minted(s, a, b) >= limit()
    ||| s.reserve_a + taken_a(s, a, b) >= limit()
    ||| s.reserve_b + taken_b(s, a, b) >= limit()
    ||| s.lp_supply + minted(s, a, b) >= limit()
}

/// Why the pool turns a deposit down, or `None` where it takes it.
pub open spec fn add_error(s: PoolState, a: BucketView, b: BucketView) -> Option<DexError> {
    if a.resource != s.asset_a && a.resource != s.asset_b && b.resource != s.asset_a && b.resource
        != s.asset_b {
        Some(DexError::UnrecognizedAsset)
    } else if a.amount < 0 || b.amount < 0 {
        Some(DexError::AmountOutOfRange)
    } else if s.reserve_a == 0 || s.reserve_b == 0 {
        Some(DexError::EmptyPool)
    } else if add_overflows(s, a, b) {
        Some(DexError::AmountOutOfRange)
    } else {
        None
    }
}

/// The pool after a deposit that it takes.
pub open spec fn after_add(s: PoolState, a: BucketView, b: BucketView) -> PoolState {
    PoolState {
        reserve_a: s.reserve_a + taken_a(s, a, b),
        reserve_b: s.reserve_b + taken_b(s, a, b),
        lp_supply: s.lp_supply + minted(s, a, b),
        ..s
    }
}

/// The reserve that a swap's input goes into.
pub open spec fn input_reserve(s: PoolState, input: BucketView) -> int {
    if input.resource == s.asset_a {
        s.reserve_a
    } else {
        s.reserve_b
    }
}

/// The reserve that a swap's output comes out of.
pub open spec fn output_reserve(s: PoolState, input: BucketView) -> int {
    if input.resource == s.asset_a {
        s.reserve_b
    } else {
        s.reserve_a
    }
}

/// What a swap pays out for `input` coming in, with `reserve_in` held of the
/// asset that comes in and `reserve_out` of the one that goes out: the
/// output reserve times the fee times the input, over the input reserve
/// plus the fee times the input.
pub open spec fn swap_quote(reserve_in: int, reserve_out: int, swap_fee: int, input: int) -> int {
    fx_div(fx_mul(fx_mul(reserve_out, swap_fee), input), reserve_in + fx_mul(swap_fee, input))
}

/// What the pool pays out for a bucket that comes in.
pub open spec fn swap_output(s: PoolState, input: BucketView) -> int {
    swap_quote(input_reserve(s, input), output_reserve(s, input), s.swap_fee, input.amount)
}

/// Why the pool turns a swap down, or `None` where it carries it out.
pub open spec fn swap_error(s: PoolState, input: BucketView) -> Option<DexError> {
    if input.resource != s.asset_a && input.resource != s.asset_b {
        Some(DexError::UnrecognizedAsset)
    } else if input.amount < 0 || input_reserve(s, input) + input.amount >= limit() || fx_mul(
        fx_mul(output_reserve(s, input), s.swap_fee),
        input.amount,
    ) >= limit() {
        Some(DexError::AmountOutOfRange)
    } else if input_reserve(s, input) + fx_mul(s.swap_fee, input.amount) == 0 {
        Some(DexError::EmptyPool)
    } else if swap_output(s, input) > output_reserve(s, input) {
        Some(DexError::InsufficientLiquidity)
    } else {
        None
    }
}

/// The pool after a swap that it carries out: the whole input has gone into
/// one reserve, the output has left the other.
pub open spec fn after_swap(s: PoolState, input: BucketView) -> PoolState {
    if input.resource == s.asset_a {
        PoolState {
            reserve_a: s.reserve_a + input.amount,
            reserve_b: s.reserve_b - swap_output(s, input),
            ..s
        }
    } else {
        PoolState {
            reserve_a: s.reserve_a - swap_output(s, input),
            reserve_b: s.reserve_b + input.amount,
            ..s
        }
    }
}

/// The asset that a swap pays out.
pub open spec fn swap_output_asset(s: PoolState, input: BucketView) -> Seq<u8> {
    if input.resource == s.asset_a {
        s.asset_b
    } else {
        s.asset_a
    }
}

/// The part of the supply that a number of liquidity tokens stands for.
pub open spec fn lp_share(s: PoolState, lp_amount: int) -> int {
    fx_div(lp_amount, s.lp_supply)
}

/// How much of the first asset a number of liquidity tokens redeems.
pub open spec fn redeemed_a(s: PoolState, lp_amount: int) -> int {
    fx_mul(lp_share(s, lp_amount), s.reserve_a)
}

/// How much of the second asset a number of liquidity tokens redeems.
pub open spec fn redeemed_b(s: PoolState, lp_amount: int) -> int {
    fx_mul(lp_share(s, lp_amount), s.reserve_b)
}

/// Why the pool turns a withdrawal down, or `None` where it carries it out.
pub open spec fn remove_error(s: PoolState, lp: BucketView) -> Option<DexError> {
    if lp.resource != s.lp_token {
        Some(DexError::UnrecognizedAsset)
    } else if lp.amount < 0 {
        Some(DexError::AmountOutOfRange)
    } else if s.lp_supply == 0 {
        Some(DexError::EmptyPool)
    } else if lp.amount > s.lp_supply {
        Some(DexError::InsufficientLiquidity)
    } else {
        None
    }
}

/// The pool after a withdrawal that it carries out.
pub open spec fn after_remove(s: PoolState, lp: BucketView) -> PoolState {
    PoolState {
        reserve_a: s.reserve_a - redeemed_a(s, lp.amount),
        reserve_b: s.reserve_b - redeemed_b(s, lp.amount),
        lp_supply: s.lp_supply - lp.amount,
        ..s
    }
}

/// A liquidity pool of two assets. No amount in it is negative, and its swap
/// fee lies between zero and one. The fee and the unit ratio stay as they
/// were when the pool was made, and the supply of liquidity tokens changes
/// only where the pool itself mints or burns.
#[derive(Debug)]
pub struct Dex {
    asset_a: ResourceId,
    asset_b: ResourceId,
    lp_token: ResourceId,
    reserve_a: Fixed,
    reserve_b: Fixed,
    lp_supply: Fixed,
    lp_unit_ratio: Fixed,
    swap_fee: Fixed,
}

impl View for Dex {
    type V = PoolState;

    closed spec fn view(&self) -> PoolState {
        PoolState {
            asset_a: self.asset_a@,
            asset_b: self.asset_b@,
            lp_token: self.lp_token@,
            reserve_a: self.reserve_a@,
            reserve_b: self.reserve_b@,
            lp_supply: self.lp_supply@,
            lp_unit_ratio: self.lp_unit_ratio@,
            swap_fee: self.swap_fee@,
        }
    }
}

impl Dex {
    #[verifier::type_invariant]
    spec fn valid(self) -> bool {
        self@.wf()
    }

    /// Makes a pool from two initial deposits, the identifier of its
    /// liquidity token, the number of liquidity tokens to mint at the start,
    /// and the swap fee. Hands back the pool and the minted tokens.
    pub fn instantiate_dex(
        a_tokens: Bucket,
        b_tokens: Bucket,
        lp_token: ResourceId,
        lp_initial_supply: Fixed,
        swap_fee: Fixed,
    ) -> (r: Result<(Dex, Bucket), DexError>)
        ensures
            match r {
                Ok((pool, lp_tokens)) => {
                    &&& create_error(a_tokens@, b_tokens@, lp_initial_supply@, swap_fee@) is None
                    &&& pool@ == created_pool(a_tokens@, b_tokens@, lp_token@, lp_initial_supply@, swap_fee@)
                    &&& pool@.wf()
                    &&& lp_tokens@ == (BucketView { resource: lp_token@, amount: lp_initial_supply@ })
                },
                Err(e) => create_error(a_tokens@, b_tokens@, lp_initial_supply@, swap_fee@) == Some(e),
            },
    {
        if a_tokens.amount.is_negative() || b_tokens.amount.is_negative() {
            return Err(DexError::AmountOutOfRange);
        }
        if a_tokens.amount.is_zero() && b_tokens.amount.is_zero() {
            return Err(DexError::InvalidInitialDeposit);
        }
        let one = Fixed::one();
        if swap_fee.is_negative() || one.lt(&swap_fee) {
            return Err(DexError::InvalidFee);
        }
        if lp_initial_supply.is_negative() {
            return Err(DexError::AmountOutOfRange);
        }
        let product = match decimal_mul(a_tokens.amount, b_tokens.amount) {
            Some(p) => p,
            None => {
                return Err(DexError::AmountOutOfRange);
            },
        };
        proof {
            lemma_fx_mul_bounds(a_tokens.amount@, b_tokens.amount@);
        }
        if product.is_zero() {
            return Err(DexError::EmptyPool);
        }
        let lp_unit_ratio = match decimal_div(lp_initial_supply, product) {
            Some(q) => q,
            None => {
                return Err(DexError::AmountOutOfRange);
            },
        };
        proof {
            lemma_fx_div_bounds(lp_initial_supply@, product@);
        }
        let pool = Dex {
            asset_a: a_tokens.resource,
            asset_b: b_tokens.resource,
            lp_token,
            reserve_a: a_tokens.amount,
            reserve_b: b_tokens.amount,
            lp_supply: lp_initial_supply,
            lp_unit_ratio,
            swap_fee,
        };
        Ok((pool, Bucket { resource: lp_token, amount: lp_initial_supply }))
    }

    /// Deposits into both reserves at the pool's own ratio and mints
    /// liquidity tokens for the deposit. Of the asset that is offered in
    /// excess only the matching part is kept. A bucket that does not hold
    /// its side's asset offers nothing. Hands back what is left of the two
    /// buckets, and the minted tokens.
    pub fn add_liquidity(&mut self, a_tokens: Bucket, b_tokens: Bucket) -> (r: Result<
        (Bucket, Bucket, Bucket),
        DexError,
    >)
        ensures
            final(self)@.wf(),
            match r {
                Ok((rest_a, rest_b, lp_tokens)) => {
                    &&& add_error(old(self)@, a_tokens@, b_tokens@) is None
                    &&& final(self)@ == after_add(old(self)@, a_tokens@, b_tokens@)
                    &&& rest_a@ == (BucketView {
                        resource: a_tokens@.resource,
                        amount: a_tokens@.amount - taken_a(old(self)@, a_tokens@, b_tokens@),
                    })
                    &&& rest_b@ == (BucketView {
                        resource: b_tokens@.resource,
                        amount: b_tokens@.amount - taken_b(old(self)@, a_tokens@, b_tokens@),
                    })
                    &&& lp_tokens@ == (BucketView {
                        resource: old(self)@.lp_token,
                        amount: minted(old(self)@, a_tokens@, b_tokens@),
                    })
                },
                Err(e) => {
                    &&& add_error(old(self)@, a_tokens@, b_tokens@) == Some(e)
                    &&& final(self)@ == old(self)@
                },
            },
    {
        proof {
            use_type_invariant(&*self);
        }
        let a_fits_a = a_tokens.resource.same(&self.asset_a);
        let b_fits_b = b_tokens.resource.same(&self.asset_b);
        if !a_fits_a && !a_tokens.resource.same(&self.asset_b) && !b_tokens.resource.same(&self.asset_a)
            && !b_fits_b {
            return Err(DexError::UnrecognizedAsset);
        }
        if a_tokens.amount.is_negative() || b_tokens.amount.is_negative() {
            return Err(DexError::AmountOutOfRange);
        }
        if self.reserve_a.is_zero() || self.reserve_b.is_zero() {
            return Err(DexError::EmptyPool);
        }
        let (a, b) = (self.reserve_a, self.reserve_b);
        let da = if a_fits_a {
            a_tokens.amount
        } else {
            Fixed::zero()
        };
        let db = if b_fits_b {
            b_tokens.amount
        } else {
            Fixed::zero()
        };
        let da_ratio = match decimal_div(da, a) {
            Some(q) => q,
            None => {
                return Err(DexError::AmountOutOfRange);
            },
        };
        let db_ratio = match decimal_div(db, b) {
            Some(q) => q,
            None => {
                return Err(DexError::AmountOutOfRange);
            },
        };
        proof {
            lemma_fx_div_bounds(da@, a@);
            lemma_fx_div_bounds(db@, b@);
            da_ratio.lemma_same_steps(db_ratio);
        }
        let a_tokens_taken: Fixed;
        let b_tokens_taken: Fixed;
        let lpt_required: Fixed;
        if da_ratio == db_ratio {
            proof {
                lemma_fx_mul_bounds(self.lp_unit_ratio@, da@);
            }
            let per_b = match decimal_mul(self.lp_unit_ratio, da) {
                Some(p) => p,
                None => {
                    return Err(DexError::AmountOutOfRange);
                },
            };
            a_tokens_taken = da;
            b_tokens_taken = db;
            lpt_required = match decimal_mul(per_b, db) {
                Some(p) => p,
                None => {
                    return Err(DexError::AmountOutOfRange);
                },
            };
            proof {
                lemma_fx_mul_bounds(per_b@, db@);
            }
        } else if db_ratio.lt(&da_ratio) {
            proof {
                lemma_ratio_back(da@, a@, db_ratio@);
                lemma_fx_mul_bounds(self.lp_supply@, db_ratio@);
            }
            a_tokens_taken = decimal_mul(a, db_ratio).unwrap();
            b_tokens_taken = db;
            lpt_required = match decimal_mul(self.lp_supply, db_ratio) {
                Some(p) => p,
                None => {
                    return Err(DexError::AmountOutOfRange);
                },
            };
        } else {
            proof {
                lemma_ratio_back(db@, b@, da_ratio@);
                lemma_fx_mul_bounds(self.lp_supply@, da_ratio@);
            }
            a_tokens_taken = da;
            b_tokens_taken = decimal_mul(b, da_ratio).unwrap();
            lpt_required = match decimal_mul(self.lp_supply, da_ratio) {
                Some(p) => p,
                None => {
                    return Err(DexError::AmountOutOfRange);
                },
            };
        }
        let new_a = match decimal_add(a, a_tokens_taken) {
            Some(v) => v,
            None => {
                return Err(DexError::AmountOutOfRange);
            },
        };
        let new_b = match decimal_add(b, b_tokens_taken) {
            Some(v) => v,
            None => {
                return Err(DexError::AmountOutOfRange);
            },
        };
        let new_supply = match decimal_add(self.lp_supply, lpt_required) {
            Some(v) => v,
            None => {
                return Err(DexError::AmountOutOfRange);
            },
        };
        let rest_a = decimal_sub(a_tokens.amount, a_tokens_taken).unwrap();
        let rest_b = decimal_sub(b_tokens.amount, b_tokens_taken).unwrap();
        self.reserve_a = new_a;
        self.reserve_b = new_b;
        self.lp_supply = new_supply;
        Ok(
            (
                Bucket { resource: a_tokens.resource, amount: rest_a },
                Bucket { resource: b_tokens.resource, amount: rest_b },
                Bucket { resource: self.lp_token, amount: lpt_required },
            ),
        )
    }

    /// Takes a bucket of one of the pool's two assets and pays out the other
    /// asset at the constant-product price, the fee applied to the input.
    /// The whole input stays in the pool.
    pub fn swap(&mut self, input_token: Bucket) -> (r: Result<Bucket, DexError>)
        ensures
            final(self)@.wf(),
            match r {
                Ok(output) => {
                    &&& swap_error(old(self)@, input_token@) is None
                    &&& final(self)@ == after_swap(old(self)@, input_token@)
                    &&& output@ == (BucketView {
                        resource: swap_output_asset(old(self)@, input_token@),
                        amount: swap_output(old(self)@, input_token@),
                    })
                },
                Err(e) => {
                    &&& swap_error(old(self)@, input_token@) == Some(e)
                    &&& final(self)@ == old(self)@
                },
            },
    {
        proof {
            use_type_invariant(&*self);
        }
        let a_comes_in = input_token.resource.same(&self.asset_a);
        if !a_comes_in && !input_token.resource.same(&self.asset_b) {
            return Err(DexError::UnrecognizedAsset);
        }
        if input_token.amount.is_negative() {
            return Err(DexError::AmountOutOfRange);
        }
        let (input_pool, output_pool) = if a_comes_in {
            (self.reserve_a, self.reserve_b)
        } else {
            (self.reserve_b, self.reserve_a)
        };
        let input_pool_after = match decimal_add(input_pool, input_token.amount) {
            Some(v) => v,
            None => {
                return Err(DexError::AmountOutOfRange);
            },
        };
        proof {
            lemma_fx_mul_fraction(output_pool@, self.swap_fee@);
            lemma_fx_mul_fraction(input_token.amount@, self.swap_fee@);
        }
        let output_after_fee = decimal_mul(output_pool, self.swap_fee).unwrap();
        let numerator = match decimal_mul(output_after_fee, input_token.amount) {
            Some(p) => p,
            None => {
                return Err(DexError::AmountOutOfRange);
            },
        };
        let input_after_fee = decimal_mul(self.swap_fee, input_token.amount).unwrap();
        let denominator = decimal_add(input_pool, input_after_fee).unwrap();
        if denominator.is_zero() {
            return Err(DexError::EmptyPool);
        }
        proof {
            lemma_fx_mul_bounds(output_after_fee@, input_token.amount@);
            lemma_fx_div_bounds(numerator@, denominator@);
        }
        let output_token_amount = match decimal_div(numerator, denominator) {
            Some(q) => q,
            None => {
                return Err(DexError::InsufficientLiquidity);
            },
        };
        if output_pool.lt(&output_token_amount) {
            return Err(DexError::InsufficientLiquidity);
        }
        let output_pool_after = decimal_sub(output_pool, output_token_amount).unwrap();
        if a_comes_in {
            self.reserve_a = input_pool_after;
            self.reserve_b = output_pool_after;
            Ok(Bucket { resource: self.asset_b, amount: output_token_amount })
        } else {
            self.reserve_b = input_pool_after;
            self.reserve_a = output_pool_after;
            Ok(Bucket { resource: self.asset_a, amount: output_token_amount })
        }
    }

    /// Burns a bucket of the pool's liquidity tokens and pays out the part
    /// of both reserves that the tokens' share of the supply stands for.
    pub fn remove_liquidity(&mut self, lp_tokens: Bucket) -> (r: Result<(Bucket, Bucket), DexError>)
        ensures
            final(self)@.wf(),
            match r {
                Ok((a_tokens, b_tokens)) => {
                    &&& remove_error(old(self)@, lp_tokens@) is None
                    &&& final(self)@ == after_remove(old(self)@, lp_tokens@)
                    &&& a_tokens@ == (BucketView {
                        resource: old(self)@.asset_a,
                        amount: redeemed_a(old(self)@, lp_tokens@.amount),
                    })
                    &&& b_tokens@ == (BucketView {
                        resource: old(self)@.asset_b,
                        amount: redeemed_b(old(self)@, lp_tokens@.amount),
                    })
                },
                Err(e) => {
                    &&& remove_error(old(self)@, lp_tokens@) == Some(e)
                    &&& final(self)@ == old(self)@
                },
            },
    {
        proof {
            use_type_invariant(&*self);
        }
        if !lp_tokens.resource.same(&self.lp_token) {
            return Err(DexError::UnrecognizedAsset);
        }
        if lp_tokens.amount.is_negative() {
            return Err(DexError::AmountOutOfRange);
        }
        if self.lp_supply.is_zero() {
            return Err(DexError::EmptyPool);
        }
        if self.lp_supply.lt(&lp_tokens.amount) {
            return Err(DexError::InsufficientLiquidity);
        }
        proof {
            lemma_fx_div_fraction(lp_tokens.amount@, self.lp_supply@);
            lemma_fx_mul_fraction(self.reserve_a@, fx_div(lp_tokens.amount@, self.lp_supply@));
            lemma_fx_mul_fraction(self.reserve_b@, fx_div(lp_tokens.amount@, self.lp_supply@));
        }
        let lp_tokens_share = decimal_div(lp_tokens.amount, self.lp_supply).unwrap();
        let a_tokens_out = decimal_mul(lp_tokens_share, self.reserve_a).unwrap();
        let b_tokens_out = decimal_mul(lp_tokens_share, self.reserve_b).unwrap();
        self.lp_supply = decimal_sub(self.lp_supply, lp_tokens.amount).unwrap();
        self.reserve_a = decimal_sub(self.reserve_a, a_tokens_out).unwrap();
        self.reserve_b = decimal_sub(self.reserve_b, b_tokens_out).unwrap();
        Ok(
            (
                Bucket { resource: self.asset_a, amount: a_tokens_out },
                Bucket { resource: self.asset_b, amount: b_tokens_out },
            ),
        )
    }

    /// Puts a pool together from what was kept of it. Hands back `None`
    /// where an amount is negative or the fee lies outside the range from
    /// zero to one.
    pub fn from_parts(
        asset_a: ResourceId,
        asset_b: ResourceId,
        lp_token: ResourceId,
        reserve_a: Fixed,
        reserve_b: Fixed,
        lp_supply: Fixed,
        lp_unit_ratio: Fixed,
        swap_fee: Fixed,
    ) -> (r: Option<Dex>)
        ensures
            r is Some <==> (PoolState {
                asset_a: asset_a@,
                asset_b: asset_b@,
                lp_token: lp_token@,
                reserve_a: reserve_a@,
                reserve_b: reserve_b@,
                lp_supply: lp_supply@,
                lp_unit_ratio: lp_unit_ratio@,
                swap_fee: swap_fee@,
            }).wf(),
            r is Some ==> r.unwrap()@ == (PoolState {
                asset_a: asset_a@,
                asset_b: asset_b@,
                lp_token: lp_token@,
                reserve_a: reserve_a@,
                reserve_b: reserve_b@,
                lp_supply: lp_supply@,
                lp_unit_ratio: lp_unit_ratio@,
                swap_fee: swap_fee@,
            }),
    {
        let one = Fixed::one();
        if reserve_a.is_negative() || reserve_b.is_negative() || lp_supply.is_negative()
            || lp_unit_ratio.is_negative() || swap_fee.is_negative() || one.lt(&swap_fee) {
            return None;
        }
        Some(
            Dex {
                asset_a,
                asset_b,
                lp_token,
                reserve_a,
                reserve_b,
                lp_supply,
                lp_unit_ratio,
                swap_fee,
            },
        )
    }

    /// The asset held in the first reserve.
    pub fn asset_a(&self) -> (r: ResourceId)
        ensures
            r@ == self@.asset_a,
    {
        self.asset_a
    }

    /// The asset held in the second reserve.
    pub fn asset_b(&self) -> (r: ResourceId)
        ensures
            r@ == self@.asset_b,
    {
        self.asset_b
    }

    /// The liquidity token that the pool issues.
    pub fn lp_token(&self) -> (r: ResourceId)
        ensures
            r@ == self@.lp_token,
    {
        self.lp_token
    }

    /// How much of the first asset the pool holds.
    pub fn reserve_a(&self) -> (r: Fixed)
        ensures
            r@ == self@.reserve_a,
            self@.wf(),
    {
        proof {
            use_type_invariant(self);
        }
        self.reserve_a
    }

    /// How much of the second asset the pool holds.
    pub fn reserve_b(&self) -> (r: Fixed)
        ensures
            r@ == self@.reserve_b,
            self@.wf(),
    {
        proof {
            use_type_invariant(self);
        }
        self.reserve_b
    }

    /// How many liquidity tokens are out.
    pub fn lp_supply(&self) -> (r: Fixed)
        ensures
            r@ == self@.lp_supply,
            self@.wf(),
    {
        proof {
            use_type_invariant(self);
        }
        self.lp_supply
    }

    /// The pool's unit ratio, as fixed when the pool was made.
    pub fn lp_unit_ratio(&self) -> (r: Fixed)
        ensures
            r@ == self@.lp_unit_ratio,
            self@.wf(),
    {
        proof {
            use_type_invariant(self);
        }
        self.lp_unit_ratio
    }

    /// The swap fee, as fixed when the pool was made.
    pub fn swap_fee(&self) -> (r: Fixed)
        ensures
            r@ == self@.swap_fee,
            self@.wf(),
    {
        proof {
            use_type_invariant(self);
        }
        self.swap_fee
    }
}

} // verus!
