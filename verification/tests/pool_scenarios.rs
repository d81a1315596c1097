use dex::asset::{Bucket, ResourceId};
use dex::error::DexError;
use dex::fixed::Fixed;
use dex::pool::Dex;

const STEPS: i128 = 1_000_000_000_000_000_000;

fn asset_a() -> ResourceId {
    ResourceId { bytes: [0xa1; 30] }
}

fn asset_b() -> ResourceId {
    ResourceId { bytes: [0xb2; 30] }
}

fn lp_token() -> ResourceId {
    ResourceId { bytes: [0xc3; 30] }
}

fn units(n: i128) -> Fixed {
    Fixed::from_attos(n * STEPS)
}

fn steps(n: i128) -> Fixed {
    Fixed::from_attos(n)
}

fn a(amount: Fixed) -> Bucket {
    Bucket::new(asset_a(), amount)
}

fn b(amount: Fixed) -> Bucket {
    Bucket::new(asset_b(), amount)
}

fn lp(amount: Fixed) -> Bucket {
    Bucket::new(lp_token(), amount)
}

fn pool(reserve_a: i128, reserve_b: i128, supply: i128, fee_thousandths: i128) -> Dex {
    let fee = steps(fee_thousandths * STEPS / 1000);
    let (pool, minted) =
        Dex::instantiate_dex(a(units(reserve_a)), b(units(reserve_b)), lp_token(), units(supply), fee).unwrap();
    assert_eq!(minted, lp(units(supply)));
    pool
}

#[test]
fn instantiate_dex_sets_up_reserves_supply_ratio_and_fee() {
    let (pool, minted) =
        Dex::instantiate_dex(a(units(1000)), b(units(1000)), lp_token(), units(1000), steps(997 * STEPS / 1000))
            .unwrap();
    assert_eq!(minted, lp(units(1000)));
    assert_eq!(pool.asset_a(), asset_a());
    assert_eq!(pool.asset_b(), asset_b());
    assert_eq!(pool.lp_token(), lp_token());
    assert_eq!(pool.reserve_a(), units(1000));
    assert_eq!(pool.reserve_b(), units(1000));
    assert_eq!(pool.lp_supply(), units(1000));
    assert_eq!(pool.lp_unit_ratio(), steps(1_000_000_000_000_000));
    assert_eq!(pool.swap_fee(), steps(997_000_000_000_000_000));
}

#[test]
fn instantiate_dex_cuts_the_unit_ratio_off() {
    let (pool, _) =
        Dex::instantiate_dex(a(units(1000)), b(units(3000)), lp_token(), units(500), Fixed::one()).unwrap();
    assert_eq!(pool.lp_unit_ratio(), steps(166_666_666_666_666));
}

#[test]
fn instantiate_dex_takes_the_fees_zero_and_one() {
    assert!(Dex::instantiate_dex(a(units(1)), b(units(1)), lp_token(), units(1), Fixed::zero()).is_ok());
    assert!(Dex::instantiate_dex(a(units(1)), b(units(1)), lp_token(), units(1), Fixed::one()).is_ok());
}

#[test]
fn swap_of_100_a_pays_out_about_90_b() {
    let mut pool = pool(1000, 1000, 1000, 997);
    let output = pool.swap(a(units(100))).unwrap();
    assert_eq!(output, b(steps(90_661_089_388_014_913_158)));
    let paid = output.amount.to_attos().unwrap();
    assert!((paid - 90_750_000_000_000_000_000).abs() < STEPS / 10);
    assert_eq!(pool.reserve_a(), units(1100));
    assert_eq!(pool.reserve_b(), steps(909_338_910_611_985_086_842));
    assert_eq!(pool.lp_supply(), units(1000));
}

#[test]
fn swap_of_b_pays_out_a() {
    let mut pool = pool(1000, 1000, 1000, 997);
    pool.swap(a(units(100))).unwrap();
    let output = pool.swap(b(units(50))).unwrap();
    assert_eq!(output, a(steps(57_168_092_117_551_672_048)));
    assert_eq!(pool.reserve_a(), steps(1_042_831_907_882_448_327_952));
    assert_eq!(pool.reserve_b(), steps(959_338_910_611_985_086_842));
}

#[test]
fn swap_of_nothing_pays_out_nothing() {
    let mut pool = pool(1000, 1000, 1000, 997);
    assert_eq!(pool.swap(a(Fixed::zero())), Ok(b(Fixed::zero())));
    assert_eq!(pool.reserve_a(), units(1000));
    assert_eq!(pool.reserve_b(), units(1000));
}

#[test]
fn swap_of_one_step_is_kept_whole() {
    let mut pool = pool(1000, 1000, 1000, 997);
    assert_eq!(pool.swap(a(steps(1))), Ok(b(Fixed::zero())));
    assert_eq!(pool.reserve_a(), steps(1000 * STEPS + 1));
    assert_eq!(pool.reserve_b(), units(1000));
}

#[test]
fn swap_at_fee_zero_pays_out_nothing() {
    let mut pool = pool(1000, 1000, 1000, 0);
    assert_eq!(pool.swap(a(units(100))), Ok(b(Fixed::zero())));
    assert_eq!(pool.reserve_a(), units(1100));
    assert_eq!(pool.reserve_b(), units(1000));
}

#[test]
fn swap_at_fee_one_keeps_the_product() {
    let mut pool = pool(1000, 1000, 1000, 1000);
    assert_eq!(pool.swap(a(units(1000))), Ok(b(units(500))));
    assert_eq!(pool.reserve_a(), units(2000));
    assert_eq!(pool.reserve_b(), units(500));
}

#[test]
fn swap_where_both_assets_are_one_counts_the_input_as_the_first() {
    let (mut pool, _) =
        Dex::instantiate_dex(a(units(1000)), a(units(500)), lp_token(), units(1000), Fixed::one()).unwrap();
    let output = pool.swap(a(units(1000))).unwrap();
    assert_eq!(output, a(units(250)));
    assert_eq!(pool.reserve_a(), units(2000));
    assert_eq!(pool.reserve_b(), units(250));
}

#[test]
fn add_liquidity_with_a_in_excess_gives_change_in_a() {
    let mut pool = pool(1000, 1000, 1000, 997);
    let (rest_a, rest_b, minted) = pool.add_liquidity(a(units(500)), b(units(400))).unwrap();
    assert_eq!(rest_a, a(units(100)));
    assert_eq!(rest_b, b(Fixed::zero()));
    assert_eq!(minted, lp(units(400)));
    assert_eq!(pool.reserve_a(), units(1400));
    assert_eq!(pool.reserve_b(), units(1400));
    assert_eq!(pool.lp_supply(), units(1400));
    assert_eq!(pool.lp_unit_ratio(), steps(1_000_000_000_000_000));
}

#[test]
fn add_liquidity_with_b_in_excess_gives_change_in_b() {
    let mut pool = pool(1000, 1000, 1000, 997);
    let (rest_a, rest_b, minted) = pool.add_liquidity(a(units(300)), b(units(450))).unwrap();
    assert_eq!(rest_a, a(Fixed::zero()));
    assert_eq!(rest_b, b(units(150)));
    assert_eq!(minted, lp(units(300)));
    assert_eq!(pool.reserve_a(), units(1300));
    assert_eq!(pool.reserve_b(), units(1300));
    assert_eq!(pool.lp_supply(), units(1300));
}

#[test]
fn add_liquidity_in_balance_mints_by_the_unit_ratio() {
    let mut pool = pool(1000, 1000, 1000, 997);
    let (rest_a, rest_b, minted) = pool.add_liquidity(a(units(500)), b(units(500))).unwrap();
    assert_eq!(rest_a, a(Fixed::zero()));
    assert_eq!(rest_b, b(Fixed::zero()));
    assert_eq!(minted, lp(units(250)));
    assert_eq!(pool.reserve_a(), units(1500));
    assert_eq!(pool.reserve_b(), units(1500));
    assert_eq!(pool.lp_supply(), units(1250));
}

#[test]
fn add_liquidity_cuts_off_in_uneven_pools() {
    let mut first = pool(1000, 3000, 500, 997);
    let (rest_a, rest_b, minted) = first.add_liquidity(a(units(70)), b(units(333))).unwrap();
    assert_eq!(rest_a, a(Fixed::zero()));
    assert_eq!(rest_b, b(units(123)));
    assert_eq!(minted, lp(units(35)));
    let mut second = pool(1000, 3000, 500, 997);
    let (rest_a, rest_b, minted) = second.add_liquidity(a(units(333)), b(units(70))).unwrap();
    assert_eq!(rest_a, a(steps(333 * STEPS - 23_333_333_333_333_333_000)));
    assert_eq!(rest_b, b(Fixed::zero()));
    assert_eq!(minted, lp(steps(11_666_666_666_666_666_500)));
    assert_eq!(second.reserve_a(), steps(1_023_333_333_333_333_333_000));
    assert_eq!(second.reserve_b(), units(3070));
    assert_eq!(second.lp_supply(), steps(511_666_666_666_666_666_500));
}

#[test]
fn add_liquidity_of_one_asset_alone_takes_nothing() {
    let mut pool = pool(1000, 1000, 1000, 997);
    let (rest_a, rest_b, minted) = pool.add_liquidity(a(units(500)), b(Fixed::zero())).unwrap();
    assert_eq!(rest_a, a(units(500)));
    assert_eq!(rest_b, b(Fixed::zero()));
    assert_eq!(minted, lp(Fixed::zero()));
    assert_eq!(pool.reserve_a(), units(1000));
    assert_eq!(pool.reserve_b(), units(1000));
    assert_eq!(pool.lp_supply(), units(1000));
}

#[test]
fn add_liquidity_hands_a_stray_bucket_back_whole() {
    let stray = Bucket::new(ResourceId { bytes: [0xee; 30] }, units(77));
    let mut pool = pool(1000, 1000, 1000, 997);
    let (rest_a, rest_b, minted) = pool.add_liquidity(a(units(500)), stray).unwrap();
    assert_eq!(rest_a, a(units(500)));
    assert_eq!(rest_b, stray);
    assert_eq!(minted, lp(Fixed::zero()));
    assert_eq!(pool.reserve_a(), units(1000));
    assert_eq!(pool.reserve_b(), units(1000));
    assert_eq!(pool.lp_supply(), units(1000));
}

#[test]
fn add_liquidity_hands_buckets_on_the_wrong_sides_back_whole() {
    let mut pool = pool(1000, 1000, 1000, 997);
    let (rest_a, rest_b, minted) = pool.add_liquidity(b(units(10)), a(units(10))).unwrap();
    assert_eq!(rest_a, b(units(10)));
    assert_eq!(rest_b, a(units(10)));
    assert_eq!(minted, lp(Fixed::zero()));
    assert_eq!(pool.reserve_a(), units(1000));
    assert_eq!(pool.reserve_b(), units(1000));
}

#[test]
fn remove_liquidity_of_200_in_1000_pays_out_200_of_each() {
    let mut pool = pool(1000, 1000, 1000, 997);
    let (out_a, out_b) = pool.remove_liquidity(lp(units(200))).unwrap();
    assert_eq!(out_a, a(units(200)));
    assert_eq!(out_b, b(units(200)));
    assert_eq!(pool.lp_supply(), units(800));
    assert_eq!(pool.reserve_a(), units(800));
    assert_eq!(pool.reserve_b(), units(800));
}

#[test]
fn remove_liquidity_of_a_third_cuts_off() {
    let mut pool = pool(1000, 3000, 700, 997);
    let third = steps(700 * STEPS / 3);
    let (out_a, out_b) = pool.remove_liquidity(lp(third)).unwrap();
    assert_eq!(out_a, a(steps(333_333_333_333_333_333_000)));
    assert_eq!(out_b, b(steps(999_999_999_999_999_999_000)));
    assert_eq!(pool.reserve_a(), steps(666_666_666_666_666_667_000));
    assert_eq!(pool.reserve_b(), steps(2_000_000_000_000_000_001_000));
    assert_eq!(pool.lp_supply(), steps(466_666_666_666_666_666_667));
}

#[test]
fn remove_liquidity_of_nothing_pays_out_nothing() {
    let mut pool = pool(1000, 1000, 1000, 997);
    assert_eq!(pool.remove_liquidity(lp(Fixed::zero())), Ok((a(Fixed::zero()), b(Fixed::zero()))));
    assert_eq!(pool.lp_supply(), units(1000));
}

#[test]
fn remove_liquidity_of_the_whole_supply_drains_the_pool() {
    let mut pool = pool(1000, 1000, 1000, 997);
    let (out_a, out_b) = pool.remove_liquidity(lp(units(1000))).unwrap();
    assert_eq!(out_a, a(units(1000)));
    assert_eq!(out_b, b(units(1000)));
    assert!(pool.reserve_a().is_zero());
    assert!(pool.reserve_b().is_zero());
    assert!(pool.lp_supply().is_zero());
    assert_eq!(pool.lp_unit_ratio(), steps(1_000_000_000_000_000));
    assert_eq!(pool.swap(a(units(100))), Ok(b(Fixed::zero())));
    assert_eq!(pool.reserve_a(), units(100));
}

#[test]
fn swap_for_more_than_the_reserve_fails_and_changes_nothing() {
    let mut pool = pool(1000, 1000, 1000, 997);
    pool.remove_liquidity(lp(units(1000))).unwrap();
    pool.swap(a(units(100))).unwrap();
    assert_eq!(pool.reserve_a(), units(100));
    assert!(pool.reserve_b().is_zero());
    assert_eq!(pool.swap(b(steps(2))), Err(DexError::InsufficientLiquidity));
    assert_eq!(pool.reserve_a(), units(100));
    assert!(pool.reserve_b().is_zero());
    assert!(pool.lp_supply().is_zero());
}

#[test]
fn from_parts_puts_a_pool_together() {
    let mut pool = Dex::from_parts(
        asset_a(),
        asset_b(),
        lp_token(),
        units(1100),
        steps(909_338_910_611_985_086_842),
        units(1000),
        steps(1_000_000_000_000_000),
        steps(997_000_000_000_000_000),
    )
    .unwrap();
    assert_eq!(pool.asset_a(), asset_a());
    assert_eq!(pool.asset_b(), asset_b());
    assert_eq!(pool.lp_token(), lp_token());
    assert_eq!(pool.reserve_a(), units(1100));
    assert_eq!(pool.lp_unit_ratio(), steps(1_000_000_000_000_000));
    assert_eq!(pool.swap(b(units(50))), Ok(a(steps(57_168_092_117_551_672_048))));
}

#[test]
fn from_parts_turns_down_what_no_pool_holds() {
    let build = |reserve_a: Fixed, reserve_b: Fixed, supply: Fixed, ratio: Fixed, fee: Fixed| {
        Dex::from_parts(asset_a(), asset_b(), lp_token(), reserve_a, reserve_b, supply, ratio, fee).is_some()
    };
    let one = Fixed::one();
    assert!(build(one, one, one, one, one));
    assert!(build(Fixed::zero(), Fixed::zero(), Fixed::zero(), Fixed::zero(), Fixed::zero()));
    assert!(!build(steps(-1), one, one, one, one));
    assert!(!build(one, steps(-1), one, one, one));
    assert!(!build(one, one, steps(-1), one, one));
    assert!(!build(one, one, one, steps(-1), one));
    assert!(!build(one, one, one, one, steps(-1)));
    assert!(!build(one, one, one, one, steps(STEPS + 1)));
}
