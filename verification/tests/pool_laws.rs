use dex::asset::{Bucket, ResourceId};
use dex::fixed::Fixed;
use dex::pool::Dex;
use scrypto::math::I512;

const ONE: i128 = 1_000_000_000_000_000_000;

fn gold() -> ResourceId {
    ResourceId { bytes: [0x01; 30] }
}

fn iron() -> ResourceId {
    ResourceId { bytes: [0x02; 30] }
}

fn token() -> ResourceId {
    ResourceId { bytes: [0x03; 30] }
}

fn num(steps: i128) -> Fixed {
    Fixed::from_attos(steps)
}

fn read(x: Fixed) -> i128 {
    x.to_attos().unwrap()
}

fn new_pool(reserve_gold: i128, reserve_iron: i128, supply: i128, fee: i128) -> Dex {
    Dex::instantiate_dex(
        Bucket::new(gold(), num(reserve_gold)),
        Bucket::new(iron(), num(reserve_iron)),
        token(),
        num(supply),
        num(fee),
    )
    .unwrap()
    .0
}

fn product(pool: &Dex) -> I512 {
    I512::from(read(pool.reserve_a())) * I512::from(read(pool.reserve_b()))
}

fn quote(fee: i128) -> i128 {
    let mut pool = new_pool(1000 * ONE, 1000 * ONE, 1000 * ONE, fee);
    read(pool.swap(Bucket::new(gold(), num(100 * ONE))).unwrap().amount)
}

#[test]
fn swaps_raise_the_product_of_the_reserves() {
    let mut pool = new_pool(1000 * ONE, 1000 * ONE, 1000 * ONE, 997 * ONE / 1000);
    let inputs = [
        (gold(), 100 * ONE),
        (iron(), 50 * ONE),
        (iron(), 777 * ONE + 13),
        (gold(), 1),
        (gold(), 3 * ONE / 7),
        (iron(), 2500 * ONE),
        (gold(), 9_999 * ONE),
    ];
    let mut before = product(&pool);
    assert_eq!(before, I512::from(1000 * ONE) * I512::from(1000 * ONE));
    for (asset, amount) in inputs {
        pool.swap(Bucket::new(asset, num(amount))).unwrap();
        let after = product(&pool);
        assert!(after > before);
        before = after;
    }
}

#[test]
fn swaps_without_fee_do_not_lower_the_product() {
    let mut pool = new_pool(1000 * ONE, 1000 * ONE, 1000 * ONE, ONE);
    let start = product(&pool);
    pool.swap(Bucket::new(gold(), num(1000 * ONE))).unwrap();
    assert_eq!(product(&pool), start);
    pool.swap(Bucket::new(iron(), num(333 * ONE + 1))).unwrap();
    assert!(product(&pool) >= start);
}

#[test]
fn swap_in_a_pool_of_one_step_is_rounded_in_the_taker_s_favour() {
    let mut pool = new_pool(1, 10 * ONE, ONE, 997 * ONE / 1000);
    let before = product(&pool);
    let output = pool.swap(Bucket::new(gold(), num(1))).unwrap();
    assert_eq!(output, Bucket::new(iron(), num(9 * ONE)));
    assert_eq!(read(pool.reserve_a()), 2);
    assert_eq!(read(pool.reserve_b()), ONE);
    assert!(product(&pool) < before);
}

#[test]
fn a_larger_fee_factor_pays_out_more() {
    assert_eq!(quote(0), 0);
    assert_eq!(quote(ONE / 2), 47_619_047_619_047_619_047);
    assert_eq!(quote(997 * ONE / 1000), 90_661_089_388_014_913_158);
    assert_eq!(quote(ONE), 90_909_090_909_090_909_090);
    assert!(quote(0) < quote(ONE / 2));
    assert!(quote(ONE / 2) < quote(997 * ONE / 1000));
    assert!(quote(997 * ONE / 1000) < quote(ONE));
}

#[test]
fn a_deposit_withdrawn_again_gives_back_no_more() {
    let deposits = [
        (70 * ONE, 333 * ONE),
        (333 * ONE, 70 * ONE),
        (ONE / 3, 5 * ONE),
        (1, 1),
        (100 * ONE, 300 * ONE),
        (999 * ONE, 2_999 * ONE),
    ];
    for (offer_gold, offer_iron) in deposits {
        let mut pool = new_pool(1000 * ONE, 3000 * ONE, 500 * ONE, 997 * ONE / 1000);
        let (rest_gold, rest_iron, minted) = pool
            .add_liquidity(Bucket::new(gold(), num(offer_gold)), Bucket::new(iron(), num(offer_iron)))
            .unwrap();
        let went_in_gold = offer_gold - read(rest_gold.amount);
        let went_in_iron = offer_iron - read(rest_iron.amount);
        if minted.is_empty() {
            continue;
        }
        let price_gold = read(pool.reserve_b());
        let price_iron = read(pool.reserve_a());
        let (back_gold, back_iron) = pool.remove_liquidity(minted).unwrap();
        assert!(read(back_gold.amount) <= went_in_gold);
        assert!(read(back_iron.amount) <= went_in_iron);
        let worth_back = I512::from(read(back_gold.amount)) * I512::from(price_gold)
            + I512::from(read(back_iron.amount)) * I512::from(price_iron);
        let worth_in =
            I512::from(went_in_gold) * I512::from(price_gold) + I512::from(went_in_iron) * I512::from(price_iron);
        assert!(worth_back <= worth_in);
        assert_eq!(read(pool.lp_supply()), 500 * ONE);
        assert!(read(pool.reserve_a()) >= 1000 * ONE);
        assert!(read(pool.reserve_b()) >= 3000 * ONE);
    }
}

#[test]
fn a_deposit_withdrawn_again_loses_a_few_steps_to_rounding() {
    let mut pool = new_pool(1000 * ONE, 3000 * ONE, 500 * ONE, 997 * ONE / 1000);
    let (_, _, minted) =
        pool.add_liquidity(Bucket::new(gold(), num(70 * ONE)), Bucket::new(iron(), num(333 * ONE))).unwrap();
    let (back_gold, back_iron) = pool.remove_liquidity(minted).unwrap();
    assert_eq!(read(back_gold.amount), 69_999_999_999_999_999_570);
    assert_eq!(read(back_iron.amount), 209_999_999_999_999_998_710);
}

#[test]
fn a_deposit_in_balance_that_outweighs_the_pool_earns_more_than_its_share() {
    let mut pool = new_pool(1000 * ONE, 1000 * ONE, 1000 * ONE, 997 * ONE / 1000);
    let (_, _, minted) =
        pool.add_liquidity(Bucket::new(gold(), num(2000 * ONE)), Bucket::new(iron(), num(2000 * ONE))).unwrap();
    assert_eq!(read(minted.amount), 4000 * ONE);
    let (back_gold, back_iron) = pool.remove_liquidity(minted).unwrap();
    assert_eq!(read(back_gold.amount), 2400 * ONE);
    assert_eq!(read(back_iron.amount), 2400 * ONE);
}

#[test]
fn a_withdrawal_pays_out_the_share_of_each_reserve() {
    let supply = 700 * ONE;
    let (held_gold, held_iron) = (1000 * ONE, 3000 * ONE);
    let burned = [1, 7, ONE / 3, supply / 3, 200 * ONE, supply - 1, supply];
    for lp in burned {
        let mut pool = new_pool(held_gold, held_iron, supply, 997 * ONE / 1000);
        let (out_gold, out_iron) = pool.remove_liquidity(Bucket::new(token(), num(lp))).unwrap();
        for (out, held) in [(read(out_gold.amount), held_gold), (read(out_iron.amount), held_iron)] {
            let exact = I512::from(lp) * I512::from(held);
            assert!(I512::from(out) * I512::from(supply) <= exact);
            let slack = I512::from(supply) * I512::from(ONE) + I512::from(held) * I512::from(supply);
            assert!(exact * I512::from(ONE) < I512::from(out) * I512::from(supply) * I512::from(ONE) + slack);
        }
        assert_eq!(read(pool.lp_supply()), supply - lp);
        assert_eq!(read(pool.reserve_a()), held_gold - read(out_gold.amount));
        assert_eq!(read(pool.reserve_b()), held_iron - read(out_iron.amount));
    }
}

#[test]
fn a_withdrawal_with_nothing_to_cut_off_pays_out_the_exact_share() {
    let mut pool = new_pool(1000 * ONE, 3000 * ONE, 700 * ONE, 997 * ONE / 1000);
    let (out_gold, out_iron) = pool.remove_liquidity(Bucket::new(token(), num(175 * ONE))).unwrap();
    assert_eq!(read(out_gold.amount), 250 * ONE);
    assert_eq!(read(out_iron.amount), 750 * ONE);
}
