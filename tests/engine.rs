use amm_core::error::ErrorCode;
use amm_core::full_math::{mul_div_ceil, mul_div_floor, mul_q64_floor, Q64};
use amm_core::liquidity::{
    get_amounts_for_liquidity, get_liquidity_for_amounts, increase_liquidity, IncreaseLiquidity, PoolState,
};
use amm_core::metadata::{personal_position_with_metadata, PersonalPositionWithMetadata};
use amm_core::position::{accrue, PersonalPositionState, PositionRewardInfo, ProtocolPositionState};
use amm_core::tick::{add_liquidity_delta, get_fee_growth_inside, get_reward_growths_inside, TickState};
use amm_core::tick_bitmap::TickBitmap;

const EMPTY_REWARD: PositionRewardInfo = PositionRewardInfo { growth_inside_last_x64: 0, reward_amount_owed: 0 };

fn personal(liquidity: u128, last_0: u128, last_1: u128) -> PersonalPositionState {
    PersonalPositionState {
        nft_mint: [7u8; 32],
        tick_lower_index: -100,
        tick_upper_index: 100,
        liquidity,
        fee_growth_inside_0_last_x64: last_0,
        fee_growth_inside_1_last_x64: last_1,
        token_fees_owed_0: 0,
        token_fees_owed_1: 0,
        reward_infos: [EMPTY_REWARD; 3],
    }
}

fn protocol() -> ProtocolPositionState {
    ProtocolPositionState {
        tick_lower_index: -100,
        tick_upper_index: 100,
        liquidity: 0,
        fee_growth_inside_0_last_x64: 0,
        fee_growth_inside_1_last_x64: 0,
        reward_growth_inside: [0; 3],
    }
}

fn tick_with_outside(tick: i32, outside: u128) -> TickState {
    let mut t = TickState::new(tick);
    t.fee_growth_outside_0_x64 = outside;
    t.fee_growth_outside_1_x64 = outside;
    t.reward_growths_outside_x64 = [outside; 3];
    t
}

const SA: u128 = 1152921504606846976;
const SP: u128 = 1268213655067531673;
const SB: u128 = 1383505805528216371;

fn accounts(sqrt_price: u128, tick_current: i32) -> IncreaseLiquidity {
    IncreaseLiquidity {
        personal_position_state: personal(0, 0, 0),
        pool_state: PoolState {
            tick_spacing: 1,
            tick_current,
            sqrt_price_x64: sqrt_price,
            liquidity: 0,
            fee_growth_global_0_x64: 40,
            fee_growth_global_1_x64: 50,
            reward_growths_global_x64: [1, 2, 3],
            max_liquidity_per_tick: u128::MAX / 2,
        },
        protocol_position_state: protocol(),
        tick_lower_state: TickState::new(-100),
        tick_upper_state: TickState::new(100),
        tick_bitmap: TickBitmap::new(1).unwrap(),
        sqrt_price_lower_x64: SA,
        sqrt_price_upper_x64: SB,
    }
}

#[test]
fn mul_div_floor_rounds_down() {
    assert_eq!(mul_div_floor(7, 3, 2), Ok(10));
    assert_eq!(mul_div_floor(500, 1000, Q64), Ok(0));
    assert_eq!(mul_div_floor(500 * Q64, 1000, Q64), Ok(500_000));
}

#[test]
fn mul_div_ceil_rounds_up() {
    assert_eq!(mul_div_ceil(7, 3, 2), Ok(11));
    assert_eq!(mul_div_ceil(6, 2, 3), Ok(4));
}

#[test]
fn mul_div_errors() {
    assert_eq!(mul_div_floor(1, 1, 0), Err(ErrorCode::DivideByZero));
    assert_eq!(mul_div_floor(u128::MAX, 2, 1), Err(ErrorCode::ArithmeticOverflow));
    assert_eq!(mul_div_ceil(u128::MAX, u128::MAX, 1), Err(ErrorCode::ArithmeticOverflow));
    assert_eq!(mul_div_ceil(u128::MAX, 3, 2), Err(ErrorCode::ArithmeticOverflow));
    assert_eq!(mul_div_ceil(1, 1, 0), Err(ErrorCode::DivideByZero));
}

#[test]
fn liquidity_delta_bounds() {
    assert_eq!(add_liquidity_delta(10, -3), Ok(7));
    assert_eq!(add_liquidity_delta(10, -11), Err(ErrorCode::LiquidityUnderflow));
    assert_eq!(add_liquidity_delta(u128::MAX, 1), Err(ErrorCode::ArithmeticOverflow));
    assert_eq!(add_liquidity_delta(0, i128::MIN), Err(ErrorCode::LiquidityUnderflow));
}

#[test]
fn fee_growth_inside_case_table() {
    let lower = tick_with_outside(-100, 10);
    let upper = tick_with_outside(100, 20);
    // price inside: global - outside below - outside above
    assert_eq!(get_fee_growth_inside(&lower, &upper, 0, 100, 100), (70, 70));
    // price on the lower boundary counts as inside
    assert_eq!(get_fee_growth_inside(&lower, &upper, -100, 100, 100), (70, 70));
    // price below: the lower tick's outside is flipped
    assert_eq!(get_fee_growth_inside(&lower, &upper, -200, 100, 100), (u128::MAX - 9, u128::MAX - 9));
    // price on the upper boundary counts as above
    assert_eq!(get_fee_growth_inside(&lower, &upper, 100, 100, 100), (10, 10));
    let rewards = get_reward_growths_inside(&lower, &upper, 0, [100, 200, 300]);
    assert_eq!(rewards, [70, 170, 270]);
}

#[test]
fn growth_inside_advances_across_the_modulus() {
    let lower = tick_with_outside(-100, 10);
    let upper = tick_with_outside(100, 0);
    let (before, _) = get_fee_growth_inside(&lower, &upper, 0, 5, 5);
    assert_eq!(before, u128::MAX - 4);
    let (after, _) = get_fee_growth_inside(&lower, &upper, 0, 15, 15);
    assert_eq!(after, 5);
    assert_eq!(after.wrapping_sub(before), 10);
    // outside the range the growth inside does not move
    let (below_before, _) = get_fee_growth_inside(&lower, &upper, -500, 5, 5);
    let (below_after, _) = get_fee_growth_inside(&lower, &upper, -500, 15, 15);
    assert_eq!(below_after.wrapping_sub(below_before), 0);
}

#[test]
fn tick_update_flips_and_clears() {
    let mut lower = TickState::new(-100);
    assert_eq!(lower.update(0, 1000, 50, 60, [1, 2, 3], false, u128::MAX), Ok(true));
    assert_eq!(lower.liquidity_gross, 1000);
    assert_eq!(lower.liquidity_net, 1000);
    assert_eq!(lower.fee_growth_outside_0_x64, 50);
    assert_eq!(lower.fee_growth_outside_1_x64, 60);
    assert_eq!(lower.reward_growths_outside_x64, [1, 2, 3]);
    assert_eq!(lower.update(0, 500, 70, 80, [4, 5, 6], false, u128::MAX), Ok(false));
    assert_eq!(lower.fee_growth_outside_0_x64, 50);
    assert_eq!(lower.liquidity_gross, 1500);
    assert_eq!(lower.update(0, -1500, 70, 80, [4, 5, 6], false, u128::MAX), Ok(true));
    assert_eq!(lower.liquidity_gross, 0);
    assert_eq!(lower.liquidity_net, 0);
    assert_eq!(lower.fee_growth_outside_0_x64, 0);

    let mut upper = TickState::new(100);
    assert_eq!(upper.update(0, 1000, 50, 60, [1, 2, 3], true, u128::MAX), Ok(true));
    assert_eq!(upper.liquidity_net, -1000);
    assert_eq!(upper.fee_growth_outside_0_x64, 0);
}

#[test]
fn tick_update_errors_leave_tick_unchanged() {
    let mut t = TickState::new(0);
    assert_eq!(t.update(0, 1001, 0, 0, [0; 3], false, 1000), Err(ErrorCode::LiquidityOverflow));
    assert_eq!(t.update(0, -1, 0, 0, [0; 3], false, 1000), Err(ErrorCode::LiquidityUnderflow));
    assert_eq!(t.liquidity_gross, 0);
    t.liquidity_net = i128::MAX;
    t.liquidity_gross = 1;
    assert_eq!(t.update(0, 1, 0, 0, [0; 3], false, 1000), Err(ErrorCode::ArithmeticOverflow));
    assert_eq!(t.liquidity_gross, 1);
}

#[test]
fn tick_cross_flips_outside_and_moves_liquidity() {
    let mut t = tick_with_outside(100, 10);
    t.liquidity_net = 300;
    t.liquidity_gross = 300;
    assert_eq!(t.cross(100, 100, [100; 3], false, 1000), Ok(1300));
    assert_eq!(t.fee_growth_outside_0_x64, 90);
    assert_eq!(t.reward_growths_outside_x64, [90; 3]);
    assert_eq!(t.cross(100, 100, [100; 3], true, 1000), Ok(700));
    assert_eq!(t.fee_growth_outside_0_x64, 10);
    assert_eq!(t.cross(100, 100, [100; 3], true, 200), Err(ErrorCode::LiquidityUnderflow));
    assert_eq!(t.fee_growth_outside_0_x64, 10);
}

#[test]
fn bitmap_rejects_bad_ticks() {
    assert!(TickBitmap::new(0).is_err());
    let mut b = TickBitmap::new(10).unwrap();
    assert_eq!(b.flip(5), Err(ErrorCode::InvalidTickSpacing));
    assert_eq!(b.flip(500_000), Err(ErrorCode::TickOutOfRange));
    assert_eq!(b.flip(-500_000), Err(ErrorCode::TickOutOfRange));
    assert_eq!(b.check_tick(-30), Ok(()));
}

#[test]
fn next_initialized_tick_in_both_directions() {
    let mut b = TickBitmap::new(1).unwrap();
    assert_eq!(b.flip(-100), Ok(()));
    assert_eq!(b.flip(100), Ok(()));
    assert_eq!(b.next_initialized_tick(0, true), (-100, true));
    assert_eq!(b.next_initialized_tick(0, false), (100, true));
    // strictly in the requested direction
    assert_eq!(b.next_initialized_tick(100, false), (443636, false));
    assert_eq!(b.next_initialized_tick(-100, true), (-443636, false));
    assert_eq!(b.next_initialized_tick(100, true), (-100, true));
    assert_eq!(b.next_initialized_tick(-100, false), (100, true));
    // flipping again uninitializes
    assert_eq!(b.flip(100), Ok(()));
    assert_eq!(b.next_initialized_tick(0, false), (443636, false));
}

#[test]
fn next_initialized_tick_across_many_words() {
    let mut b = TickBitmap::new(1).unwrap();
    assert_eq!(b.flip(-400_000), Ok(()));
    assert_eq!(b.flip(400_000), Ok(()));
    assert_eq!(b.next_initialized_tick(399_999, true), (-400_000, true));
    assert_eq!(b.next_initialized_tick(-399_999, false), (400_000, true));
    assert_eq!(b.next_initialized_tick(-443_636, false), (-400_000, true));
}

#[test]
fn next_initialized_tick_with_spacing() {
    let mut b = TickBitmap::new(60).unwrap();
    assert_eq!(b.flip(-120), Ok(()));
    assert_eq!(b.flip(600), Ok(()));
    assert_eq!(b.next_initialized_tick(-119, true), (-120, true));
    assert_eq!(b.next_initialized_tick(-120, true), (-443580, false));
    assert_eq!(b.next_initialized_tick(-121, false), (-120, true));
    assert_eq!(b.next_initialized_tick(30, false), (600, true));
    assert_eq!(b.next_initialized_tick(599, true), (-120, true));
}

#[test]
fn single_depositor_collects_growth_inside() {
    // literal growth (500, 300) is far below one unit of Q64: floor gives zero
    let mut a = personal(1000, 0, 0);
    assert_eq!(a.update_fees(500, 300), Ok(()));
    assert_eq!(a.token_fees_owed_0, (500u128 * 1000 / Q64) as u64);
    assert_eq!(a.token_fees_owed_1, (300u128 * 1000 / Q64) as u64);
    assert_eq!(a.token_fees_owed_0, 0);
    assert_eq!(a.fee_growth_inside_0_last_x64, 500);
    assert_eq!(a.fee_growth_inside_1_last_x64, 300);
    // the same growth in whole Q64 units
    let mut b = personal(1000, 0, 0);
    assert_eq!(b.update_fees(500 * Q64, 300 * Q64), Ok(()));
    assert_eq!(b.token_fees_owed_0, 500_000);
    assert_eq!(b.token_fees_owed_1, 300_000);
}

#[test]
fn two_depositors_share_rounded_down() {
    let delta = Q64 / 3;
    let mut a = personal(1000, 0, 0);
    let mut b = personal(500, 0, 0);
    assert_eq!(a.update_fees(delta, 0), Ok(()));
    assert_eq!(b.update_fees(delta, 0), Ok(()));
    assert_eq!(a.token_fees_owed_0, 333);
    assert_eq!(b.token_fees_owed_0, 166);
    let collected = mul_div_floor(delta, 1500, Q64).unwrap();
    assert_eq!(collected, 499);
    assert!(a.token_fees_owed_0 as u128 + b.token_fees_owed_0 as u128 <= collected);
}

#[test]
fn full_decrease_then_collect() {
    let mut p = personal(1000, 0, 0);
    p.token_fees_owed_0 = 7;
    // no growth since the snapshot: the decrease leaves the owed amount alone
    assert_eq!(p.settle(0, 0, [0; 3], -1000), Ok(()));
    assert_eq!(p.liquidity, 0);
    assert_eq!(p.token_fees_owed_0, 7);
    assert_eq!(p.collect_fees_and_rewards(u64::MAX, u64::MAX), (7, 0, [0; 3]));
    assert_eq!(p.token_fees_owed_0, 0);

    // growth since the snapshot settles at the liquidity held before
    let mut q = personal(1000, 0, 0);
    assert_eq!(q.settle(2 * Q64, Q64, [Q64, 0, 0], -1000), Ok(()));
    assert_eq!(q.liquidity, 0);
    assert_eq!(q.token_fees_owed_0, 2000);
    assert_eq!(q.token_fees_owed_1, 1000);
    assert_eq!(q.reward_infos[0].reward_amount_owed, 1000);
    assert_eq!(q.collect_fees_and_rewards(500, u64::MAX), (500, 1000, [1000, 0, 0]));
    assert_eq!(q.token_fees_owed_0, 1500);
    assert_eq!(q.token_fees_owed_1, 0);
    assert_eq!(q.liquidity, 0);
}

#[test]
fn settle_errors_leave_position_unchanged() {
    let mut p = personal(1000, 0, 0);
    assert_eq!(p.settle(0, 0, [0; 3], -1001), Err(ErrorCode::LiquidityUnderflow));
    assert_eq!(p.liquidity, 1000);
    p.token_fees_owed_0 = u64::MAX - 1;
    assert_eq!(p.settle(Q64, 0, [0; 3], 5), Err(ErrorCode::ArithmeticOverflow));
    assert_eq!(p.token_fees_owed_0, u64::MAX - 1);
    assert_eq!(p.fee_growth_inside_0_last_x64, 0);
    assert_eq!(p.liquidity, 1000);
}

#[test]
fn accrual_wraps_across_the_modulus() {
    // the snapshot sits just under 2^128 and the growth wrapped past zero
    assert_eq!(accrue(0, u128::MAX - Q64 + 1, Q64, 10), Ok(20));
}

#[test]
fn rewards_settle_per_stream() {
    let mut p = personal(100, 0, 0);
    assert_eq!(p.update_rewards([Q64, 2 * Q64, 3 * Q64]), Ok(()));
    assert_eq!(p.reward_infos[0].reward_amount_owed, 100);
    assert_eq!(p.reward_infos[1].reward_amount_owed, 200);
    assert_eq!(p.reward_infos[2].reward_amount_owed, 300);
    assert_eq!(p.reward_infos[2].growth_inside_last_x64, 3 * Q64);
}

#[test]
fn protocol_position_returns_previous_snapshot() {
    let mut pp = protocol();
    assert_eq!(pp.update(1000, 5, 6, [7, 8, 9]), Ok((0, 0, [0; 3])));
    assert_eq!(pp.update(-400, 10, 11, [12, 13, 14]), Ok((5, 6, [7, 8, 9])));
    assert_eq!(pp.liquidity, 600);
    assert_eq!(pp.update(-601, 0, 0, [0; 3]), Err(ErrorCode::LiquidityUnderflow));
    assert_eq!(pp.liquidity, 600);
    assert_eq!(pp.fee_growth_inside_0_last_x64, 10);
}

#[test]
fn liquidity_for_amounts_by_price_position() {
    assert_eq!(get_liquidity_for_amounts(SP, SA, SB, 1_000_000, 1_000_000), Ok(824999));
    assert_eq!(get_amounts_for_liquidity(SP, SA, SB, 824999), Ok((999999, 5157)));
    assert_eq!(get_liquidity_for_amounts(SA, SA, SB, 1_000_000, 1_000_000), Ok(374999));
    assert_eq!(get_amounts_for_liquidity(SA, SA, SB, 374999), Ok((999998, 0)));
    assert_eq!(get_liquidity_for_amounts(SB, SA, SB, 1_000_000, 1_000_000), Ok(80000000));
    assert_eq!(get_amounts_for_liquidity(SB, SA, SB, 80000000), Ok((0, 1000000)));
}

#[test]
fn increase_liquidity_updates_every_record() {
    let mut acc = accounts(SP, 0);
    let ev = increase_liquidity(&mut acc, 1_000_000, 1_000_000, 999_999, 5157).unwrap();
    assert_eq!(ev.liquidity, 824999);
    assert_eq!(ev.amount_0, 999999);
    assert_eq!(ev.amount_1, 5157);
    assert_eq!(ev.position_nft_mint, [7u8; 32]);
    assert_eq!(acc.personal_position_state.liquidity, 824999);
    assert_eq!(acc.protocol_position_state.liquidity, 824999);
    assert_eq!(acc.pool_state.liquidity, 824999);
    assert_eq!(acc.tick_lower_state.liquidity_gross, 824999);
    assert_eq!(acc.tick_upper_state.liquidity_net, -824999);
    // lower tick sits below the price: it takes the global growth as outside
    assert_eq!(acc.tick_lower_state.fee_growth_outside_0_x64, 40);
    assert_eq!(acc.tick_upper_state.fee_growth_outside_0_x64, 0);
    assert_eq!(acc.protocol_position_state.fee_growth_inside_0_last_x64, 0);
    assert_eq!(acc.personal_position_state.fee_growth_inside_1_last_x64, 0);
    assert_eq!(acc.tick_bitmap.next_initialized_tick(0, true), (-100, true));
    assert_eq!(acc.tick_bitmap.next_initialized_tick(0, false), (100, true));

    // a second deposit reuses the initialized ticks
    let ev2 = increase_liquidity(&mut acc, 1_000_000, 1_000_000, 0, 0).unwrap();
    assert_eq!(ev2.liquidity, 824999);
    assert_eq!(acc.personal_position_state.liquidity, 2 * 824999);
    assert_eq!(acc.protocol_position_state.liquidity, 2 * 824999);
    assert_eq!(acc.tick_bitmap.next_initialized_tick(-100, true), (-443636, false));
}

#[test]
fn increase_liquidity_outside_the_range() {
    let mut acc = accounts(SA - 1, -200);
    let ev = increase_liquidity(&mut acc, 1_000_000, 1_000_000, 0, 0).unwrap();
    assert_eq!(ev.liquidity, 374999);
    assert_eq!((ev.amount_0, ev.amount_1), (999998, 0));
    assert_eq!(acc.pool_state.liquidity, 0);
    assert_eq!(acc.tick_lower_state.fee_growth_outside_0_x64, 0);
}

#[test]
fn increase_liquidity_rejects_slippage_without_writing() {
    let mut acc = accounts(SP, 0);
    assert_eq!(
        increase_liquidity(&mut acc, 1_000_000, 1_000_000, 1_000_000, 0).unwrap_err(),
        ErrorCode::SlippageExceeded
    );
    assert_eq!(acc.personal_position_state.liquidity, 0);
    assert_eq!(acc.tick_lower_state.liquidity_gross, 0);
    assert_eq!(acc.tick_bitmap.next_initialized_tick(0, true), (-443636, false));
}

#[test]
fn increase_liquidity_rejects_bad_ranges() {
    let mut acc = accounts(SP, 0);
    acc.tick_lower_state = TickState::new(100);
    acc.tick_upper_state = TickState::new(-100);
    acc.personal_position_state.tick_lower_index = 100;
    acc.personal_position_state.tick_upper_index = -100;
    acc.protocol_position_state.tick_lower_index = 100;
    acc.protocol_position_state.tick_upper_index = -100;
    assert_eq!(increase_liquidity(&mut acc, 1, 1, 0, 0).unwrap_err(), ErrorCode::InvalidTickSpacing);
    let mut acc2 = accounts(SP, 0);
    acc2.tick_upper_state = TickState::new(500_000);
    acc2.personal_position_state.tick_upper_index = 500_000;
    acc2.protocol_position_state.tick_upper_index = 500_000;
    assert_eq!(increase_liquidity(&mut acc2, 1, 1, 0, 0).unwrap_err(), ErrorCode::TickOutOfRange);
    let mut acc3 = accounts(SP, 0);
    acc3.sqrt_price_upper_x64 = SA;
    assert_eq!(increase_liquidity(&mut acc3, 1, 1, 0, 0).unwrap_err(), ErrorCode::TickOutOfRange);
}

#[test]
fn metadata_request_names_the_config_as_authority() {
    let accounts = PersonalPositionWithMetadata {
        payer: [1; 32],
        amm_config: [2; 32],
        amm_config_bump: 254,
        nft_mint: [3; 32],
        metadata_account: [4; 32],
        metadata_program: [5; 32],
    };
    let r = personal_position_with_metadata(&accounts);
    assert_eq!(r.name, "Raydium AMM V3 Positions");
    assert_eq!(r.symbol, "");
    assert_eq!(r.uri, "");
    assert_eq!(r.creators.len(), 1);
    assert_eq!(r.creators[0].address, [2; 32]);
    assert!(r.creators[0].verified);
    assert_eq!(r.creators[0].share, 100);
    assert_eq!(r.mint, [3; 32]);
    assert_eq!(r.mint_authority, [2; 32]);
    assert_eq!(r.update_authority, [2; 32]);
    assert_eq!(r.payer, [1; 32]);
    assert_eq!(r.metadata_account, [4; 32]);
    assert_eq!(r.metadata_program, [5; 32]);
    assert_eq!(r.seller_fee_basis_points, 0);
    assert!(r.update_authority_is_signer);
    assert!(!r.is_mutable);
    assert_eq!(r.signer_seed, vec![254u8]);
    assert_eq!(r.revoke_mint_authority_of, [3; 32]);
}

#[test]
fn q64_multiply_keeps_the_full_product() {
    // the product is 2^140, past 128 bits, while the quotient is 2^76
    assert_eq!(mul_q64_floor(1u128 << 100, 1u128 << 40), Ok(1u128 << 76));
    assert_eq!(mul_q64_floor(3 * Q64 + (Q64 / 2), 3), Ok(10));
    assert_eq!(mul_q64_floor(Q64 - 1, Q64 - 1), Ok(Q64 - 2));
    assert_eq!(mul_q64_floor(u128::MAX, u128::MAX), Err(ErrorCode::ArithmeticOverflow));
    assert_eq!(mul_q64_floor(u128::MAX, Q64), Ok(u128::MAX));
    assert_eq!(mul_q64_floor(u128::MAX, Q64 + 1), Err(ErrorCode::ArithmeticOverflow));
}

#[test]
fn mul_div_keeps_the_full_product() {
    // the product needs 200 bits; the quotient fits
    assert_eq!(mul_div_floor(1u128 << 100, 1u128 << 100, 1u128 << 80), Ok(1u128 << 120));
    assert_eq!(mul_div_floor(u128::MAX, u128::MAX, u128::MAX), Ok(u128::MAX));
    assert_eq!(mul_div_ceil(u128::MAX, 2, 3), Ok(226854911280625642308916404954512140970));
    assert_eq!(mul_div_floor(u128::MAX, 2, 3), Ok(226854911280625642308916404954512140970));
    assert_eq!(mul_div_ceil(u128::MAX, u128::MAX, u128::MAX), Ok(u128::MAX));
}

#[test]
fn liquidity_above_price_one() {
    let sa = 1u128 << 64;
    let sb = (1u128 << 64) + (1u128 << 50);
    let sp = (1u128 << 64) + (1u128 << 49);
    assert_eq!(get_liquidity_for_amounts(sp, sa, sb, 1_000_000_000_000, 1_000_000_000_000), Ok(32768000000000000));
    assert_eq!(get_amounts_for_liquidity(sp, sa, sb, 32768000000000000), Ok((999908453785, 1000000000000)));
    assert_eq!(get_amounts_for_liquidity(sa, sa, sb, 1u128 << 70), Ok((72053196259835905, 0)));

    let mut acc = accounts(sp, 50);
    acc.tick_lower_state = TickState::new(0);
    acc.personal_position_state.tick_lower_index = 0;
    acc.protocol_position_state.tick_lower_index = 0;
    acc.sqrt_price_lower_x64 = sa;
    acc.sqrt_price_upper_x64 = sb;
    let ev = increase_liquidity(&mut acc, 1_000_000_000_000, 1_000_000_000_000, 0, 0).unwrap();
    assert_eq!((ev.liquidity, ev.amount_0, ev.amount_1), (32768000000000000, 999908453785, 1000000000000));
    assert_eq!(acc.pool_state.liquidity, 32768000000000000);
}

#[test]
fn increase_liquidity_rejects_price_disagreeing_with_tick() {
    // the sqrt price sits inside the range while the tick sits below it
    let mut acc = accounts(SP, -200);
    assert_eq!(increase_liquidity(&mut acc, 1, 1, 0, 0).unwrap_err(), ErrorCode::TickOutOfRange);
    assert_eq!(acc.personal_position_state.liquidity, 0);
}

#[test]
fn increase_liquidity_tick_cap_and_reward_settlement() {
    let mut acc = accounts(SP, 0);
    acc.pool_state.max_liquidity_per_tick = 1000;
    assert_eq!(increase_liquidity(&mut acc, 1_000_000, 1_000_000, 0, 0).unwrap_err(), ErrorCode::LiquidityOverflow);

    // an existing position with reward growth inside since its snapshot
    let mut acc = accounts(SP, 0);
    assert!(increase_liquidity(&mut acc, 1_000_000, 1_000_000, 0, 0).is_ok());
    acc.pool_state.reward_growths_global_x64 = [1 + Q64, 2, 3];
    acc.pool_state.fee_growth_global_0_x64 = 40 + 2 * Q64;
    let ev = increase_liquidity(&mut acc, 1_000_000, 1_000_000, 0, 0).unwrap();
    assert_eq!(ev.liquidity, 824999);
    assert_eq!(acc.protocol_position_state.reward_growth_inside, [Q64, 0, 0]);
    assert_eq!(acc.personal_position_state.reward_infos[0].growth_inside_last_x64, Q64);
    assert_eq!(acc.personal_position_state.reward_infos[0].reward_amount_owed, 824999);
    assert_eq!(acc.personal_position_state.fee_growth_inside_0_last_x64, 2 * Q64);
    assert_eq!(acc.personal_position_state.token_fees_owed_0, 2 * 824999);
    assert_eq!(acc.personal_position_state.liquidity, 2 * 824999);
}

#[test]
fn amount_taken_never_exceeds_desired() {
    // price below a wide range: one unit of liquidity must not take more
    // token 0 than the caller offered
    let sa = 1u128 << 32;
    let sb = 3u128 << 62;
    assert_eq!(get_liquidity_for_amounts(1, sa, sb, 1u64 << 32, 0), Ok(1));
    assert_eq!(get_amounts_for_liquidity(1, sa, sb, 1), Ok((4294967295, 0)));
    let mut acc = accounts(1, -200);
    acc.sqrt_price_lower_x64 = sa;
    acc.sqrt_price_upper_x64 = sb;
    let ev = increase_liquidity(&mut acc, 1u64 << 32, 0, 0, 0).unwrap();
    assert_eq!((ev.liquidity, ev.amount_0, ev.amount_1), (1, 4294967295, 0));
    assert!(ev.amount_0 <= 1u64 << 32);
}

#[test]
fn liquidity_counter_overflow_is_arithmetic() {
    let mut acc = accounts(SP, 0);
    acc.personal_position_state.liquidity = u128::MAX;
    assert_eq!(increase_liquidity(&mut acc, 1_000_000, 1_000_000, 0, 0).unwrap_err(), ErrorCode::ArithmeticOverflow);
    assert_eq!(acc.tick_lower_state.liquidity_gross, 0);
    let mut acc = accounts(SP, 0);
    acc.pool_state.liquidity = u128::MAX;
    assert_eq!(increase_liquidity(&mut acc, 1_000_000, 1_000_000, 0, 0).unwrap_err(), ErrorCode::ArithmeticOverflow);
    let mut pp = protocol();
    pp.liquidity = u128::MAX;
    assert_eq!(pp.update(1, 0, 0, [0; 3]), Err(ErrorCode::ArithmeticOverflow));
    let mut p = personal(u128::MAX, 0, 0);
    assert_eq!(p.settle(0, 0, [0; 3], 1), Err(ErrorCode::ArithmeticOverflow));
    // a tick over its cap still rejects the delta itself
    let mut t = TickState::new(0);
    assert_eq!(t.update(0, 10, 0, 0, [0; 3], false, 5), Err(ErrorCode::LiquidityOverflow));
}

#[test]
fn increase_liquidity_rejects_records_of_another_range() {
    let mut acc = accounts(SP, 0);
    acc.personal_position_state.tick_upper_index = 200;
    assert_eq!(increase_liquidity(&mut acc, 1_000_000, 1_000_000, 0, 0).unwrap_err(), ErrorCode::InvalidTickSpacing);
    let mut acc = accounts(SP, 0);
    acc.protocol_position_state.tick_lower_index = -200;
    assert_eq!(increase_liquidity(&mut acc, 1_000_000, 1_000_000, 0, 0).unwrap_err(), ErrorCode::InvalidTickSpacing);
    assert_eq!(acc.protocol_position_state.liquidity, 0);
}
