use vstd::prelude::*;
use crate::error::ErrorCode;
use crate::full_math::{
    Q64, ceil_div, div_wide, lemma_ceil_div_at_most, lemma_ceil_div_le, lemma_ceil_div_shift, mul_div_ceil,
    mul_div_ceil_spec, mul_div_floor, mul_div_floor_spec, mul_wide, two_128,
};
use crate::position::{PersonalPositionState, ProtocolPositionState, accrued};
use crate::tick::{REWARD_NUM, TickState, get_fee_growth_inside, get_reward_growths_inside, growth_inside};
use crate::tick_bitmap::TickBitmap;

verus! {

/// Liquidity that `amount_0` of token 0 buys between sqrt prices `sa < sb`.
pub open spec fn liquidity_from_amount_0(sa: u128, sb: u128, amount_0: u64) -> Result<u128, ErrorCode> {
    match mul_div_floor_spec(sa, sb, Q64) {
        Ok(intermediate) => mul_div_floor_spec(amount_0 as u128, intermediate, (sb - sa) as u128),
        Err(e) => Err(e),
    }
}

/// Liquidity that `amount_1` of token 1 buys between sqrt prices `sa < sb`.
pub open spec fn liquidity_from_amount_1(sa: u128, sb: u128, amount_1: u64) -> Result<u128, ErrorCode> {
    mul_div_floor_spec(amount_1 as u128, Q64, (sb - sa) as u128)
}

/// The most liquidity the desired amounts buy at sqrt price `sp` over the
/// range `[sa, sb)`: only token 0 below the range, only token 1 above it,
/// the smaller of the two inside it.
pub open spec fn liquidity_for_amounts(sp: u128, sa: u128, sb: u128, amount_0: u64, amount_1: u64) -> Result<
    u128,
    ErrorCode,
> {
    if sp <= sa {
        liquidity_from_amount_0(sa, sb, amount_0)
    } else if sp < sb {
        match liquidity_from_amount_0(sp, sb, amount_0) {
            Ok(l0) => match liquidity_from_amount_1(sa, sp, amount_1) {
                Ok(l1) => Ok(if l0 < l1 { l0 } else { l1 }),
                Err(e) => Err(e),
            },
            Err(e) => Err(e),
        }
    } else {
        liquidity_from_amount_1(sa, sb, amount_1)
    }
}

/// Token 0 needed for `liquidity` between sqrt prices `sa < sb`:
/// `liquidity * 2^64 * (sb - sa) / (sa * sb)` rounded up, taken as an exact
/// ceiling by `sb` and then by `sa`. Fails when the first ceiling does not
/// fit in 128 bits.
pub open spec fn amount_0_for_liquidity(sa: u128, sb: u128, liquidity: u128) -> Result<u128, ErrorCode> {
    let inner = ceil_div(liquidity * Q64 * (sb - sa), sb as int);
    if inner > u128::MAX {
        Err(ErrorCode::ArithmeticOverflow)
    } else {
        Ok(ceil_div(inner, sa as int) as u128)
    }
}

/// Token 1 needed for `liquidity` between sqrt prices `sa < sb`, rounded up.
pub open spec fn amount_1_for_liquidity(sa: u128, sb: u128, liquidity: u128) -> Result<u128, ErrorCode> {
    mul_div_ceil_spec(liquidity, (sb - sa) as u128, Q64)
}

/// Both token amounts needed for `liquidity` at sqrt price `sp`.
pub open spec fn amounts_for_liquidity(sp: u128, sa: u128, sb: u128, liquidity: u128) -> Result<
    (u128, u128),
    ErrorCode,
> {
    if sp <= sa {
        match amount_0_for_liquidity(sa, sb, liquidity) {
            Ok(a0) => Ok((a0, 0u128)),
            Err(e) => Err(e),
        }
    } else if sp < sb {
        match amount_0_for_liquidity(sp, sb, liquidity) {
            Ok(a0) => match amount_1_for_liquidity(sa, sp, liquidity) {
                Ok(a1) => Ok((a0, a1)),
                Err(e) => Err(e),
            },
            Err(e) => Err(e),
        }
    } else {
        match amount_1_for_liquidity(sa, sb, liquidity) {
            Ok(a1) => Ok((0u128, a1)),
            Err(e) => Err(e),
        }
    }
}

proof fn lemma_floor_times(n: int, d: int)
    requires
        n >= 0,
        d > 0,
    ensures
        (n / d) * d <= n,
        n / d >= 0,
{
    vstd::arithmetic::div_mod::lemma_fundamental_div_mod(n, d);
    vstd::arithmetic::div_mod::lemma_mod_pos_bound(n, d);
    assert((n / d) * d == d * (n / d)) by (nonlinear_arith);
}

proof fn lemma_amount_0_within(pa: u128, pb: u128, amount_0: u64, l0: u128, l: u128, x: u128)
    requires
        0 < pa < pb,
        liquidity_from_amount_0(pa, pb, amount_0) == Ok::<u128, ErrorCode>(l0),
        l <= l0,
        amount_0_for_liquidity(pa, pb, l) == Ok::<u128, ErrorCode>(x),
    ensures
        x <= amount_0,
{
    let q = Q64 as int;
    let d = (pb - pa) as int;
    let i = (pa * pb) / q;
    lemma_floor_times(pa * pb, q);
    assert(pa * pb >= 0) by (nonlinear_arith);
    assert(amount_0 * i >= 0) by (nonlinear_arith) requires i >= 0;
    lemma_floor_times(amount_0 * i, d);
    assert(l0 == (amount_0 * i) / d);
    let big_x = l * q * d;
    assert(big_x <= (amount_0 * pa) * pb) by (nonlinear_arith)
        requires
            big_x == l * q * d,
            l <= l0,
            l0 * d <= amount_0 * i,
            i * q <= pa * pb,
            l >= 0, d > 0, q > 0, amount_0 >= 0, i >= 0, l0 >= 0;
    assert(big_x >= 0) by (nonlinear_arith) requires big_x == l * q * d, l >= 0, q > 0, d > 0;
    assert(amount_0 * pa >= 0) by (nonlinear_arith);
    lemma_ceil_div_le(big_x, pb as int, amount_0 * pa);
    let inner = ceil_div(big_x, pb as int);
    assert(inner >= 0);
    lemma_ceil_div_le(inner, pa as int, amount_0 as int);
}

proof fn lemma_amount_1_within(pa: u128, pb: u128, amount_1: u64, l1: u128, l: u128, x: u128)
    requires
        0 < pa < pb,
        liquidity_from_amount_1(pa, pb, amount_1) == Ok::<u128, ErrorCode>(l1),
        l <= l1,
        mul_div_ceil_spec(l, (pb - pa) as u128, Q64) == Ok::<u128, ErrorCode>(x),
    ensures
        x <= amount_1,
{
    let q = Q64 as int;
    let d = (pb - pa) as int;
    assert(amount_1 * q >= 0) by (nonlinear_arith) requires amount_1 >= 0, q > 0;
    lemma_floor_times(amount_1 * q, d);
    assert(l * d <= amount_1 * q) by (nonlinear_arith)
        requires l <= l1, l1 * d <= amount_1 * q, d > 0, l >= 0;
    assert(l * d >= 0) by (nonlinear_arith) requires l >= 0, d > 0;
    lemma_ceil_div_le(l * d, q, amount_1 as int);
}

/// The liquidity that the desired amounts buy never takes more of either
/// token than desired: rounding down the liquidity and rounding up the
/// amounts stays within the amounts given.
pub proof fn lemma_amounts_within_desired(sp: u128, sa: u128, sb: u128, amount_0: u64, amount_1: u64)
    requires
        0 < sa < sb,
    ensures
        liquidity_for_amounts(sp, sa, sb, amount_0, amount_1) matches Ok(l) ==> (amounts_for_liquidity(
            sp,
            sa,
            sb,
            l,
        ) matches Ok((x0, x1)) ==> x0 <= amount_0 && x1 <= amount_1),
{
    if let Ok(l) = liquidity_for_amounts(sp, sa, sb, amount_0, amount_1) {
        if let Ok((x0, x1)) = amounts_for_liquidity(sp, sa, sb, l) {
            if sp <= sa {
                lemma_amount_0_within(sa, sb, amount_0, l, l, x0);
            } else if sp < sb {
                let l0 = liquidity_from_amount_0(sp, sb, amount_0)->Ok_0;
                let l1 = liquidity_from_amount_1(sa, sp, amount_1)->Ok_0;
                lemma_amount_0_within(sp, sb, amount_0, l0, l, x0);
                lemma_amount_1_within(sa, sp, amount_1, l1, l, x1);
            } else {
                lemma_amount_1_within(sa, sb, amount_1, l, l, x1);
            }
        }
    }
}

/// Liquidity bought by the desired amounts, as `liquidity_for_amounts` states.
pub fn get_liquidity_for_amounts(sp: u128, sa: u128, sb: u128, amount_0: u64, amount_1: u64) -> (r: Result<
    u128,
    ErrorCode,
>)
    requires
        0 < sa < sb,
    ensures
        r == liquidity_for_amounts(sp, sa, sb, amount_0, amount_1),
{
    if sp <= sa {
        let intermediate = mul_div_floor(sa, sb, Q64)?;
        mul_div_floor(amount_0 as u128, intermediate, sb - sa)
    } else if sp < sb {
        let intermediate = mul_div_floor(sp, sb, Q64)?;
        let l0 = mul_div_floor(amount_0 as u128, intermediate, sb - sp)?;
        let l1 = mul_div_floor(amount_1 as u128, Q64, sp - sa)?;
        Ok(if l0 < l1 { l0 } else { l1 })
    } else {
        mul_div_floor(amount_1 as u128, Q64, sb - sa)
    }
}

fn amount_0_delta(sa: u128, sb: u128, liquidity: u128) -> (r: Result<u128, ErrorCode>)
    requires
        0 < sa < sb,
    ensures
        r == amount_0_for_liquidity(sa, sb, liquidity),
{
    let d = sb - sa;
    let ghost x = liquidity * Q64 * (d as int);
    let ghost q = Q64 as int;
    let ghost inner = ceil_div(x, sb as int);
    let (hi, lo) = mul_wide(liquidity, d);
    proof {
        assert(x == (liquidity * d) * q) by (nonlinear_arith)
            requires x == liquidity * q * d;
        assert(liquidity * d >= 0) by (nonlinear_arith);
    }
    if hi >= sb {
        proof {
            assert(x >= (sb as int) * (two_128() * q)) by (nonlinear_arith)
                requires
                    x == (liquidity * d) * q,
                    liquidity * d == hi * two_128() + lo,
                    hi >= sb, lo >= 0, q > 0, two_128() > 0;
            vstd::arithmetic::div_mod::lemma_fundamental_div_mod(x, sb as int);
            vstd::arithmetic::div_mod::lemma_mod_pos_bound(x, sb as int);
            assert(x / (sb as int) >= two_128() * q) by (nonlinear_arith)
                requires
                    x == (sb as int) * (x / (sb as int)) + x % (sb as int),
                    x % (sb as int) < sb,
                    x >= (sb as int) * (two_128() * q),
                    sb > 0;
            assert(two_128() * q > u128::MAX) by (nonlinear_arith)
                requires q == Q64, two_128() > u128::MAX;
        }
        return Err(ErrorCode::ArithmeticOverflow);
    }
    let (whole, part) = div_wide(hi, lo, sb);
    proof {
        assert(part * q <= q * sb) by (nonlinear_arith)
            requires part < sb, q > 0, part >= 0;
        assert(part * q >= 0) by (nonlinear_arith)
            requires part >= 0, q > 0;
        lemma_ceil_div_le(part * q, sb as int, q);
    }
    let fraction = mul_div_ceil(part, Q64, sb)?;
    proof {
        assert(x == (whole * q) * sb + part * q) by (nonlinear_arith)
            requires x == (liquidity * d) * q, liquidity * d == whole * sb + part;
        assert(whole * q >= 0 && part * q >= 0) by (nonlinear_arith)
            requires whole >= 0, part >= 0, q > 0;
        lemma_ceil_div_shift(whole * q, sb as int, part * q);
        assert(inner == whole * q + fraction);
    }
    let base = match whole.checked_mul(Q64) {
        Some(v) => v,
        None => return Err(ErrorCode::ArithmeticOverflow),
    };
    let total = match base.checked_add(fraction) {
        Some(v) => v,
        None => return Err(ErrorCode::ArithmeticOverflow),
    };
    proof {
        lemma_ceil_div_at_most(total as int, sa as int);
        vstd::arithmetic::div_mod::lemma_fundamental_div_mod(total as int, sa as int);
    }
    let f = total / sa;
    if total % sa == 0 {
        Ok(f)
    } else {
        Ok(f + 1)
    }
}

/// Token amounts needed for `liquidity`, as `amounts_for_liquidity` states.
pub fn get_amounts_for_liquidity(sp: u128, sa: u128, sb: u128, liquidity: u128) -> (r: Result<
    (u128, u128),
    ErrorCode,
>)
    requires
        0 < sa < sb,
    ensures
        r == amounts_for_liquidity(sp, sa, sb, liquidity),
{
    if sp <= sa {
        let a0 = amount_0_delta(sa, sb, liquidity)?;
        Ok((a0, 0))
    } else if sp < sb {
        let a0 = amount_0_delta(sp, sb, liquidity)?;
        let a1 = mul_div_ceil(liquidity, sp - sa, Q64)?;
        Ok((a0, a1))
    } else {
        let a1 = mul_div_ceil(liquidity, sb - sa, Q64)?;
        Ok((0, a1))
    }
}

/// The pool's global state, as the range mutation reads it.
#[derive(Debug, Clone, Copy)]
pub struct PoolState {
    pub tick_spacing: u16,
    pub tick_current: i32,
    pub sqrt_price_x64: u128,
    pub liquidity: u128,
    pub fee_growth_global_0_x64: u128,
    pub fee_growth_global_1_x64: u128,
    pub reward_growths_global_x64: [u128; 3],
    pub max_liquidity_per_tick: u128,
}

/// Every record that adding liquidity to a position reads or writes, with
/// the sqrt prices (Q64.64) of the range's two boundary ticks.
pub struct IncreaseLiquidity {
    pub personal_position_state: PersonalPositionState,
    pub pool_state: PoolState,
    pub protocol_position_state: ProtocolPositionState,
    pub tick_lower_state: TickState,
    pub tick_upper_state: TickState,
    pub tick_bitmap: TickBitmap,
    pub sqrt_price_lower_x64: u128,
    pub sqrt_price_upper_x64: u128,
}

/// What a successful increase reports.
#[derive(Debug, Clone, Copy)]
pub struct IncreaseLiquidityEvent {
    pub position_nft_mint: [u8; 32],
    pub liquidity: u128,
    pub amount_0: u64,
    pub amount_1: u64,
}

impl IncreaseLiquidity {
    /// The range is non-empty, both boundaries are usable ticks, and the
    /// boundary sqrt prices are ordered and non-zero.
    pub open spec fn range_ok(&self) -> bool {
        &&& self.tick_lower_state.tick < self.tick_upper_state.tick
        &&& self.tick_bitmap.valid_tick(self.tick_lower_state.tick as int)
        &&& self.tick_bitmap.valid_tick(self.tick_upper_state.tick as int)
        &&& 0 < self.sqrt_price_lower_x64 < self.sqrt_price_upper_x64
    }

    /// The current price lies inside the range.
    pub open spec fn in_range(&self) -> bool {
        self.tick_lower_state.tick <= self.pool_state.tick_current < self.tick_upper_state.tick
    }

    /// The bitmap bit of each boundary tick is set exactly when that tick
    /// has gross liquidity.
    pub open spec fn bitmap_tracks_ticks(&self) -> bool {
        &&& self.tick_bitmap.is_initialized(self.tick_lower_state.tick as int) == self.tick_lower_state.initialized()
        &&& self.tick_bitmap.is_initialized(self.tick_upper_state.tick as int) == self.tick_upper_state.initialized()
    }

    /// The liquidity the desired amounts buy at the current price.
    pub open spec fn liquidity_wanted(&self, amount_0_desired: u64, amount_1_desired: u64) -> Result<u128, ErrorCode> {
        liquidity_for_amounts(self.pool_state.sqrt_price_x64, self.sqrt_price_lower_x64, self.sqrt_price_upper_x64,
            amount_0_desired, amount_1_desired)
    }

    /// The token amounts that `liquidity` takes at the current price.
    pub open spec fn amounts_taken(&self, liquidity: u128) -> Result<(u128, u128), ErrorCode> {
        amounts_for_liquidity(self.pool_state.sqrt_price_x64, self.sqrt_price_lower_x64, self.sqrt_price_upper_x64,
            liquidity)
    }

    /// Both position records are keyed by the range of the two tick records.
    pub open spec fn records_match_range(&self) -> bool {
        &&& self.personal_position_state.tick_lower_index == self.tick_lower_state.tick
        &&& self.personal_position_state.tick_upper_index == self.tick_upper_state.tick
        &&& self.protocol_position_state.tick_lower_index == self.tick_lower_state.tick
        &&& self.protocol_position_state.tick_upper_index == self.tick_upper_state.tick
    }

    /// Why `t` cannot be a boundary of the bitmap's ticks, if it cannot.
    pub open spec fn tick_error(&self, t: i32) -> Option<ErrorCode> {
        if !(self.tick_bitmap.min_tick() <= t <= self.tick_bitmap.max_tick()) {
            Some(ErrorCode::TickOutOfRange)
        } else if !self.tick_bitmap.valid_tick(t as int) {
            Some(ErrorCode::InvalidTickSpacing)
        } else {
            None
        }
    }

    /// The current sqrt price lies below, inside or above the boundary sqrt
    /// prices exactly as the current tick lies against the boundary ticks.
    pub open spec fn price_agrees_with_tick(&self) -> bool {
        &&& (self.pool_state.tick_current < self.tick_lower_state.tick) == (self.pool_state.sqrt_price_x64
            < self.sqrt_price_lower_x64)
        &&& (self.pool_state.tick_current >= self.tick_upper_state.tick) == (self.pool_state.sqrt_price_x64
            >= self.sqrt_price_upper_x64)
    }

    /// Fee growth inside the range once both ticks took `liquidity`.
    pub open spec fn fee_inside_0(&self, liquidity: u128) -> u128 {
        let (lo, up, c, g) = (self.tick_lower_state, self.tick_upper_state, self.pool_state.tick_current,
            self.pool_state.fee_growth_global_0_x64);
        growth_inside(lo.outside_after(lo.fee_growth_outside_0_x64, g, c, liquidity as i128), up.outside_after(
            up.fee_growth_outside_0_x64, g, c, liquidity as i128), g, lo.tick, up.tick, c)
    }

    /// Fee growth inside the range once both ticks took `liquidity`.
    pub open spec fn fee_inside_1(&self, liquidity: u128) -> u128 {
        let (lo, up, c, g) = (self.tick_lower_state, self.tick_upper_state, self.pool_state.tick_current,
            self.pool_state.fee_growth_global_1_x64);
        growth_inside(lo.outside_after(lo.fee_growth_outside_1_x64, g, c, liquidity as i128), up.outside_after(
            up.fee_growth_outside_1_x64, g, c, liquidity as i128), g, lo.tick, up.tick, c)
    }

    /// Growth of reward stream `i` inside the range once both ticks took
    /// `liquidity`.
    pub open spec fn reward_inside(&self, liquidity: u128, i: int) -> u128 {
        let (lo, up, c, g) = (self.tick_lower_state, self.tick_upper_state, self.pool_state.tick_current,
            self.pool_state.reward_growths_global_x64@[i]);
        growth_inside(lo.outside_after(lo.reward_growths_outside_x64@[i], g, c, liquidity as i128), up.outside_after(
            up.reward_growths_outside_x64@[i], g, c, liquidity as i128), g, lo.tick, up.tick, c)
    }

    /// Every fee and reward accrual of the position succeeds against the
    /// growth inside after adding `liquidity`.
    pub open spec fn accruals_ok(&self, liquidity: u128) -> bool {
        let pp = self.personal_position_state;
        &&& pp.fees_ok(self.fee_inside_0(liquidity), self.fee_inside_1(liquidity))
        &&& forall|i: int| 0 <= i < REWARD_NUM ==> (#[trigger] accrued(pp.reward_infos@[i].reward_amount_owed,
            pp.reward_infos@[i].growth_inside_last_x64, self.reward_inside(liquidity, i), pp.liquidity)).is_ok()
    }

    /// What adding liquidity gives: the error of the first check that fails,
    /// in the order the steps run, or the liquidity and the two amounts.
    pub open spec fn outcome(&self, amount_0_desired: u64, amount_1_desired: u64, amount_0_min: u64, amount_1_min: u64) -> Result<
        (u128, u128, u128),
        ErrorCode,
    > {
        let max = self.pool_state.max_liquidity_per_tick;
        if self.tick_lower_state.tick >= self.tick_upper_state.tick || !self.records_match_range() {
            Err(ErrorCode::InvalidTickSpacing)
        } else if self.tick_error(self.tick_lower_state.tick) is Some {
            Err(self.tick_error(self.tick_lower_state.tick)->0)
        } else if self.tick_error(self.tick_upper_state.tick) is Some {
            Err(self.tick_error(self.tick_upper_state.tick)->0)
        } else if !(0 < self.sqrt_price_lower_x64 < self.sqrt_price_upper_x64) || !self.price_agrees_with_tick() {
            Err(ErrorCode::TickOutOfRange)
        } else {
            match self.liquidity_wanted(amount_0_desired, amount_1_desired) {
                Err(e) => Err(e),
                Ok(l) => match self.amounts_taken(l) {
                    Err(e) => Err(e),
                    Ok((x0, x1)) => if x0 > u64::MAX || x1 > u64::MAX {
                        Err(ErrorCode::ArithmeticOverflow)
                    } else if x0 < amount_0_min || x1 < amount_1_min {
                        Err(ErrorCode::SlippageExceeded)
                    } else if l > i128::MAX {
                        Err(ErrorCode::LiquidityOverflow)
                    } else if self.tick_lower_state.update_error(l as i128, false, max) is Some {
                        Err(self.tick_lower_state.update_error(l as i128, false, max)->0)
                    } else if self.tick_upper_state.update_error(l as i128, true, max) is Some {
                        Err(self.tick_upper_state.update_error(l as i128, true, max)->0)
                    } else if self.protocol_position_state.liquidity + l > u128::MAX {
                        Err(ErrorCode::ArithmeticOverflow)
                    } else if self.in_range() && self.pool_state.liquidity + l > u128::MAX {
                        Err(ErrorCode::ArithmeticOverflow)
                    } else if !self.accruals_ok(l) {
                        Err(ErrorCode::ArithmeticOverflow)
                    } else if self.personal_position_state.liquidity + l > u128::MAX {
                        Err(ErrorCode::ArithmeticOverflow)
                    } else {
                        Ok((l, x0, x1))
                    },
                },
            }
        }
    }
}

/// Adds liquidity to an existing position: derives the liquidity the desired
/// amounts buy, checks the amounts it takes against the minimums, updates
/// both boundary ticks, flips their bitmap bits when they become
/// initialized, updates the range's aggregate, then settles the position's
/// fees and rewards against the liquidity it held before, and only then adds
/// the new liquidity. Nothing is written unless every step succeeds.
#[verifier::rlimit(60)]
#[verifier::spinoff_prover]
pub fn increase_liquidity(
    accounts: &mut IncreaseLiquidity,
    amount_0_desired: u64,
    amount_1_desired: u64,
    amount_0_min: u64,
    amount_1_min: u64,
) -> (r: Result<IncreaseLiquidityEvent, ErrorCode>)
    requires
        old(accounts).tick_bitmap.wf(),
    ensures
        final(accounts).tick_bitmap.wf(),
        r matches Err(e) ==> old(accounts).outcome(amount_0_desired, amount_1_desired, amount_0_min, amount_1_min)
            == Err::<(u128, u128, u128), ErrorCode>(e),
        r.is_err() ==> *final(accounts) == *old(accounts),
        old(accounts).outcome(amount_0_desired, amount_1_desired, amount_0_min, amount_1_min).is_ok() ==> r.is_ok(),
        r matches Ok(ev) ==> {
            let (o, f, l) = (*old(accounts), *final(accounts), ev.liquidity);
            &&& o.outcome(amount_0_desired, amount_1_desired, amount_0_min, amount_1_min) == Ok::<
                (u128, u128, u128),
                ErrorCode,
            >((l, ev.amount_0 as u128, ev.amount_1 as u128))
            &&& ev.amount_0 <= amount_0_desired && ev.amount_1 <= amount_1_desired
            &&& ev.position_nft_mint == o.personal_position_state.nft_mint
            &&& o.pool_state.tick_current < o.tick_lower_state.tick ==> ev.amount_1 == 0
            &&& o.pool_state.tick_current >= o.tick_upper_state.tick ==> ev.amount_0 == 0
            // the boundary ticks, as `TickState::update` leaves them
            &&& f.tick_lower_state.tick == o.tick_lower_state.tick
            &&& f.tick_upper_state.tick == o.tick_upper_state.tick
            &&& f.tick_lower_state.liquidity_gross == o.tick_lower_state.liquidity_gross + l
            &&& f.tick_upper_state.liquidity_gross == o.tick_upper_state.liquidity_gross + l
            &&& f.tick_lower_state.liquidity_net == if f.tick_lower_state.initialized() { o.tick_lower_state.net_after(l as i128, false) } else { 0 }
            &&& f.tick_upper_state.liquidity_net == if f.tick_upper_state.initialized() { o.tick_upper_state.net_after(l as i128, true) } else { 0 }
            &&& f.tick_lower_state.fee_growth_outside_0_x64 == o.tick_lower_state.outside_after(
                o.tick_lower_state.fee_growth_outside_0_x64, o.pool_state.fee_growth_global_0_x64, o.pool_state.tick_current, l as i128)
            &&& f.tick_lower_state.fee_growth_outside_1_x64 == o.tick_lower_state.outside_after(
                o.tick_lower_state.fee_growth_outside_1_x64, o.pool_state.fee_growth_global_1_x64, o.pool_state.tick_current, l as i128)
            &&& f.tick_upper_state.fee_growth_outside_0_x64 == o.tick_upper_state.outside_after(
                o.tick_upper_state.fee_growth_outside_0_x64, o.pool_state.fee_growth_global_0_x64, o.pool_state.tick_current, l as i128)
            &&& f.tick_upper_state.fee_growth_outside_1_x64 == o.tick_upper_state.outside_after(
                o.tick_upper_state.fee_growth_outside_1_x64, o.pool_state.fee_growth_global_1_x64, o.pool_state.tick_current, l as i128)
            &&& forall|i: int| 0 <= i < REWARD_NUM ==> {
                &&& #[trigger] f.tick_lower_state.reward_growths_outside_x64@[i] == o.tick_lower_state.outside_after(
                    o.tick_lower_state.reward_growths_outside_x64@[i], o.pool_state.reward_growths_global_x64@[i],
                    o.pool_state.tick_current, l as i128)
                &&& f.tick_upper_state.reward_growths_outside_x64@[i] == o.tick_upper_state.outside_after(
                    o.tick_upper_state.reward_growths_outside_x64@[i], o.pool_state.reward_growths_global_x64@[i],
                    o.pool_state.tick_current, l as i128)
            }
            // the range's aggregate
            &&& f.protocol_position_state.tick_lower_index == o.protocol_position_state.tick_lower_index
            &&& f.protocol_position_state.tick_upper_index == o.protocol_position_state.tick_upper_index
            &&& f.protocol_position_state.liquidity == o.protocol_position_state.liquidity + l
            &&& f.protocol_position_state.fee_growth_inside_0_last_x64 == o.fee_inside_0(l)
            &&& f.protocol_position_state.fee_growth_inside_1_last_x64 == o.fee_inside_1(l)
            &&& forall|i: int| 0 <= i < REWARD_NUM ==> #[trigger] f.protocol_position_state.reward_growth_inside@[i]
                == o.reward_inside(l, i)
            // the depositor's position, settled with the liquidity it held before
            &&& f.personal_position_state.nft_mint == o.personal_position_state.nft_mint
            &&& f.personal_position_state.tick_lower_index == o.personal_position_state.tick_lower_index
            &&& f.personal_position_state.tick_upper_index == o.personal_position_state.tick_upper_index
            &&& f.personal_position_state.liquidity == o.personal_position_state.liquidity + l
            &&& f.personal_position_state.fee_growth_inside_0_last_x64 == o.fee_inside_0(l)
            &&& f.personal_position_state.fee_growth_inside_1_last_x64 == o.fee_inside_1(l)
            &&& Ok::<u64, ErrorCode>(f.personal_position_state.token_fees_owed_0) == accrued(
                o.personal_position_state.token_fees_owed_0, o.personal_position_state.fee_growth_inside_0_last_x64,
                o.fee_inside_0(l), o.personal_position_state.liquidity)
            &&& Ok::<u64, ErrorCode>(f.personal_position_state.token_fees_owed_1) == accrued(
                o.personal_position_state.token_fees_owed_1, o.personal_position_state.fee_growth_inside_1_last_x64,
                o.fee_inside_1(l), o.personal_position_state.liquidity)
            &&& forall|i: int| 0 <= i < REWARD_NUM ==> {
                &&& Ok::<u64, ErrorCode>((#[trigger] f.personal_position_state.reward_infos@[i]).reward_amount_owed)
                    == accrued(o.personal_position_state.reward_infos@[i].reward_amount_owed,
                    o.personal_position_state.reward_infos@[i].growth_inside_last_x64, o.reward_inside(l, i),
                    o.personal_position_state.liquidity)
                &&& f.personal_position_state.reward_infos@[i].growth_inside_last_x64 == o.reward_inside(l, i)
            }
            // the pool: only its in-range liquidity moves
            &&& f.pool_state.liquidity == o.pool_state.liquidity + if o.in_range() { l } else { 0 }
            &&& f.pool_state.tick_spacing == o.pool_state.tick_spacing
            &&& f.pool_state.tick_current == o.pool_state.tick_current
            &&& f.pool_state.sqrt_price_x64 == o.pool_state.sqrt_price_x64
            &&& f.pool_state.fee_growth_global_0_x64 == o.pool_state.fee_growth_global_0_x64
            &&& f.pool_state.fee_growth_global_1_x64 == o.pool_state.fee_growth_global_1_x64
            &&& f.pool_state.reward_growths_global_x64 == o.pool_state.reward_growths_global_x64
            &&& f.pool_state.max_liquidity_per_tick == o.pool_state.max_liquidity_per_tick
            &&& f.sqrt_price_lower_x64 == o.sqrt_price_lower_x64
            &&& f.sqrt_price_upper_x64 == o.sqrt_price_upper_x64
            // the bitmap: boundary bits follow the ticks, every other bit stays
            &&& o.bitmap_tracks_ticks() ==> f.bitmap_tracks_ticks()
            &&& forall|t: int| t != o.tick_lower_state.tick && t != o.tick_upper_state.tick
                ==> #[trigger] f.tick_bitmap.is_initialized(t) == o.tick_bitmap.is_initialized(t)
            &&& f.tick_bitmap.tick_spacing == o.tick_bitmap.tick_spacing
        },
{
    let tick_lower = accounts.tick_lower_state.tick;
    let tick_upper = accounts.tick_upper_state.tick;
    if tick_lower >= tick_upper || accounts.personal_position_state.tick_lower_index != tick_lower
        || accounts.personal_position_state.tick_upper_index != tick_upper
        || accounts.protocol_position_state.tick_lower_index != tick_lower
        || accounts.protocol_position_state.tick_upper_index != tick_upper {
        return Err(ErrorCode::InvalidTickSpacing);
    }
    accounts.tick_bitmap.check_tick(tick_lower)?;
    accounts.tick_bitmap.check_tick(tick_upper)?;
    let sa = accounts.sqrt_price_lower_x64;
    let sb = accounts.sqrt_price_upper_x64;
    let pool = accounts.pool_state;
    if sa == 0 || sa >= sb || (pool.tick_current < tick_lower) != (pool.sqrt_price_x64 < sa)
        || (pool.tick_current >= tick_upper) != (pool.sqrt_price_x64 >= sb) {
        return Err(ErrorCode::TickOutOfRange);
    }
    let liquidity = get_liquidity_for_amounts(pool.sqrt_price_x64, sa, sb, amount_0_desired, amount_1_desired)?;
    let (amount_0, amount_1) = get_amounts_for_liquidity(pool.sqrt_price_x64, sa, sb, liquidity)?;
    proof {
        lemma_amounts_within_desired(pool.sqrt_price_x64, sa, sb, amount_0_desired, amount_1_desired);
    }
    if amount_0 > u64::MAX as u128 || amount_1 > u64::MAX as u128 {
        return Err(ErrorCode::ArithmeticOverflow);
    }
    if (amount_0 as u64) < amount_0_min || (amount_1 as u64) < amount_1_min {
        return Err(ErrorCode::SlippageExceeded);
    }
    if liquidity > i128::MAX as u128 {
        return Err(ErrorCode::LiquidityOverflow);
    }
    let delta = liquidity as i128;
    let mut lower = accounts.tick_lower_state;
    let flipped_lower = lower.update(pool.tick_current, delta, pool.fee_growth_global_0_x64,
        pool.fee_growth_global_1_x64, pool.reward_growths_global_x64, false, pool.max_liquidity_per_tick)?;
    let mut upper = accounts.tick_upper_state;
    let flipped_upper = upper.update(pool.tick_current, delta, pool.fee_growth_global_0_x64,
        pool.fee_growth_global_1_x64, pool.reward_growths_global_x64, true, pool.max_liquidity_per_tick)?;
    let (fee_inside_0, fee_inside_1) = get_fee_growth_inside(&lower, &upper, pool.tick_current,
        pool.fee_growth_global_0_x64, pool.fee_growth_global_1_x64);
    let rewards_inside = get_reward_growths_inside(&lower, &upper, pool.tick_current, pool.reward_growths_global_x64);
    let mut protocol = accounts.protocol_position_state;
    protocol.update(delta, fee_inside_0, fee_inside_1, rewards_inside)?;
    let mut pool_next = pool;
    if tick_lower <= pool.tick_current && pool.tick_current < tick_upper {
        pool_next.liquidity = match pool.liquidity.checked_add(liquidity) {
            Some(v) => v,
            None => return Err(ErrorCode::ArithmeticOverflow),
        };
    }
    let mut personal = accounts.personal_position_state;
    proof {
        assert(fee_inside_0 == accounts.fee_inside_0(liquidity));
        assert(fee_inside_1 == accounts.fee_inside_1(liquidity));
        assert forall|i: int| 0 <= i < REWARD_NUM implies #[trigger] rewards_inside@[i] == accounts.reward_inside(liquidity, i) by {
            assert(lower.reward_growths_outside_x64@[i] == accounts.tick_lower_state.outside_after(
                accounts.tick_lower_state.reward_growths_outside_x64@[i], pool.reward_growths_global_x64@[i],
                pool.tick_current, delta));
            assert(upper.reward_growths_outside_x64@[i] == accounts.tick_upper_state.outside_after(
                accounts.tick_upper_state.reward_growths_outside_x64@[i], pool.reward_growths_global_x64@[i],
                pool.tick_current, delta));
        }
        if accounts.accruals_ok(liquidity) {
            assert forall|i: int| 0 <= i < REWARD_NUM implies (#[trigger] accrued(
                personal.reward_infos@[i].reward_amount_owed, personal.reward_infos@[i].growth_inside_last_x64,
                rewards_inside@[i], personal.liquidity)).is_ok() by {
                assert(rewards_inside@[i] == accounts.reward_inside(liquidity, i));
            }
        }
        if personal.rewards_ok(rewards_inside) {
            assert forall|i: int| 0 <= i < REWARD_NUM implies (#[trigger] accrued(
                personal.reward_infos@[i].reward_amount_owed, personal.reward_infos@[i].growth_inside_last_x64,
                accounts.reward_inside(liquidity, i), personal.liquidity)).is_ok() by {
                assert(rewards_inside@[i] == accounts.reward_inside(liquidity, i));
            }
        }
    }
    personal.settle(fee_inside_0, fee_inside_1, rewards_inside, delta)?;

    let ghost before = accounts.tick_bitmap;
    proof {
        before.lemma_pos_injective(tick_lower as int, tick_upper as int);
    }
    if flipped_lower {
        let flip_result = accounts.tick_bitmap.flip(tick_lower);
    }
    let ghost middle = accounts.tick_bitmap;
    if flipped_upper {
        let flip_result = accounts.tick_bitmap.flip(tick_upper);
    }
    proof {
        assert forall|t: int| t != tick_lower && t != tick_upper
            implies #[trigger] accounts.tick_bitmap.is_initialized(t) == before.is_initialized(t) by {
            if before.valid_tick(t) {
                before.lemma_pos_injective(t, tick_lower as int);
                before.lemma_pos_injective(t, tick_upper as int);
                assert(0 <= before.pos_of(t) < before.n_positions()) by {
                    vstd::arithmetic::div_mod::lemma_fundamental_div_mod(t - before.min_tick(), before.tick_spacing as int);
                    let s = before.tick_spacing as int;
                    let q = (t - before.min_tick()) / s;
                    assert(q <= 2 * before.half()) by (nonlinear_arith)
                        requires t - before.min_tick() == s * q, t - before.min_tick() <= 2 * (before.half() * s), s > 0;
                    assert(q >= 0) by (nonlinear_arith)
                        requires t - before.min_tick() == s * q, t - before.min_tick() >= 0, s > 0;
                }
            }
        }
    }
    accounts.tick_lower_state = lower;
    accounts.tick_upper_state = upper;
    accounts.protocol_position_state = protocol;
    accounts.pool_state = pool_next;
    accounts.personal_position_state = personal;
    Ok(IncreaseLiquidityEvent {
        position_nft_mint: personal.nft_mint,
        liquidity,
        amount_0: amount_0 as u64,
        amount_1: amount_1 as u64,
    })
}

} // verus!
