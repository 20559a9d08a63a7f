use vstd::prelude::*;
use crate::error::ErrorCode;

verus! {

/// Number of reward streams tracked per pool.
pub const REWARD_NUM: usize = 3;

/// Lowest tick index a range boundary may use.
pub const MIN_TICK: i32 = -443636;

/// Highest tick index a range boundary may use.
pub const MAX_TICK: i32 = 443636;

/// Per-tick record: net and gross liquidity referencing the tick, and the
/// fee and reward growth accumulated on the side of the tick away from the
/// current price.
#[derive(Debug, Clone, Copy)]
pub struct TickState {
    pub tick: i32,
    pub liquidity_net: i128,
    pub liquidity_gross: u128,
    pub fee_growth_outside_0_x64: u128,
    pub fee_growth_outside_1_x64: u128,
    pub reward_growths_outside_x64: [u128; 3],
}

/// Growth on the lower side of `tick`, given where the current price sits.
pub open spec fn growth_below(outside: u128, global: u128, tick: i32, tick_current: i32) -> u128 {
    if tick_current >= tick {
        outside
    } else {
        global.wrapping_sub(outside)
    }
}

/// Growth on the upper side of `tick`, given where the current price sits.
pub open spec fn growth_above(outside: u128, global: u128, tick: i32, tick_current: i32) -> u128 {
    if tick_current < tick {
        outside
    } else {
        global.wrapping_sub(outside)
    }
}

/// Growth strictly between two boundary ticks: the global growth minus the
/// growth below the lower tick and above the upper tick, modulo 2^128.
pub open spec fn growth_inside(
    lower_outside: u128,
    upper_outside: u128,
    global: u128,
    tick_lower: i32,
    tick_upper: i32,
    tick_current: i32,
) -> u128 {
    global.wrapping_sub(growth_below(lower_outside, global, tick_lower, tick_current)).wrapping_sub(
        growth_above(upper_outside, global, tick_upper, tick_current),
    )
}

/// `liquidity + delta` in unbounded integers.
pub open spec fn add_delta(liquidity: u128, delta: i128) -> int {
    liquidity + delta
}

/// Applies a signed delta to an unsigned liquidity counter: taking more
/// than is held rejects the delta, going past `u128::MAX` overflows the
/// counter.
pub fn add_liquidity_delta(liquidity: u128, delta: i128) -> (r: Result<u128, ErrorCode>)
    ensures
        add_delta(liquidity, delta) < 0 ==> r == Err::<u128, ErrorCode>(ErrorCode::LiquidityUnderflow),
        add_delta(liquidity, delta) > u128::MAX ==> r == Err::<u128, ErrorCode>(ErrorCode::ArithmeticOverflow),
        0 <= add_delta(liquidity, delta) <= u128::MAX ==> r == Ok::<u128, ErrorCode>(add_delta(liquidity, delta) as u128),
{
    if delta >= 0 {
        match liquidity.checked_add(delta as u128) {
            Some(v) => Ok(v),
            None => Err(ErrorCode::ArithmeticOverflow),
        }
    } else {
        let magnitude: u128 = ((-(delta + 1)) as u128) + 1;
        if magnitude > liquidity {
            Err(ErrorCode::LiquidityUnderflow)
        } else {
            Ok(liquidity - magnitude)
        }
    }
}

impl TickState {
    /// A fresh, uninitialized record for `tick`.
    pub fn new(tick: i32) -> (r: TickState)
        ensures
            r.tick == tick,
            r.liquidity_net == 0,
            r.liquidity_gross == 0,
            r.fee_growth_outside_0_x64 == 0,
            r.fee_growth_outside_1_x64 == 0,
            r.reward_growths_outside_x64@ == seq![0u128, 0u128, 0u128],
    {
        let r = TickState {
            tick,
            liquidity_net: 0,
            liquidity_gross: 0,
            fee_growth_outside_0_x64: 0,
            fee_growth_outside_1_x64: 0,
            reward_growths_outside_x64: [0, 0, 0],
        };
        assert(r.reward_growths_outside_x64@ =~= seq![0u128, 0u128, 0u128]);
        r
    }

    /// A tick is initialized exactly when some range uses it as a boundary.
    pub open spec fn initialized(&self) -> bool {
        self.liquidity_gross != 0
    }

    /// Net liquidity after `delta` is added at a lower boundary or taken
    /// away at an upper one.
    pub open spec fn net_after(&self, delta: i128, upper: bool) -> int {
        if upper {
            self.liquidity_net - delta
        } else {
            self.liquidity_net + delta
        }
    }

    /// What an outside growth value becomes when `update` adds `delta`: zero
    /// when the tick is cleared, the global growth when the tick is seen for
    /// the first time at or below the current price, else unchanged.
    pub open spec fn outside_after(&self, outside: u128, global: u128, tick_current: i32, delta: i128) -> u128 {
        if add_delta(self.liquidity_gross, delta) == 0 {
            0
        } else if !self.initialized() && self.tick <= tick_current {
            global
        } else {
            outside
        }
    }

    /// Which error `update` gives, if any.
    pub open spec fn update_error(&self, delta: i128, upper: bool, max_liquidity: u128) -> Option<ErrorCode> {
        if add_delta(self.liquidity_gross, delta) < 0 {
            Some(ErrorCode::LiquidityUnderflow)
        } else if add_delta(self.liquidity_gross, delta) > max_liquidity {
            Some(ErrorCode::LiquidityOverflow)
        } else if !(i128::MIN <= self.net_after(delta, upper) <= i128::MAX) {
            Some(ErrorCode::ArithmeticOverflow)
        } else {
            None
        }
    }

    /// When `update` succeeds: the gross bound holds and the net fits.
    pub open spec fn update_ok(&self, delta: i128, upper: bool, max_liquidity: u128) -> bool {
        0 <= add_delta(self.liquidity_gross, delta) <= max_liquidity
            && i128::MIN <= self.net_after(delta, upper) <= i128::MAX
    }

    /// Adds `liquidity_delta` to the tick as the lower or upper boundary of a
    /// range. Returns whether the tick flipped between initialized and
    /// uninitialized. A tick seen for the first time at or below the current
    /// price takes the whole global growth as grown below it; a tick whose
    /// gross liquidity returns to zero is cleared.
    pub fn update(
        &mut self,
        tick_current: i32,
        liquidity_delta: i128,
        fee_growth_global_0_x64: u128,
        fee_growth_global_1_x64: u128,
        reward_growths_global_x64: [u128; 3],
        upper: bool,
        max_liquidity: u128,
    ) -> (r: Result<bool, ErrorCode>)
        ensures
            r.is_ok() <==> old(self).update_ok(liquidity_delta, upper, max_liquidity),
            add_delta(old(self).liquidity_gross, liquidity_delta) < 0 ==> r
                == Err::<bool, ErrorCode>(ErrorCode::LiquidityUnderflow),
            add_delta(old(self).liquidity_gross, liquidity_delta) > max_liquidity ==> r
                == Err::<bool, ErrorCode>(ErrorCode::LiquidityOverflow),
            0 <= add_delta(old(self).liquidity_gross, liquidity_delta) <= max_liquidity
                && !old(self).update_ok(liquidity_delta, upper, max_liquidity) ==> r
                == Err::<bool, ErrorCode>(ErrorCode::ArithmeticOverflow),
            r.is_err() ==> *final(self) == *old(self),
            r matches Err(e) ==> old(self).update_error(liquidity_delta, upper, max_liquidity) == Some(e),
            r.is_ok() ==> old(self).update_error(liquidity_delta, upper, max_liquidity).is_none(),
            r.is_ok() ==> {
                &&& final(self).liquidity_net == if final(self).initialized() { old(self).net_after(liquidity_delta, upper) } else { 0 }
                &&& final(self).fee_growth_outside_0_x64 == old(self).outside_after(old(self).fee_growth_outside_0_x64,
                    fee_growth_global_0_x64, tick_current, liquidity_delta)
                &&& final(self).fee_growth_outside_1_x64 == old(self).outside_after(old(self).fee_growth_outside_1_x64,
                    fee_growth_global_1_x64, tick_current, liquidity_delta)
                &&& forall|i: int| 0 <= i < REWARD_NUM ==> #[trigger] final(self).reward_growths_outside_x64@[i]
                    == old(self).outside_after(old(self).reward_growths_outside_x64@[i], reward_growths_global_x64@[i],
                    tick_current, liquidity_delta)
            },
            r.is_ok() ==> {
                &&& r == Ok::<bool, ErrorCode>(old(self).initialized() != final(self).initialized())
                &&& final(self).tick == old(self).tick
                &&& final(self).liquidity_gross == add_delta(old(self).liquidity_gross, liquidity_delta)
                &&& final(self).initialized() ==> {
                    &&& final(self).liquidity_net == old(self).net_after(liquidity_delta, upper)
                    &&& if !old(self).initialized() && old(self).tick <= tick_current {
                        &&& final(self).fee_growth_outside_0_x64 == fee_growth_global_0_x64
                        &&& final(self).fee_growth_outside_1_x64 == fee_growth_global_1_x64
                        &&& final(self).reward_growths_outside_x64 == reward_growths_global_x64
                    } else {
                        &&& final(self).fee_growth_outside_0_x64 == old(self).fee_growth_outside_0_x64
                        &&& final(self).fee_growth_outside_1_x64 == old(self).fee_growth_outside_1_x64
                        &&& final(self).reward_growths_outside_x64 == old(self).reward_growths_outside_x64
                    }
                }
                &&& !final(self).initialized() ==> {
                    &&& final(self).liquidity_net == 0
                    &&& final(self).fee_growth_outside_0_x64 == 0
                    &&& final(self).fee_growth_outside_1_x64 == 0
                    &&& final(self).reward_growths_outside_x64@ == seq![0u128, 0u128, 0u128]
                }
            },
    {
        let gross_after = match add_liquidity_delta(self.liquidity_gross, liquidity_delta) {
            Ok(v) => v,
            Err(ErrorCode::LiquidityUnderflow) => return Err(ErrorCode::LiquidityUnderflow),
            Err(_) => return Err(ErrorCode::LiquidityOverflow),
        };
        if gross_after > max_liquidity {
            return Err(ErrorCode::LiquidityOverflow);
        }
        let net_after = if upper {
            match self.liquidity_net.checked_sub(liquidity_delta) {
                Some(v) => v,
                None => return Err(ErrorCode::ArithmeticOverflow),
            }
        } else {
            match self.liquidity_net.checked_add(liquidity_delta) {
                Some(v) => v,
                None => return Err(ErrorCode::ArithmeticOverflow),
            }
        };
        let flipped = (gross_after == 0) != (self.liquidity_gross == 0);
        if gross_after == 0 {
            *self = TickState {
                tick: self.tick,
                liquidity_net: 0,
                liquidity_gross: 0,
                fee_growth_outside_0_x64: 0,
                fee_growth_outside_1_x64: 0,
                reward_growths_outside_x64: [0, 0, 0],
            };
            assert(self.reward_growths_outside_x64@ =~= seq![0u128, 0u128, 0u128]);
            return Ok(flipped);
        }
        if self.liquidity_gross == 0 && self.tick <= tick_current {
            self.fee_growth_outside_0_x64 = fee_growth_global_0_x64;
            self.fee_growth_outside_1_x64 = fee_growth_global_1_x64;
            self.reward_growths_outside_x64 = reward_growths_global_x64;
        }
        self.liquidity_gross = gross_after;
        self.liquidity_net = net_after;
        Ok(flipped)
    }

    /// Crosses the tick as the price moves past it: every outside growth
    /// becomes the global growth minus itself, so it again measures the side
    /// away from the price. The tick's net liquidity is added to the running
    /// in-range liquidity when the price moves up, and taken away when it
    /// moves down (`zero_for_one`).
    pub fn cross(
        &mut self,
        fee_growth_global_0_x64: u128,
        fee_growth_global_1_x64: u128,
        reward_growths_global_x64: [u128; 3],
        zero_for_one: bool,
        liquidity: u128,
    ) -> (r: Result<u128, ErrorCode>)
        ensures
            ({
                let delta: int = if zero_for_one { -old(self).liquidity_net } else { old(self).liquidity_net as int };
                &&& liquidity + delta < 0 ==> r == Err::<u128, ErrorCode>(ErrorCode::LiquidityUnderflow)
                &&& liquidity + delta > u128::MAX ==> r == Err::<u128, ErrorCode>(ErrorCode::ArithmeticOverflow)
                &&& 0 <= liquidity + delta <= u128::MAX ==> r == Ok::<u128, ErrorCode>((liquidity + delta) as u128)
            }),
            r.is_err() ==> *final(self) == *old(self),
            r.is_ok() ==> {
                &&& final(self).tick == old(self).tick
                &&& final(self).liquidity_net == old(self).liquidity_net
                &&& final(self).liquidity_gross == old(self).liquidity_gross
                &&& final(self).fee_growth_outside_0_x64 == fee_growth_global_0_x64.wrapping_sub(old(self).fee_growth_outside_0_x64)
                &&& final(self).fee_growth_outside_1_x64 == fee_growth_global_1_x64.wrapping_sub(old(self).fee_growth_outside_1_x64)
                &&& forall|i: int| 0 <= i < REWARD_NUM ==> #[trigger] final(self).reward_growths_outside_x64@[i]
                    == reward_growths_global_x64@[i].wrapping_sub(old(self).reward_growths_outside_x64@[i])
            },
    {
        let liquidity_next = if zero_for_one {
            if self.liquidity_net == i128::MIN {
                match liquidity.checked_add(0x8000_0000_0000_0000_0000_0000_0000_0000u128) {
                    Some(v) => v,
                    None => return Err(ErrorCode::ArithmeticOverflow),
                }
            } else {
                add_liquidity_delta(liquidity, -self.liquidity_net)?
            }
        } else {
            add_liquidity_delta(liquidity, self.liquidity_net)?
        };
        self.fee_growth_outside_0_x64 = fee_growth_global_0_x64.wrapping_sub(self.fee_growth_outside_0_x64);
        self.fee_growth_outside_1_x64 = fee_growth_global_1_x64.wrapping_sub(self.fee_growth_outside_1_x64);
        let mut i: usize = 0;
        while i < REWARD_NUM
            invariant
                i <= REWARD_NUM,
                self.tick == old(self).tick,
                self.liquidity_net == old(self).liquidity_net,
                self.liquidity_gross == old(self).liquidity_gross,
                self.fee_growth_outside_0_x64 == fee_growth_global_0_x64.wrapping_sub(old(self).fee_growth_outside_0_x64),
                self.fee_growth_outside_1_x64 == fee_growth_global_1_x64.wrapping_sub(old(self).fee_growth_outside_1_x64),
                forall|j: int| 0 <= j < i ==> #[trigger] self.reward_growths_outside_x64@[j]
                    == reward_growths_global_x64@[j].wrapping_sub(old(self).reward_growths_outside_x64@[j]),
                forall|j: int| i <= j < REWARD_NUM ==> #[trigger] self.reward_growths_outside_x64@[j]
                    == old(self).reward_growths_outside_x64@[j],
            decreases REWARD_NUM - i,
        {
            let v = reward_growths_global_x64[i].wrapping_sub(self.reward_growths_outside_x64[i]);
            self.reward_growths_outside_x64[i] = v;
            i += 1;
        }
        Ok(liquidity_next)
    }
}

/// Fee growth inside `[tick_lower, tick_upper)` for both tokens.
pub fn get_fee_growth_inside(
    tick_lower: &TickState,
    tick_upper: &TickState,
    tick_current: i32,
    fee_growth_global_0_x64: u128,
    fee_growth_global_1_x64: u128,
) -> (r: (u128, u128))
    ensures
        r.0 == growth_inside(tick_lower.fee_growth_outside_0_x64, tick_upper.fee_growth_outside_0_x64,
            fee_growth_global_0_x64, tick_lower.tick, tick_upper.tick, tick_current),
        r.1 == growth_inside(tick_lower.fee_growth_outside_1_x64, tick_upper.fee_growth_outside_1_x64,
            fee_growth_global_1_x64, tick_lower.tick, tick_upper.tick, tick_current),
{
    (
        growth_inside_of(tick_lower.fee_growth_outside_0_x64, tick_upper.fee_growth_outside_0_x64,
            fee_growth_global_0_x64, tick_lower.tick, tick_upper.tick, tick_current),
        growth_inside_of(tick_lower.fee_growth_outside_1_x64, tick_upper.fee_growth_outside_1_x64,
            fee_growth_global_1_x64, tick_lower.tick, tick_upper.tick, tick_current),
    )
}

/// Reward growth inside `[tick_lower, tick_upper)` for every stream.
pub fn get_reward_growths_inside(
    tick_lower: &TickState,
    tick_upper: &TickState,
    tick_current: i32,
    reward_growths_global_x64: [u128; 3],
) -> (r: [u128; 3])
    ensures
        forall|i: int| 0 <= i < REWARD_NUM ==> #[trigger] r@[i] == growth_inside(
            tick_lower.reward_growths_outside_x64@[i], tick_upper.reward_growths_outside_x64@[i],
            reward_growths_global_x64@[i], tick_lower.tick, tick_upper.tick, tick_current),
{
    let mut r: [u128; 3] = [0, 0, 0];
    let mut i: usize = 0;
    while i < REWARD_NUM
        invariant
            i <= REWARD_NUM,
            forall|j: int| 0 <= j < i ==> #[trigger] r@[j] == growth_inside(
                tick_lower.reward_growths_outside_x64@[j], tick_upper.reward_growths_outside_x64@[j],
                reward_growths_global_x64@[j], tick_lower.tick, tick_upper.tick, tick_current),
        decreases REWARD_NUM - i,
    {
        let v = growth_inside_of(tick_lower.reward_growths_outside_x64[i],
            tick_upper.reward_growths_outside_x64[i], reward_growths_global_x64[i],
            tick_lower.tick, tick_upper.tick, tick_current);
        r[i] = v;
        i += 1;
    }
    r
}

fn growth_inside_of(
    lower_outside: u128,
    upper_outside: u128,
    global: u128,
    tick_lower: i32,
    tick_upper: i32,
    tick_current: i32,
) -> (r: u128)
    ensures
        r == growth_inside(lower_outside, upper_outside, global, tick_lower, tick_upper, tick_current),
{
    let below = if tick_current >= tick_lower {
        lower_outside
    } else {
        global.wrapping_sub(lower_outside)
    };
    let above = if tick_current < tick_upper {
        upper_outside
    } else {
        global.wrapping_sub(upper_outside)
    };
    global.wrapping_sub(below).wrapping_sub(above)
}

/// Growth inside a range never runs backwards between two reads. When the
/// global growth advances by `delta` (modulo 2^128) and no boundary is
/// crossed, the growth inside advances by exactly `delta` while the price is
/// inside the range and by zero otherwise; the wrapping difference of the two
/// reads is that amount, so one wraparound of the modulus is accounted for.
pub proof fn lemma_growth_inside_monotonic(
    lower_outside: u128,
    upper_outside: u128,
    global: u128,
    delta: u128,
    tick_lower: i32,
    tick_upper: i32,
    tick_current: i32,
)
    requires
        tick_lower < tick_upper,
    ensures
        growth_inside(lower_outside, upper_outside, global.wrapping_add(delta), tick_lower, tick_upper, tick_current)
            .wrapping_sub(growth_inside(lower_outside, upper_outside, global, tick_lower, tick_upper, tick_current))
            == if tick_lower <= tick_current < tick_upper { delta } else { 0 },
{
}

/// Crossing a boundary tick leaves the growth inside every range that uses
/// it unchanged: the price moves from `current_before` to `current_after`
/// past the lower or the upper tick (not both), and the crossed tick's
/// outside growth is replaced by the global growth minus itself.
pub proof fn lemma_cross_keeps_growth_inside(
    lower_outside: u128,
    upper_outside: u128,
    global: u128,
    tick_lower: i32,
    tick_upper: i32,
    current_before: i32,
    current_after: i32,
    crossed_upper: bool,
)
    requires
        tick_lower < tick_upper,
        crossed_upper ==> {
            &&& (current_before < tick_upper) != (current_after < tick_upper)
            &&& (current_before < tick_lower) == (current_after < tick_lower)
        },
        !crossed_upper ==> {
            &&& (current_before < tick_lower) != (current_after < tick_lower)
            &&& (current_before < tick_upper) == (current_after < tick_upper)
        },
    ensures
        crossed_upper ==> growth_inside(lower_outside, global.wrapping_sub(upper_outside), global, tick_lower,
            tick_upper, current_after) == growth_inside(lower_outside, upper_outside, global, tick_lower,
            tick_upper, current_before),
        !crossed_upper ==> growth_inside(global.wrapping_sub(lower_outside), upper_outside, global, tick_lower,
            tick_upper, current_after) == growth_inside(lower_outside, upper_outside, global, tick_lower,
            tick_upper, current_before),
{
}

} // verus!
