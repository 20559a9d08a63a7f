use vstd::prelude::*;
use crate::error::ErrorCode;
use crate::full_math::{Q64, mul_q64_floor};
use crate::tick::{REWARD_NUM, add_delta, add_liquidity_delta};

verus! {

/// Aggregate of all depositors in one exact `[tick_lower, tick_upper)` range.
#[derive(Debug, Clone, Copy)]
pub struct ProtocolPositionState {
    pub tick_lower_index: i32,
    pub tick_upper_index: i32,
    pub liquidity: u128,
    pub fee_growth_inside_0_last_x64: u128,
    pub fee_growth_inside_1_last_x64: u128,
    pub reward_growth_inside: [u128; 3],
}

/// One reward stream's share of a personal position.
#[derive(Debug, Clone, Copy)]
pub struct PositionRewardInfo {
    pub growth_inside_last_x64: u128,
    pub reward_amount_owed: u64,
}

/// One depositor's claim on a range, keyed by the identity `nft_mint`.
#[derive(Debug, Clone, Copy)]
pub struct PersonalPositionState {
    pub nft_mint: [u8; 32],
    pub tick_lower_index: i32,
    pub tick_upper_index: i32,
    pub liquidity: u128,
    pub fee_growth_inside_0_last_x64: u128,
    pub fee_growth_inside_1_last_x64: u128,
    pub token_fees_owed_0: u64,
    pub token_fees_owed_1: u64,
    pub reward_infos: [PositionRewardInfo; 3],
}

/// The owed counter after settling the growth from `last` to `now` (modulo
/// 2^128) for `liquidity`, rounded down.
pub open spec fn accrued(owed: u64, last: u128, now: u128, liquidity: u128) -> Result<u64, ErrorCode> {
    let amount = fee_share(now.wrapping_sub(last), liquidity);
    if owed + amount > u64::MAX {
        Err(ErrorCode::ArithmeticOverflow)
    } else {
        Ok((owed + amount) as u64)
    }
}

/// A position's share of `growth` (Q64.64) for `liquidity`, rounded down.
pub open spec fn fee_share(growth: u128, liquidity: u128) -> int {
    (growth * liquidity) / (Q64 as int)
}

/// Sum of the liquidity of several positions.
pub open spec fn sum_liquidity(liquidities: Seq<u128>) -> int
    decreases liquidities.len(),
{
    if liquidities.len() == 0 {
        0
    } else {
        sum_liquidity(liquidities.drop_last()) + liquidities.last()
    }
}

proof fn lemma_sum_liquidity_update(liquidities: Seq<u128>, i: int, v: u128)
    requires
        0 <= i < liquidities.len(),
    ensures
        sum_liquidity(liquidities.update(i, v)) == sum_liquidity(liquidities) - liquidities[i] + v,
    decreases liquidities.len(),
{
    let updated = liquidities.update(i, v);
    if i == liquidities.len() - 1 {
        assert(updated.drop_last() =~= liquidities.drop_last());
    } else {
        assert(updated.drop_last() =~= liquidities.drop_last().update(i, v));
        lemma_sum_liquidity_update(liquidities.drop_last(), i, v);
    }
}

/// A range's aggregate liquidity is the sum of its depositors' liquidity at
/// all times: if it is before, then after one depositor's position and the
/// aggregate both change by the same delta (as `settle` and
/// `ProtocolPositionState::update` do, and `increase_liquidity` does to
/// both), it still is.
pub proof fn lemma_conservation(
    positions: Seq<u128>,
    protocol_before: u128,
    i: int,
    delta: i128,
    personal_after: u128,
    protocol_after: u128,
)
    requires
        sum_liquidity(positions) == protocol_before,
        0 <= i < positions.len(),
        personal_after == add_delta(positions[i], delta),
        protocol_after == add_delta(protocol_before, delta),
    ensures
        sum_liquidity(positions.update(i, personal_after)) == protocol_after,
{
    lemma_sum_liquidity_update(positions, i, personal_after);
}

/// Sum of the rounded-down shares that several positions are credited for
/// the same growth.
pub open spec fn sum_fee_shares(growth: u128, liquidities: Seq<u128>) -> int
    decreases liquidities.len(),
{
    if liquidities.len() == 0 {
        0
    } else {
        sum_fee_shares(growth, liquidities.drop_last()) + fee_share(growth, liquidities.last())
    }
}

/// What is owed to all positions never exceeds what the pool collected:
/// for the same growth, the rounded-down shares credited to any number of
/// positions add up to at most the growth times their total liquidity,
/// divided by Q64 and rounded down.
pub proof fn lemma_owed_never_exceeds_collected(growth: u128, liquidities: Seq<u128>)
    ensures
        sum_fee_shares(growth, liquidities) * Q64 <= growth * sum_liquidity(liquidities),
        sum_fee_shares(growth, liquidities) <= (growth * sum_liquidity(liquidities)) / (Q64 as int),
    decreases liquidities.len(),
{
    let q = Q64 as int;
    if liquidities.len() > 0 {
        let init = liquidities.drop_last();
        let l = liquidities.last();
        lemma_owed_never_exceeds_collected(growth, init);
        vstd::arithmetic::div_mod::lemma_fundamental_div_mod(growth * l, q);
        assert(fee_share(growth, l) * q <= growth * l) by (nonlinear_arith)
            requires
                growth * l == q * ((growth * l) / q) + (growth * l) % q,
                0 <= (growth * l) % q,
                fee_share(growth, l) == (growth * l) / q,
        ;
        assert(growth * sum_liquidity(liquidities) == growth * sum_liquidity(init) + growth * l) by (nonlinear_arith)
            requires
                sum_liquidity(liquidities) == sum_liquidity(init) + l,
        ;
        assert(sum_fee_shares(growth, liquidities) * q == sum_fee_shares(growth, init) * q + fee_share(growth, l)
            * q) by (nonlinear_arith)
            requires
                sum_fee_shares(growth, liquidities) == sum_fee_shares(growth, init) + fee_share(growth, l),
        ;
    }
    let total = growth * sum_liquidity(liquidities);
    let s = sum_fee_shares(growth, liquidities);
    vstd::arithmetic::div_mod::lemma_fundamental_div_mod(total, q);
    assert(s <= total / q) by (nonlinear_arith)
        requires
            s * q <= total,
            total == q * (total / q) + total % q,
            total % q < q,
            q > 0,
    ;
}

/// The new owed counter after settling, as `accrued` states it.
pub fn accrue(owed: u64, last: u128, now: u128, liquidity: u128) -> (r: Result<u64, ErrorCode>)
    ensures
        r == accrued(owed, last, now, liquidity),
        r.is_err() ==> r == Err::<u64, ErrorCode>(ErrorCode::ArithmeticOverflow),
        r matches Ok(v) ==> v == owed + fee_share(now.wrapping_sub(last), liquidity),
{
    let amount = mul_q64_floor(now.wrapping_sub(last), liquidity)?;
    if amount > u64::MAX as u128 {
        return Err(ErrorCode::ArithmeticOverflow);
    }
    match owed.checked_add(amount as u64) {
        Some(v) => Ok(v),
        None => Err(ErrorCode::ArithmeticOverflow),
    }
}

impl ProtocolPositionState {
    /// Applies `liquidity_delta`, stores the fresh growth-inside snapshot and
    /// returns the snapshot it replaced.
    pub fn update(
        &mut self,
        liquidity_delta: i128,
        fee_growth_inside_0_x64: u128,
        fee_growth_inside_1_x64: u128,
        reward_growths_inside_x64: [u128; 3],
    ) -> (r: Result<(u128, u128, [u128; 3]), ErrorCode>)
        ensures
            add_delta(old(self).liquidity, liquidity_delta) < 0 ==> r
                == Err::<(u128, u128, [u128; 3]), ErrorCode>(ErrorCode::LiquidityUnderflow),
            add_delta(old(self).liquidity, liquidity_delta) > u128::MAX ==> r
                == Err::<(u128, u128, [u128; 3]), ErrorCode>(ErrorCode::ArithmeticOverflow),
            r.is_err() ==> *final(self) == *old(self),
            0 <= add_delta(old(self).liquidity, liquidity_delta) <= u128::MAX ==> {
                &&& r == Ok::<(u128, u128, [u128; 3]), ErrorCode>((
                    old(self).fee_growth_inside_0_last_x64,
                    old(self).fee_growth_inside_1_last_x64,
                    old(self).reward_growth_inside,
                ))
                &&& final(self).tick_lower_index == old(self).tick_lower_index
                &&& final(self).tick_upper_index == old(self).tick_upper_index
                &&& final(self).liquidity == add_delta(old(self).liquidity, liquidity_delta)
                &&& final(self).fee_growth_inside_0_last_x64 == fee_growth_inside_0_x64
                &&& final(self).fee_growth_inside_1_last_x64 == fee_growth_inside_1_x64
                &&& final(self).reward_growth_inside == reward_growths_inside_x64
            },
    {
        let liquidity = add_liquidity_delta(self.liquidity, liquidity_delta)?;
        let previous = (
            self.fee_growth_inside_0_last_x64,
            self.fee_growth_inside_1_last_x64,
            self.reward_growth_inside,
        );
        self.liquidity = liquidity;
        self.fee_growth_inside_0_last_x64 = fee_growth_inside_0_x64;
        self.fee_growth_inside_1_last_x64 = fee_growth_inside_1_x64;
        self.reward_growth_inside = reward_growths_inside_x64;
        Ok(previous)
    }
}

impl PersonalPositionState {
    /// Both fee accruals succeed.
    pub open spec fn fees_ok(&self, fee_growth_inside_0_x64: u128, fee_growth_inside_1_x64: u128) -> bool {
        &&& accrued(self.token_fees_owed_0, self.fee_growth_inside_0_last_x64, fee_growth_inside_0_x64,
            self.liquidity).is_ok()
        &&& accrued(self.token_fees_owed_1, self.fee_growth_inside_1_last_x64, fee_growth_inside_1_x64,
            self.liquidity).is_ok()
    }

    /// Every reward accrual succeeds.
    pub open spec fn rewards_ok(&self, reward_growths_inside_x64: [u128; 3]) -> bool {
        forall|i: int| 0 <= i < REWARD_NUM ==> (#[trigger] accrued(
            self.reward_infos@[i].reward_amount_owed, self.reward_infos@[i].growth_inside_last_x64,
            reward_growths_inside_x64@[i], self.liquidity)).is_ok()
    }

    /// Settles both fee tokens against the current growth inside, using the
    /// liquidity held while that growth happened, and advances the snapshots.
    pub fn update_fees(&mut self, fee_growth_inside_0_x64: u128, fee_growth_inside_1_x64: u128) -> (r: Result<
        (),
        ErrorCode,
    >)
        ensures
            r.is_ok() <==> old(self).fees_ok(fee_growth_inside_0_x64, fee_growth_inside_1_x64),
            r.is_err() ==> r == Err::<(), ErrorCode>(ErrorCode::ArithmeticOverflow) && *final(self) == *old(self),
            r.is_ok() ==> {
                &&& Ok::<u64, ErrorCode>(final(self).token_fees_owed_0) == accrued(old(self).token_fees_owed_0,
                    old(self).fee_growth_inside_0_last_x64, fee_growth_inside_0_x64, old(self).liquidity)
                &&& Ok::<u64, ErrorCode>(final(self).token_fees_owed_1) == accrued(old(self).token_fees_owed_1,
                    old(self).fee_growth_inside_1_last_x64, fee_growth_inside_1_x64, old(self).liquidity)
                &&& final(self).fee_growth_inside_0_last_x64 == fee_growth_inside_0_x64
                &&& final(self).fee_growth_inside_1_last_x64 == fee_growth_inside_1_x64
                &&& final(self).liquidity == old(self).liquidity
                &&& final(self).nft_mint == old(self).nft_mint
                &&& final(self).tick_lower_index == old(self).tick_lower_index
                &&& final(self).tick_upper_index == old(self).tick_upper_index
                &&& final(self).reward_infos == old(self).reward_infos
            },
    {
        let owed_0 = accrue(self.token_fees_owed_0, self.fee_growth_inside_0_last_x64, fee_growth_inside_0_x64,
            self.liquidity)?;
        let owed_1 = accrue(self.token_fees_owed_1, self.fee_growth_inside_1_last_x64, fee_growth_inside_1_x64,
            self.liquidity)?;
        self.token_fees_owed_0 = owed_0;
        self.token_fees_owed_1 = owed_1;
        self.fee_growth_inside_0_last_x64 = fee_growth_inside_0_x64;
        self.fee_growth_inside_1_last_x64 = fee_growth_inside_1_x64;
        Ok(())
    }

    /// Settles every reward stream the same way as the fees. Must run before
    /// the liquidity changes.
    pub fn update_rewards(&mut self, reward_growths_inside_x64: [u128; 3]) -> (r: Result<(), ErrorCode>)
        ensures
            r.is_ok() <==> old(self).rewards_ok(reward_growths_inside_x64),
            r.is_err() ==> r == Err::<(), ErrorCode>(ErrorCode::ArithmeticOverflow) && *final(self) == *old(self),
            r.is_ok() ==> {
                &&& forall|i: int| 0 <= i < REWARD_NUM ==> {
                    &&& Ok::<u64, ErrorCode>(#[trigger] final(self).reward_infos@[i].reward_amount_owed)
                        == accrued(old(self).reward_infos@[i].reward_amount_owed,
                        old(self).reward_infos@[i].growth_inside_last_x64, reward_growths_inside_x64@[i],
                        old(self).liquidity)
                    &&& final(self).reward_infos@[i].growth_inside_last_x64 == reward_growths_inside_x64@[i]
                }
                &&& final(self).liquidity == old(self).liquidity
                &&& final(self).nft_mint == old(self).nft_mint
                &&& final(self).tick_lower_index == old(self).tick_lower_index
                &&& final(self).tick_upper_index == old(self).tick_upper_index
                &&& final(self).fee_growth_inside_0_last_x64 == old(self).fee_growth_inside_0_last_x64
                &&& final(self).fee_growth_inside_1_last_x64 == old(self).fee_growth_inside_1_last_x64
                &&& final(self).token_fees_owed_0 == old(self).token_fees_owed_0
                &&& final(self).token_fees_owed_1 == old(self).token_fees_owed_1
            },
    {
        let mut infos = self.reward_infos;
        let mut i: usize = 0;
        while i < REWARD_NUM
            invariant
                i <= REWARD_NUM,
                *self == *old(self),
                forall|j: int| 0 <= j < i ==> (#[trigger] accrued(
                    self.reward_infos@[j].reward_amount_owed, self.reward_infos@[j].growth_inside_last_x64,
                    reward_growths_inside_x64@[j], self.liquidity)).is_ok(),
                forall|j: int| 0 <= j < i ==> {
                    &&& Ok::<u64, ErrorCode>((#[trigger] infos@[j]).reward_amount_owed) == accrued(
                        self.reward_infos@[j].reward_amount_owed, self.reward_infos@[j].growth_inside_last_x64,
                        reward_growths_inside_x64@[j], self.liquidity)
                    &&& infos@[j].growth_inside_last_x64 == reward_growths_inside_x64@[j]
                },
            decreases REWARD_NUM - i,
        {
            let owed = accrue(self.reward_infos[i].reward_amount_owed, self.reward_infos[i].growth_inside_last_x64,
                reward_growths_inside_x64[i], self.liquidity)?;
            infos[i] = PositionRewardInfo { growth_inside_last_x64: reward_growths_inside_x64[i], reward_amount_owed: owed };
            i += 1;
        }
        self.reward_infos = infos;
        Ok(())
    }

    /// Settles fees, then rewards, against the liquidity held during the
    /// growth, and only then applies `liquidity_delta`. On any error the
    /// position is left untouched.
    pub fn settle(
        &mut self,
        fee_growth_inside_0_x64: u128,
        fee_growth_inside_1_x64: u128,
        reward_growths_inside_x64: [u128; 3],
        liquidity_delta: i128,
    ) -> (r: Result<(), ErrorCode>)
        ensures
            !old(self).fees_ok(fee_growth_inside_0_x64, fee_growth_inside_1_x64) || !old(self).rewards_ok(
                reward_growths_inside_x64,
            ) ==> r == Err::<(), ErrorCode>(ErrorCode::ArithmeticOverflow),
            old(self).fees_ok(fee_growth_inside_0_x64, fee_growth_inside_1_x64) && old(self).rewards_ok(
                reward_growths_inside_x64,
            ) ==> {
                &&& add_delta(old(self).liquidity, liquidity_delta) < 0 ==> r == Err::<(), ErrorCode>(
                    ErrorCode::LiquidityUnderflow,
                )
                &&& add_delta(old(self).liquidity, liquidity_delta) > u128::MAX ==> r == Err::<(), ErrorCode>(
                    ErrorCode::ArithmeticOverflow,
                )
                &&& 0 <= add_delta(old(self).liquidity, liquidity_delta) <= u128::MAX ==> r.is_ok()
            },
            r.is_err() ==> *final(self) == *old(self),
            r.is_ok() ==> {
                &&& Ok::<u64, ErrorCode>(final(self).token_fees_owed_0) == accrued(old(self).token_fees_owed_0,
                    old(self).fee_growth_inside_0_last_x64, fee_growth_inside_0_x64, old(self).liquidity)
                &&& Ok::<u64, ErrorCode>(final(self).token_fees_owed_1) == accrued(old(self).token_fees_owed_1,
                    old(self).fee_growth_inside_1_last_x64, fee_growth_inside_1_x64, old(self).liquidity)
                &&& final(self).fee_growth_inside_0_last_x64 == fee_growth_inside_0_x64
                &&& final(self).fee_growth_inside_1_last_x64 == fee_growth_inside_1_x64
                &&& forall|i: int| 0 <= i < REWARD_NUM ==> {
                    &&& Ok::<u64, ErrorCode>(#[trigger] final(self).reward_infos@[i].reward_amount_owed)
                        == accrued(old(self).reward_infos@[i].reward_amount_owed,
                        old(self).reward_infos@[i].growth_inside_last_x64, reward_growths_inside_x64@[i],
                        old(self).liquidity)
                    &&& final(self).reward_infos@[i].growth_inside_last_x64 == reward_growths_inside_x64@[i]
                }
                &&& final(self).liquidity == add_delta(old(self).liquidity, liquidity_delta)
                &&& final(self).nft_mint == old(self).nft_mint
                &&& final(self).tick_lower_index == old(self).tick_lower_index
                &&& final(self).tick_upper_index == old(self).tick_upper_index
            },
    {
        let mut next = *self;
        next.update_fees(fee_growth_inside_0_x64, fee_growth_inside_1_x64)?;
        next.update_rewards(reward_growths_inside_x64)?;
        next.liquidity = add_liquidity_delta(next.liquidity, liquidity_delta)?;
        *self = next;
        Ok(())
    }

    /// Pays out up to the requested fee amounts and every reward owed, and
    /// takes what is paid out of the owed counters.
    pub fn collect_fees_and_rewards(&mut self, amount_0_requested: u64, amount_1_requested: u64) -> (r: (
        u64,
        u64,
        [u64; 3],
    ))
        ensures
            r.0 == if amount_0_requested < old(self).token_fees_owed_0 { amount_0_requested } else { old(self).token_fees_owed_0 },
            r.1 == if amount_1_requested < old(self).token_fees_owed_1 { amount_1_requested } else { old(self).token_fees_owed_1 },
            final(self).token_fees_owed_0 == old(self).token_fees_owed_0 - r.0,
            final(self).token_fees_owed_1 == old(self).token_fees_owed_1 - r.1,
            forall|i: int| 0 <= i < REWARD_NUM ==> #[trigger] r.2@[i] == old(self).reward_infos@[i].reward_amount_owed,
            forall|i: int| 0 <= i < REWARD_NUM ==> {
                &&& (#[trigger] final(self).reward_infos@[i]).reward_amount_owed == 0
                &&& final(self).reward_infos@[i].growth_inside_last_x64 == old(self).reward_infos@[i].growth_inside_last_x64
            },
            final(self).liquidity == old(self).liquidity,
            final(self).fee_growth_inside_0_last_x64 == old(self).fee_growth_inside_0_last_x64,
            final(self).fee_growth_inside_1_last_x64 == old(self).fee_growth_inside_1_last_x64,
            final(self).nft_mint == old(self).nft_mint,
            final(self).tick_lower_index == old(self).tick_lower_index,
            final(self).tick_upper_index == old(self).tick_upper_index,
    {
        let amount_0 = if amount_0_requested < self.token_fees_owed_0 { amount_0_requested } else { self.token_fees_owed_0 };
        let amount_1 = if amount_1_requested < self.token_fees_owed_1 { amount_1_requested } else { self.token_fees_owed_1 };
        self.token_fees_owed_0 = self.token_fees_owed_0 - amount_0;
        self.token_fees_owed_1 = self.token_fees_owed_1 - amount_1;
        let mut rewards: [u64; 3] = [0, 0, 0];
        let mut i: usize = 0;
        while i < REWARD_NUM
            invariant
                i <= REWARD_NUM,
                self.liquidity == old(self).liquidity,
                self.fee_growth_inside_0_last_x64 == old(self).fee_growth_inside_0_last_x64,
                self.fee_growth_inside_1_last_x64 == old(self).fee_growth_inside_1_last_x64,
                self.nft_mint == old(self).nft_mint,
                self.tick_lower_index == old(self).tick_lower_index,
                self.tick_upper_index == old(self).tick_upper_index,
                self.token_fees_owed_0 == old(self).token_fees_owed_0 - amount_0,
                self.token_fees_owed_1 == old(self).token_fees_owed_1 - amount_1,
                forall|j: int| 0 <= j < i ==> #[trigger] rewards@[j] == old(self).reward_infos@[j].reward_amount_owed,
                forall|j: int| 0 <= j < i ==> {
                    &&& (#[trigger] self.reward_infos@[j]).reward_amount_owed == 0
                    &&& self.reward_infos@[j].growth_inside_last_x64 == old(self).reward_infos@[j].growth_inside_last_x64
                },
                forall|j: int| i <= j < REWARD_NUM ==> #[trigger] self.reward_infos@[j] == old(self).reward_infos@[j],
            decreases REWARD_NUM - i,
        {
            rewards[i] = self.reward_infos[i].reward_amount_owed;
            self.reward_infos[i] = PositionRewardInfo {
                growth_inside_last_x64: self.reward_infos[i].growth_inside_last_x64,
                reward_amount_owed: 0,
            };
            i += 1;
        }
        (amount_0, amount_1, rewards)
    }
}

} // verus!