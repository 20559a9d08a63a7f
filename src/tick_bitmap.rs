use vstd::prelude::*;
use crate::error::ErrorCode;
use crate::tick::MAX_TICK;

verus! {

/// Whether bit `b` of `word` is set.
pub open spec fn bit_set(word: u64, b: u64) -> bool {
    (word >> b) & 1u64 == 1u64
}

proof fn lemma_flip_bit(w: u64, b: u64, c: u64)
    requires
        b < 64,
        c < 64,
    ensures
        b == c ==> (((w ^ (1u64 << b)) >> c) & 1u64 == 1u64) == !((w >> c) & 1u64 == 1u64),
        b != c ==> (((w ^ (1u64 << b)) >> c) & 1u64 == 1u64) == ((w >> c) & 1u64 == 1u64),
{
    assert(b == c ==> (((w ^ (1u64 << b)) >> c) & 1u64 == 1u64) == !((w >> c) & 1u64 == 1u64)) by (bit_vector)
        requires b < 64, c < 64;
    assert(b != c ==> (((w ^ (1u64 << b)) >> c) & 1u64 == 1u64) == ((w >> c) & 1u64 == 1u64)) by (bit_vector)
        requires b < 64, c < 64;
}

proof fn lemma_zero_word(c: u64)
    requires
        c < 64,
    ensures
        (0u64 >> c) & 1u64 != 1u64,
{
    assert((0u64 >> c) & 1u64 != 1u64) by (bit_vector);
}

proof fn lemma_split_position(p: int)
    requires
        p >= 0,
    ensures
        p == (p / 64) * 64 + p % 64,
        0 <= p % 64 < 64,
        p / 64 >= 0,
{
    vstd::arithmetic::div_mod::lemma_fundamental_div_mod(p, 64);
}

proof fn lemma_compose_position(w: int, b: int)
    requires
        w >= 0,
        0 <= b < 64,
    ensures
        (w * 64 + b) / 64 == w,
        (w * 64 + b) % 64 == b,
{
    vstd::arithmetic::div_mod::lemma_fundamental_div_mod_converse(w * 64 + b, 64, w, b);
}

proof fn lemma_below_iff(p: int, s: int, o: int)
    requires
        s > 0,
        p >= 0,
        o >= 1,
    ensures
        (p * s < o) == (p <= (o - 1) / s),
{
    vstd::arithmetic::div_mod::lemma_fundamental_div_mod(o - 1, s);
    vstd::arithmetic::div_mod::lemma_mod_pos_bound(o - 1, s);
    let d = (o - 1) / s;
    let m = (o - 1) % s;
    assert((d + 1) * s == d * s + s) by (nonlinear_arith);
    if p <= d {
        assert(p * s <= d * s) by (nonlinear_arith)
            requires p <= d, s > 0;
    } else {
        assert(p * s >= (d + 1) * s) by (nonlinear_arith)
            requires p >= d + 1, s > 0;
    }
    assert(d * s + m == o - 1) by (nonlinear_arith)
        requires o - 1 == s * d + m;
}

proof fn lemma_above_iff(p: int, s: int, o: int)
    requires
        s > 0,
        p >= 0,
        o >= 0,
    ensures
        (p * s > o) == (p >= o / s + 1),
{
    vstd::arithmetic::div_mod::lemma_fundamental_div_mod(o, s);
    vstd::arithmetic::div_mod::lemma_mod_pos_bound(o, s);
    let d = o / s;
    let m = o % s;
    assert((d + 1) * s == d * s + s) by (nonlinear_arith);
    if p <= d {
        assert(p * s <= d * s) by (nonlinear_arith)
            requires p <= d, s > 0;
    } else {
        assert(p * s >= (d + 1) * s) by (nonlinear_arith)
            requires p >= d + 1, s > 0;
    }
    assert(d * s + m == o) by (nonlinear_arith)
        requires o == s * d + m;
}

proof fn lemma_mul_mono(p: int, q: int, s: int)
    requires
        p <= q,
        s > 0,
    ensures
        p * s <= q * s,
{
    assert(p * s <= q * s) by (nonlinear_arith)
        requires p <= q, s > 0;
}

/// The lowest set bit at or above `from`, if any.
fn find_bit_up(word: u64, from: u64) -> (r: Option<u64>)
    requires
        from < 64,
    ensures
        r matches Some(b) ==> from <= b < 64 && bit_set(word, b),
        forall|c: u64| from <= c < 64 && bit_set(word, c) ==> (r matches Some(b) && b <= c),
{
    if word == 0 {
        proof {
            assert forall|c: u64| from <= c < 64 implies !bit_set(word, c) by {
                lemma_zero_word(c);
            }
        }
        return None;
    }
    let mut b: u64 = from;
    while b < 64
        invariant
            from <= b <= 64,
            forall|c: u64| from <= c < b ==> !bit_set(word, c),
        decreases 64 - b,
    {
        if (word >> b) & 1u64 == 1u64 {
            return Some(b);
        }
        b += 1;
    }
    None
}

/// The highest set bit at or below `from`, if any.
fn find_bit_down(word: u64, from: u64) -> (r: Option<u64>)
    requires
        from < 64,
    ensures
        r matches Some(b) ==> b <= from && bit_set(word, b),
        forall|c: u64| c <= from && bit_set(word, c) ==> (r matches Some(b) && c <= b),
{
    if word == 0 {
        proof {
            assert forall|c: u64| c <= from implies !bit_set(word, c) by {
                lemma_zero_word(c);
            }
        }
        return None;
    }
    let mut k: u64 = from + 1;
    while k > 0
        invariant
            from < 64,
            k <= from + 1,
            forall|c: u64| k <= c <= from ==> !bit_set(word, c),
        decreases k,
    {
        let b = k - 1;
        if (word >> b) & 1u64 == 1u64 {
            return Some(b);
        }
        k = b;
    }
    None
}

/// Which usable ticks are initialized, one bit per tick after dividing by
/// the tick spacing, packed into 64-bit words. Position `p` stands for tick
/// `min_tick() + p * tick_spacing`.
pub struct TickBitmap {
    pub tick_spacing: u16,
    pub words: Vec<u64>,
}

impl TickBitmap {
    /// How many multiples of the spacing fit on each side of tick zero.
    pub open spec fn half(&self) -> int {
        MAX_TICK as int / self.tick_spacing as int
    }

    /// Number of usable ticks.
    pub open spec fn n_positions(&self) -> int {
        2 * self.half() + 1
    }

    /// The lowest usable tick.
    pub open spec fn min_tick(&self) -> int {
        -(self.half() * self.tick_spacing)
    }

    /// The highest usable tick.
    pub open spec fn max_tick(&self) -> int {
        self.half() * self.tick_spacing
    }

    /// The tick that position `p` stands for.
    pub open spec fn tick_at(&self, p: int) -> int {
        self.min_tick() + p * self.tick_spacing
    }

    /// Whether the bit of position `p` is set.
    pub open spec fn is_set_pos(&self, p: int) -> bool {
        bit_set(self.words@[p / 64], (p % 64) as u64)
    }

    /// A usable tick: in range and a multiple of the spacing.
    pub open spec fn valid_tick(&self, tick: int) -> bool {
        &&& self.min_tick() <= tick <= self.max_tick()
        &&& (tick - self.min_tick()) % (self.tick_spacing as int) == 0
    }

    /// The position of a usable tick.
    pub open spec fn pos_of(&self, tick: int) -> int {
        (tick - self.min_tick()) / (self.tick_spacing as int)
    }

    /// Whether `tick` is usable and its bit is set.
    pub open spec fn is_initialized(&self, tick: int) -> bool {
        self.valid_tick(tick) && self.is_set_pos(self.pos_of(tick))
    }

    pub open spec fn wf(&self) -> bool {
        &&& self.tick_spacing > 0
        &&& self.words.len() * 64 >= self.n_positions()
        &&& self.words.len() <= 14000
    }

    /// An empty bitmap over every usable tick of `tick_spacing`.
    pub fn new(tick_spacing: u16) -> (r: Result<TickBitmap, ErrorCode>)
        ensures
            tick_spacing == 0 ==> r == Err::<TickBitmap, ErrorCode>(ErrorCode::InvalidTickSpacing),
            tick_spacing > 0 ==> (r matches Ok(b) && b.wf() && b.tick_spacing == tick_spacing
                && forall|p: int| 0 <= p < b.n_positions() ==> !#[trigger] b.is_set_pos(p)),
    {
        if tick_spacing == 0 {
            return Err(ErrorCode::InvalidTickSpacing);
        }
        let half: u32 = MAX_TICK as u32 / tick_spacing as u32;
        let n_words: usize = ((2 * half + 1 + 63) / 64) as usize;
        let mut words: Vec<u64> = Vec::new();
        let mut i: usize = 0;
        while i < n_words
            invariant
                i <= n_words,
                words@.len() == i,
                forall|j: int| 0 <= j < i ==> #[trigger] words@[j] == 0u64,
            decreases n_words - i,
        {
            words.push(0);
            i += 1;
        }
        let r = TickBitmap { tick_spacing, words };
        proof {
            assert forall|p: int| 0 <= p < r.n_positions() implies !#[trigger] r.is_set_pos(p) by {
                lemma_split_position(p);
                lemma_zero_word((p % 64) as u64);
            }
        }
        Ok(r)
    }

    /// The position of `tick`, or why it is not usable.
    fn position(&self, tick: i32) -> (r: Result<usize, ErrorCode>)
        requires
            self.wf(),
        ensures
            !(self.min_tick() <= tick <= self.max_tick()) ==> r == Err::<usize, ErrorCode>(ErrorCode::TickOutOfRange),
            self.min_tick() <= tick <= self.max_tick() && !self.valid_tick(tick as int) ==> r == Err::<usize, ErrorCode>(
                ErrorCode::InvalidTickSpacing,
            ),
            self.valid_tick(tick as int) ==> r == Ok::<usize, ErrorCode>(self.pos_of(tick as int) as usize)
                && 0 <= self.pos_of(tick as int) < self.n_positions(),
    {
        let spacing = self.tick_spacing as i64;
        let half: i64 = (MAX_TICK as u32 / self.tick_spacing as u32) as i64;
        proof {
            assert(half * spacing <= MAX_TICK) by (nonlinear_arith)
                requires half == MAX_TICK as int / spacing as int, spacing > 0;
        }
        let min_tick: i64 = -(half * spacing);
        let max_tick: i64 = half * spacing;
        if (tick as i64) < min_tick || (tick as i64) > max_tick {
            return Err(ErrorCode::TickOutOfRange);
        }
        let offset: u64 = ((tick as i64) - min_tick) as u64;
        if offset % (self.tick_spacing as u64) != 0 {
            return Err(ErrorCode::InvalidTickSpacing);
        }
        proof {
            let o = offset as int;
            let s = spacing as int;
            let hs = half as int * s;
            assert(o <= 2 * hs);
            assert(o / s <= 2 * half) by (nonlinear_arith)
                requires o <= 2 * hs, hs == half * s, s > 0, o >= 0;
        }
        Ok((offset / (self.tick_spacing as u64)) as usize)
    }

    /// Whether `tick` can be indexed, and if not, why.
    pub fn check_tick(&self, tick: i32) -> (r: Result<(), ErrorCode>)
        requires
            self.wf(),
        ensures
            !(self.min_tick() <= tick <= self.max_tick()) ==> r == Err::<(), ErrorCode>(ErrorCode::TickOutOfRange),
            self.min_tick() <= tick <= self.max_tick() && !self.valid_tick(tick as int) ==> r == Err::<(), ErrorCode>(
                ErrorCode::InvalidTickSpacing,
            ),
            r.is_ok() == self.valid_tick(tick as int),
            self.valid_tick(tick as int) ==> 0 <= self.pos_of(tick as int) < self.n_positions(),
    {
        self.position(tick)?;
        Ok(())
    }

    /// Distinct usable ticks have distinct positions.
    pub proof fn lemma_pos_injective(&self, t1: int, t2: int)
        requires
            self.wf(),
            self.valid_tick(t1),
            self.valid_tick(t2),
            t1 != t2,
        ensures
            self.pos_of(t1) != self.pos_of(t2),
    {
        let s = self.tick_spacing as int;
        vstd::arithmetic::div_mod::lemma_fundamental_div_mod(t1 - self.min_tick(), s);
        vstd::arithmetic::div_mod::lemma_fundamental_div_mod(t2 - self.min_tick(), s);
    }

    /// Toggles the bit of `tick`.
    pub fn flip(&mut self, tick: i32) -> (r: Result<(), ErrorCode>)
        requires
            old(self).wf(),
        ensures
            final(self).wf(),
            final(self).tick_spacing == old(self).tick_spacing,
            !(old(self).min_tick() <= tick <= old(self).max_tick()) ==> r == Err::<(), ErrorCode>(
                ErrorCode::TickOutOfRange,
            ),
            old(self).min_tick() <= tick <= old(self).max_tick() && !old(self).valid_tick(tick as int) ==> r
                == Err::<(), ErrorCode>(ErrorCode::InvalidTickSpacing),
            r.is_err() ==> final(self).words@ == old(self).words@,
            old(self).valid_tick(tick as int) ==> r.is_ok() && 0 <= old(self).pos_of(tick as int) < old(self).n_positions(),
            r.is_ok() ==> forall|p: int| 0 <= p < old(self).n_positions() ==> #[trigger] final(self).is_set_pos(p) == if p
                == old(self).pos_of(tick as int) {
                !old(self).is_set_pos(p)
            } else {
                old(self).is_set_pos(p)
            },
    {
        let p = self.position(tick)?;
        let w = p / 64;
        let b = (p % 64) as u64;
        let word = self.words[w];
        let flipped = word ^ (1u64 << b);
        proof {
            lemma_split_position(p as int);
        }
        self.words.set(w, flipped);
        proof {
            assert forall|q: int| 0 <= q < old(self).n_positions() implies #[trigger] self.is_set_pos(q) == if q
                == p as int {
                !old(self).is_set_pos(q)
            } else {
                old(self).is_set_pos(q)
            } by {
                lemma_split_position(q);
                if q / 64 == w as int {
                    lemma_flip_bit(word, b, (q % 64) as u64);
                }
            }
        }
        Ok(())
    }

    /// Position `p` stands for a usable tick whose position is `p`.
    proof fn lemma_tick_at(&self, p: int)
        requires
            self.wf(),
            0 <= p < self.n_positions(),
        ensures
            self.valid_tick(self.tick_at(p)),
            self.pos_of(self.tick_at(p)) == p,
    {
        let s = self.tick_spacing as int;
        let h = self.half();
        assert(p * s <= 2 * h * s && p * s >= 0) by (nonlinear_arith)
            requires 0 <= p <= 2 * h, s > 0;
        assert(2 * h * s == 2 * (h * s)) by (nonlinear_arith);
        vstd::arithmetic::div_mod::lemma_mod_multiples_basic(p, s);
        vstd::arithmetic::div_mod::lemma_div_multiples_vanish(p, s);
        assert(p * s == s * p) by (nonlinear_arith);
    }

    /// Whether the tick of position `p` lies strictly beyond `tick` in the
    /// search direction: below it when `zero_for_one`, above it otherwise.
    pub open spec fn beyond(&self, p: int, tick: int, zero_for_one: bool) -> bool {
        if zero_for_one {
            self.tick_at(p) < tick
        } else {
            self.tick_at(p) > tick
        }
    }

    /// The nearest initialized tick strictly below `tick` (`zero_for_one`) or
    /// strictly above it, with `true`; or, when there is none, the lowest or
    /// highest usable tick with `false`. Runs in time proportional to the
    /// number of words scanned.
    pub fn next_initialized_tick(&self, tick: i32, zero_for_one: bool) -> (r: (i32, bool))
        requires
            self.wf(),
        ensures
            r.1 ==> {
                &&& self.is_initialized(r.0 as int)
                &&& self.beyond(self.pos_of(r.0 as int), tick as int, zero_for_one)
                &&& forall|p: int| 0 <= p < self.n_positions() && #[trigger] self.is_set_pos(p) && self.beyond(p, tick as int, zero_for_one)
                    ==> if zero_for_one { self.tick_at(p) <= r.0 } else { self.tick_at(p) >= r.0 }
            },
            !r.1 ==> {
                &&& r.0 == if zero_for_one { self.min_tick() } else { self.max_tick() }
                &&& forall|p: int| 0 <= p < self.n_positions() && #[trigger] self.is_set_pos(p) ==> !self.beyond(p, tick as int, zero_for_one)
            },
    {
        let spacing = self.tick_spacing as i64;
        let half: i64 = (MAX_TICK as u32 / self.tick_spacing as u32) as i64;
        proof {
            assert(half * spacing <= MAX_TICK) by (nonlinear_arith)
                requires half == MAX_TICK as int / spacing as int, spacing > 0;
        }
        let min_tick: i64 = -(half * spacing);
        let max_tick: i64 = half * spacing;
        let n: i64 = 2 * half + 1;
        let offset: i64 = tick as i64 - min_tick;
        let len = self.words.len();
        if zero_for_one {
            if offset <= 0 {
                proof {
                    assert forall|p: int| 0 <= p < self.n_positions() && #[trigger] self.is_set_pos(p) implies !self.beyond(p, tick as int, zero_for_one) by {
                        assert(p * spacing >= 0) by (nonlinear_arith) requires p >= 0, spacing > 0;
                    }
                }
                return (min_tick as i32, false);
            }
            let below = (offset - 1) / spacing;
            let end: i64 = if below < n - 1 { below } else { n - 1 };
            let ghost end_i = end as int;
            proof {
                lemma_split_position(end_i);
                assert forall|p: int| 0 <= p < self.n_positions() && self.beyond(p, tick as int, true) implies p <= end_i by {
                    lemma_below_iff(p, spacing as int, offset as int);
                }
            }
            let mut k: usize = (end / 64) as usize + 1;
            let mut from: u64 = (end % 64) as u64;
            while k > 0
                invariant
                    0 < k <= len || k == 0,
                    spacing == self.tick_spacing as i64,
                    spacing > 0,
                    half as int == self.half(),
                    n == 2 * half + 1,
                    min_tick == -(half * spacing),
                    max_tick == half * spacing,
                    half * spacing <= MAX_TICK,
                    offset == tick - min_tick,
                    len == self.words.len(),
                    self.wf(),
                    from < 64,
                    0 <= end_i < self.n_positions(),
                    zero_for_one,
                    offset >= 1,
                    end_i <= (offset as int - 1) / (spacing as int),
                    forall|q: int| 0 <= q < self.n_positions() && #[trigger] self.beyond(q, tick as int, true) ==> q <= end_i,
                    (k - 1) * 64 + from <= end_i,
                    k > 0 ==> from == 63 || (k - 1) * 64 + from == end_i,
                    forall|q: int| (k - 1) * 64 + from + 1 <= q <= end_i ==> !#[trigger] self.is_set_pos(q),
                decreases k,
            {
                let w = k - 1;
                match find_bit_down(self.words[w], from) {
                    Some(b) => {
                        let p: i64 = (w as i64) * 64 + (b as i64);
                        proof {
                            lemma_compose_position(w as int, b as int);
                            self.lemma_tick_at(p as int);
                            lemma_below_iff(p as int, spacing as int, offset as int);
                            assert(self.is_set_pos(p as int));
                            assert(self.beyond(p as int, tick as int, true));
                            assert forall|q: int| 0 <= q < self.n_positions() && #[trigger] self.is_set_pos(q) && self.beyond(q, tick as int, true)
                                implies self.tick_at(q) <= self.tick_at(p as int) by {
                                assert(q <= end_i);
                                if q > p && q <= w * 64 + from {
                                    lemma_compose_position(w as int, q - w * 64);
                                    assert(!bit_set(self.words@[w as int], (q - w * 64) as u64));
                                }
                                assert(q <= p);
                                lemma_mul_mono(q, p as int, spacing as int);
                            }
                            assert(p * spacing <= 2 * half * spacing) by (nonlinear_arith)
                                requires 0 <= p <= 2 * half, spacing > 0;
                        }
                        let t = min_tick + p * spacing;
                        proof {
                            assert(2 * half * spacing == 2 * (half * spacing)) by (nonlinear_arith);
                            assert(p * spacing >= 0) by (nonlinear_arith) requires p >= 0, spacing > 0;
                            assert(i32::MIN <= t <= i32::MAX);
                            assert(t as int == self.tick_at(p as int));
                            assert(self.is_initialized(t as int));
                            assert(self.pos_of(t as int) == p as int);
                        }
                        return (t as i32, true);
                    },
                    None => {
                        proof {
                            assert forall|q: int| w * 64 <= q <= w * 64 + from implies !#[trigger] self.is_set_pos(q) by {
                                lemma_compose_position(w as int, q - w * 64);
                            }
                        }
                        k = w;
                        from = 63;
                    },
                }
            }
            proof {
                assert forall|p: int| 0 <= p < self.n_positions() && #[trigger] self.is_set_pos(p) implies !self.beyond(p, tick as int, zero_for_one) by {
                    if self.beyond(p, tick as int, true) {
                        assert(p <= end_i);
                    }
                }
            }
            (min_tick as i32, false)
        } else {
            let start: i64 = if offset < 0 { 0 } else { offset / spacing + 1 };
            proof {
                assert forall|p: int| 0 <= p < self.n_positions() && self.beyond(p, tick as int, false) implies p >= start by {
                    if offset >= 0 {
                        lemma_above_iff(p, spacing as int, offset as int);
                    }
                }
            }
            if start >= n {
                return (max_tick as i32, false);
            }
            let ghost start_i = start as int;
            proof {
                lemma_split_position(start_i);
            }
            let mut w: usize = (start / 64) as usize;
            let mut from: u64 = (start % 64) as u64;
            while w < len
                invariant
                    len == self.words.len(),
                    spacing == self.tick_spacing as i64,
                    spacing > 0,
                    half as int == self.half(),
                    n == 2 * half + 1,
                    min_tick == -(half * spacing),
                    max_tick == half * spacing,
                    half * spacing <= MAX_TICK,
                    offset == tick - min_tick,
                    self.wf(),
                    from < 64,
                    0 <= start_i < self.n_positions(),
                    !zero_for_one,
                    offset < 0 ==> start_i == 0,
                    offset >= 0 ==> start_i == (offset as int) / (spacing as int) + 1,
                    forall|q: int| 0 <= q < self.n_positions() && #[trigger] self.beyond(q, tick as int, false) ==> q >= start_i,
                    w * 64 + from >= start_i,
                    w * 64 + from <= start_i || from == 0,
                    forall|q: int| start_i <= q < w * 64 + from ==> !#[trigger] self.is_set_pos(q),
                decreases len - w,
            {
                match find_bit_up(self.words[w], from) {
                    Some(b) => {
                        let p: i64 = (w as i64) * 64 + (b as i64);
                        proof {
                            lemma_compose_position(w as int, b as int);
                            assert forall|q: int| start_i <= q < p implies !#[trigger] self.is_set_pos(q) by {
                                if q >= w * 64 + from {
                                    lemma_compose_position(w as int, q - w * 64);
                                    assert(!bit_set(self.words@[w as int], (q - w * 64) as u64));
                                }
                            }
                        }
                        if p >= n {
                            proof {
                                assert forall|q: int| 0 <= q < self.n_positions() && #[trigger] self.is_set_pos(q)
                                    implies !self.beyond(q, tick as int, false) by {
                                    if self.beyond(q, tick as int, false) {
                                        assert(q >= start_i);
                                        assert(q < p);
                                    }
                                }
                            }
                            assert(max_tick as int == self.max_tick());
                            assert(i32::MIN <= max_tick <= i32::MAX);
                            return (max_tick as i32, false);
                        }
                        proof {
                            self.lemma_tick_at(p as int);
                            if offset >= 0 {
                                lemma_above_iff(p as int, spacing as int, offset as int);
                            } else {
                                assert(p * spacing >= 0) by (nonlinear_arith) requires p >= 0, spacing > 0;
                            }
                            assert(self.is_set_pos(p as int));
                            assert(self.beyond(p as int, tick as int, false));
                            assert forall|q: int| 0 <= q < self.n_positions() && #[trigger] self.is_set_pos(q) && self.beyond(q, tick as int, false)
                                implies self.tick_at(q) >= self.tick_at(p as int) by {
                                lemma_mul_mono(p as int, q, spacing as int);
                            }
                            assert(p * spacing <= 2 * half * spacing) by (nonlinear_arith)
                                requires 0 <= p <= 2 * half, spacing > 0;
                        }
                        let t = min_tick + p * spacing;
                        proof {
                            assert(2 * half * spacing == 2 * (half * spacing)) by (nonlinear_arith);
                            assert(p * spacing >= 0) by (nonlinear_arith) requires p >= 0, spacing > 0;
                            assert(i32::MIN <= t <= i32::MAX);
                            assert(t as int == self.tick_at(p as int));
                            assert(self.is_initialized(t as int));
                            assert(self.pos_of(t as int) == p as int);
                        }
                        return (t as i32, true);
                    },
                    None => {
                        proof {
                            assert forall|q: int| w * 64 + from <= q < w * 64 + 64 implies !#[trigger] self.is_set_pos(q) by {
                                lemma_compose_position(w as int, q - w * 64);
                            }
                        }
                        w = w + 1;
                        from = 0;
                    },
                }
            }
            (max_tick as i32, false)
        }
    }
}

} // verus!