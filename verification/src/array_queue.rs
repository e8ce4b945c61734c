//! A bounded ring of stamped slots, owned exclusively.
//!
//! Every slot carries a *stamp*, a machine word that packs a lap number above
//! a slot index. The low bits, below `one_lap`, hold the index; the bits from
//! `one_lap` upwards hold the lap. The head and the tail of the queue are
//! stamps as well. A slot whose stamp equals the tail is free for the next
//! push; a slot whose stamp equals the head plus one holds the value of the
//! next pop. Laps wrap around with the machine word.
//!
//! The queue here is held by one owner at a time, so an attempt made at the
//! current head or tail always settles. An attempt made at an outdated stamp
//! reports how the caller should go on, exactly as the stamps tell; while
//! the stamp is recent, it takes the queue for full or for empty only when
//! the queue is.

use vstd::arithmetic::div_mod::*;
use vstd::arithmetic::power2::*;
use vstd::bits::*;
use vstd::prelude::*;

verus! {

/// Number of distinct values of a machine word.
pub open spec fn word_range() -> int {
    usize::MAX as int + 1
}

/// `one_lap` is the smallest power of two strictly above `cap`, and it fits a
/// machine word.
pub open spec fn lap_geometry(cap: int, one_lap: int) -> bool {
    &&& 0 < cap < one_lap <= 2 * cap
    &&& exists|bits: nat| bits < usize::BITS && one_lap == #[trigger] pow2(bits)
}

/// The stamp of the `n`-th position ever used by the queue, counted from
/// zero: lap `n / cap`, index `n % cap`, reduced to a machine word.
pub open spec fn stamp_of(cap: int, one_lap: int, n: int) -> int {
    ((n / cap) * one_lap + n % cap) % word_range()
}

/// The index part of a stamp.
pub open spec fn stamp_index(one_lap: int, stamp: int) -> int {
    stamp % one_lap
}

/// A stamp one lap further on, index unchanged.
pub open spec fn lap_ahead(one_lap: int, stamp: int) -> int {
    (stamp + one_lap) % word_range()
}

/// The stamp that follows `stamp`: the next index in the same lap, or index
/// zero of the next lap after the last slot.
pub open spec fn stamp_after(cap: int, one_lap: int, stamp: int) -> int {
    if stamp_index(one_lap, stamp) + 1 < cap {
        stamp + 1
    } else {
        lap_ahead(one_lap, stamp - stamp_index(one_lap, stamp))
    }
}

/// Number of values between a head and a tail stamp that were read at one
/// moment.
pub open spec fn stamp_distance(cap: int, one_lap: int, head: int, tail: int) -> int {
    let head_index = stamp_index(one_lap, head);
    let tail_index = stamp_index(one_lap, tail);
    if head_index < tail_index {
        tail_index - head_index
    } else if head_index > tail_index {
        cap - head_index + tail_index
    } else if tail == head {
        0
    } else {
        cap
    }
}

proof fn lemma_word_range_is_pow2()
    ensures
        word_range() == pow2(usize::BITS as nat),
{
    lemma2_to64();
    lemma2_to64_rest();
}

/// A lap divides the word range, and takes up at most half of it.
proof fn lemma_lap_divides_word(cap: int, one_lap: int)
    requires
        lap_geometry(cap, one_lap),
    ensures
        word_range() % one_lap == 0,
        2 * one_lap <= word_range(),
        word_range() == one_lap * (word_range() / one_lap),
        2 <= word_range() / one_lap,
{
    let bits = choose|bits: nat| bits < usize::BITS && one_lap == #[trigger] pow2(bits);
    let rest = (usize::BITS - bits) as nat;
    lemma_word_range_is_pow2();
    lemma_pow2_adds(bits, rest);
    lemma_pow2_pos(rest);
    lemma_pow2_pos(bits);
    let laps = pow2(rest) as int;
    assert(word_range() == laps * one_lap) by (nonlinear_arith)
        requires
            word_range() == one_lap * laps,
    ;
    lemma_fundamental_div_mod_converse(word_range(), one_lap, laps, 0);
    lemma_pow2_strictly_increases(0, rest);
    lemma2_to64();
    assert(2 <= laps);
    assert(word_range() == one_lap * (word_range() / one_lap));
    assert(2 * one_lap <= laps * one_lap) by (nonlinear_arith)
        requires
            2 <= laps,
            0 < one_lap,
    ;
}

/// Masking with `one_lap - 1` takes the index part of a word, and masking
/// with the complement takes the lap part.
proof fn lemma_mask_is_index(cap: int, one_lap: usize, stamp: usize)
    requires
        lap_geometry(cap, one_lap as int),
    ensures
        stamp & ((one_lap - 1) as usize) == stamp_index(one_lap as int, stamp as int),
        stamp & !((one_lap - 1) as usize) == stamp - stamp_index(one_lap as int, stamp as int),
{
    let bits = choose|bits: nat| bits < usize::BITS && one_lap as int == #[trigger] pow2(bits);
    let mask = (one_lap - 1) as usize;
    lemma_usize_low_bits_mask_is_mod(stamp, bits);
    assert(low_bits_mask(bits) as usize == mask);
    assert(stamp & !mask == stamp - (stamp & mask)) by (bit_vector);
}

/// A stamp with an index below `cap` is not the last word, so one can be
/// added to it.
proof fn lemma_stamp_has_room(cap: int, one_lap: int, stamp: int)
    requires
        lap_geometry(cap, one_lap),
        0 <= stamp < word_range(),
        stamp_index(one_lap, stamp) < cap,
    ensures
        stamp + 1 < word_range(),
        stamp_index(one_lap, stamp + 1) == stamp_index(one_lap, stamp) + 1,
{
    lemma_lap_divides_word(cap, one_lap);
    let laps = word_range() / one_lap;
    lemma_fundamental_div_mod(stamp, one_lap);
    if stamp + 1 == word_range() {
        assert(stamp == (laps - 1) * one_lap + (one_lap - 1)) by (nonlinear_arith)
            requires
                stamp + 1 == one_lap * laps,
        ;
        lemma_fundamental_div_mod_converse(stamp, one_lap, laps - 1, one_lap - 1);
    }
    assert(stamp + 1 == (stamp / one_lap) * one_lap + (stamp % one_lap + 1)) by (nonlinear_arith)
        requires
            stamp == one_lap * (stamp / one_lap) + stamp % one_lap,
    ;
    lemma_fundamental_div_mod_converse(
        stamp + 1,
        one_lap,
        stamp / one_lap,
        stamp % one_lap + 1,
    );
}

/// Going one lap ahead keeps the index and changes the stamp.
proof fn lemma_lap_ahead(cap: int, one_lap: int, stamp: int)
    requires
        lap_geometry(cap, one_lap),
        0 <= stamp < word_range(),
    ensures
        0 <= lap_ahead(one_lap, stamp) < word_range(),
        lap_ahead(one_lap, stamp) != stamp,
        stamp_index(one_lap, lap_ahead(one_lap, stamp)) == stamp_index(one_lap, stamp),
{
    lemma_lap_divides_word(cap, one_lap);
    let laps = word_range() / one_lap;
    lemma_mod_mod(stamp + one_lap, one_lap, laps);
    lemma_mod_add_multiples_vanish(stamp, one_lap);
    if stamp + one_lap < word_range() {
        lemma_small_mod((stamp + one_lap) as nat, word_range() as nat);
    } else {
        lemma_fundamental_div_mod_converse(
            stamp + one_lap,
            word_range(),
            1,
            stamp + one_lap - word_range(),
        );
    }
}

/// The stamp of a position is a machine word with the position's index.
pub proof fn lemma_stamp_of_index(cap: int, one_lap: int, n: int)
    requires
        lap_geometry(cap, one_lap),
        0 <= n,
    ensures
        0 <= stamp_of(cap, one_lap, n) < word_range(),
        stamp_index(one_lap, stamp_of(cap, one_lap, n)) == n % cap,
        0 <= n % cap < cap,
{
    lemma_lap_divides_word(cap, one_lap);
    let laps = word_range() / one_lap;
    let full = (n / cap) * one_lap + n % cap;
    lemma_mod_pos_bound(n, cap);
    lemma_fundamental_div_mod(n, cap);
    assert(0 <= n / cap) by (nonlinear_arith)
        requires
            n == cap * (n / cap) + n % cap,
            0 <= n,
            0 <= n % cap < cap,
    ;
    assert(full == one_lap * (n / cap) + n % cap && 0 <= full) by (nonlinear_arith)
        requires
            full == (n / cap) * one_lap + n % cap,
            0 <= n / cap,
            0 <= n % cap,
            0 < one_lap,
    ;
    lemma_mod_pos_bound(full, word_range());
    lemma_mod_mod(full, one_lap, laps);
    assert((full % word_range()) % one_lap == full % one_lap);
    lemma_mod_multiples_vanish(n / cap, n % cap, one_lap);
    lemma_small_mod((n % cap) as nat, one_lap as nat);
}

/// The stamp of the next position is the stamp that follows.
pub proof fn lemma_stamp_of_next(cap: int, one_lap: int, n: int)
    requires
        lap_geometry(cap, one_lap),
        0 <= n,
    ensures
        stamp_of(cap, one_lap, n + 1) == stamp_after(cap, one_lap, stamp_of(cap, one_lap, n)),
{
    lemma_lap_divides_word(cap, one_lap);
    lemma_stamp_of_index(cap, one_lap, n);
    let here = stamp_of(cap, one_lap, n);
    let full = (n / cap) * one_lap + n % cap;
    lemma_fundamental_div_mod(n, cap);
    lemma_mod_pos_bound(n, cap);
    if n % cap + 1 < cap {
        assert(n + 1 == (n / cap) * cap + (n % cap + 1)) by (nonlinear_arith)
            requires
                n == cap * (n / cap) + n % cap,
        ;
        lemma_fundamental_div_mod_converse(n + 1, cap, n / cap, n % cap + 1);
        lemma_stamp_has_room(cap, one_lap, here);
        lemma_fundamental_div_mod(full, word_range());
        lemma_fundamental_div_mod_converse(
            full + 1,
            word_range(),
            full / word_range(),
            here + 1,
        );
    } else {
        assert(n + 1 == (n / cap + 1) * cap + 0) by (nonlinear_arith)
            requires
                n == cap * (n / cap) + n % cap,
                n % cap + 1 == cap,
        ;
        lemma_fundamental_div_mod_converse(n + 1, cap, n / cap + 1, 0);
        let lap_part = here - n % cap;
        assert((n / cap + 1) * one_lap == (full - n % cap) + one_lap) by (nonlinear_arith)
            requires
                full == (n / cap) * one_lap + n % cap,
        ;
        lemma_fundamental_div_mod(full, word_range());
        let turns = full / word_range();
        assert(lap_part + one_lap == (full - n % cap) + one_lap - word_range() * turns);
        lemma_mod_multiples_vanish(-turns, (full - n % cap) + one_lap, word_range());
    }
}

/// A position one lap of slots later has the stamp one lap ahead.
pub proof fn lemma_stamp_of_lap(cap: int, one_lap: int, n: int)
    requires
        lap_geometry(cap, one_lap),
        0 <= n,
    ensures
        stamp_of(cap, one_lap, n + cap) == lap_ahead(one_lap, stamp_of(cap, one_lap, n)),
        stamp_of(cap, one_lap, n + cap) != stamp_of(cap, one_lap, n),
{
    lemma_stamp_of_index(cap, one_lap, n);
    lemma_lap_ahead(cap, one_lap, stamp_of(cap, one_lap, n));
    let full = (n / cap) * one_lap + n % cap;
    lemma_fundamental_div_mod(n, cap);
    lemma_mod_pos_bound(n, cap);
    assert(n + cap == (n / cap + 1) * cap + n % cap) by (nonlinear_arith)
        requires
            n == cap * (n / cap) + n % cap,
    ;
    lemma_fundamental_div_mod_converse(n + cap, cap, n / cap + 1, n % cap);
    assert((n / cap + 1) * one_lap + n % cap == full + one_lap) by (nonlinear_arith)
        requires
            full == (n / cap) * one_lap + n % cap,
    ;
    lemma_add_mod_noop(full, one_lap, word_range());
    lemma_lap_divides_word(cap, one_lap);
    lemma_small_mod(one_lap as nat, word_range() as nat);
    lemma_mod_pos_bound(full, word_range());
}

/// Two positions less than `cap` apart fall into different slots.
pub proof fn lemma_slots_differ(cap: int, a: int, b: int)
    requires
        0 < cap,
        0 <= a < b < a + cap,
    ensures
        a % cap != b % cap,
{
    lemma_fundamental_div_mod(a, cap);
    lemma_fundamental_div_mod(b, cap);
    lemma_mod_pos_bound(a, cap);
    lemma_mod_pos_bound(b, cap);
    if a % cap == b % cap {
        let turns = b / cap - a / cap;
        assert(b - a == cap * turns) by (nonlinear_arith)
            requires
                a == cap * (a / cap) + a % cap,
                b == cap * (b / cap) + b % cap,
                a % cap == b % cap,
                turns == b / cap - a / cap,
        ;
        assert(false) by (nonlinear_arith)
            requires
                0 < cap * turns < cap,
        ;
    }
}

/// Between a head at position `popped` and a tail at position `pushed`, no
/// more than `cap` apart, the stamps are `pushed - popped` values apart.
pub proof fn lemma_stamp_distance(cap: int, one_lap: int, popped: int, pushed: int)
    requires
        lap_geometry(cap, one_lap),
        0 <= popped <= pushed <= popped + cap,
    ensures
        stamp_distance(
            cap,
            one_lap,
            stamp_of(cap, one_lap, popped),
            stamp_of(cap, one_lap, pushed),
        ) == pushed - popped,
{
    lemma_stamp_of_index(cap, one_lap, popped);
    lemma_stamp_of_index(cap, one_lap, pushed);
    lemma_fundamental_div_mod(popped, cap);
    lemma_fundamental_div_mod(pushed, cap);
    let gap = pushed - popped;
    if gap == cap {
        lemma_stamp_of_lap(cap, one_lap, popped);
        lemma_lap_ahead(cap, one_lap, stamp_of(cap, one_lap, popped));
    } else if gap > 0 {
        lemma_slots_differ(cap, popped, pushed);
        if popped % cap + gap < cap {
            assert(pushed == (popped / cap) * cap + (popped % cap + gap)) by (nonlinear_arith)
                requires
                    popped == cap * (popped / cap) + popped % cap,
                    pushed == popped + gap,
            ;
            lemma_fundamental_div_mod_converse(pushed, cap, popped / cap, popped % cap + gap);
        } else {
            assert(pushed == (popped / cap + 1) * cap + (popped % cap + gap - cap))
                by (nonlinear_arith)
                requires
                    popped == cap * (popped / cap) + popped % cap,
                    pushed == popped + gap,
            ;
            lemma_fundamental_div_mod_converse(
                pushed,
                cap,
                popped / cap + 1,
                popped % cap + gap - cap,
            );
        }
    }
}

/// Number of positions after which the stamps repeat: the laps that a word
/// holds, times the slots.
pub open spec fn stamp_period(cap: int, one_lap: int) -> int {
    cap * (word_range() / one_lap)
}

/// Number of positions for which a head or a tail counts as recent: no
/// later position within that many has the same stamp, nor has the position
/// a ring of slots further on.
pub open spec fn recent_span(cap: int, one_lap: int) -> int {
    stamp_period(cap, one_lap) - cap
}

/// The lap and the index of a position's stamp, taken apart.
proof fn lemma_stamp_of_parts(cap: int, one_lap: int, n: int)
    requires
        lap_geometry(cap, one_lap),
        0 <= n,
    ensures
        stamp_of(cap, one_lap, n) == one_lap * ((n / cap) % (word_range() / one_lap)) + n % cap,
        stamp_of(cap, one_lap, n) / one_lap == (n / cap) % (word_range() / one_lap),
        0 <= n / cap,
{
    lemma_lap_divides_word(cap, one_lap);
    let laps = word_range() / one_lap;
    let full = (n / cap) * one_lap + n % cap;
    lemma_mod_pos_bound(n, cap);
    lemma_fundamental_div_mod(n, cap);
    assert(0 <= n / cap) by (nonlinear_arith)
        requires
            n == cap * (n / cap) + n % cap,
            0 <= n,
            0 <= n % cap < cap,
    ;
    assert(0 <= full) by (nonlinear_arith)
        requires
            full == (n / cap) * one_lap + n % cap,
            0 <= n / cap,
            0 <= n % cap,
            0 < one_lap,
    ;
    lemma_fundamental_div_mod_converse(full, one_lap, n / cap, n % cap);
    lemma_mod_breakdown(full, one_lap, laps);
    lemma_mod_pos_bound(n / cap, laps);
    let lap = (n / cap) % laps;
    assert(one_lap * lap + n % cap == lap * one_lap + n % cap) by (nonlinear_arith);
    lemma_fundamental_div_mod_converse(stamp_of(cap, one_lap, n), one_lap, lap, n % cap);
}

/// Two positions less than a period apart have different stamps.
pub proof fn lemma_stamps_differ(cap: int, one_lap: int, a: int, b: int)
    requires
        lap_geometry(cap, one_lap),
        0 <= a < b < a + stamp_period(cap, one_lap),
    ensures
        stamp_of(cap, one_lap, a) != stamp_of(cap, one_lap, b),
{
    lemma_lap_divides_word(cap, one_lap);
    let laps = word_range() / one_lap;
    if stamp_of(cap, one_lap, a) == stamp_of(cap, one_lap, b) {
        lemma_stamp_of_parts(cap, one_lap, a);
        lemma_stamp_of_parts(cap, one_lap, b);
        lemma_stamp_of_index(cap, one_lap, a);
        lemma_stamp_of_index(cap, one_lap, b);
        lemma_fundamental_div_mod(a, cap);
        lemma_fundamental_div_mod(b, cap);
        let turns = b / cap - a / cap;
        assert(b - a == cap * turns) by (nonlinear_arith)
            requires
                a == cap * (a / cap) + a % cap,
                b == cap * (b / cap) + b % cap,
                a % cap == b % cap,
                turns == b / cap - a / cap,
        ;
        assert(0 < turns < laps) by (nonlinear_arith)
            requires
                0 < cap * turns < cap * laps,
                0 < cap,
        ;
        lemma_mod_equivalence(b / cap, a / cap, laps);
        lemma_small_mod(turns as nat, laps as nat);
    }
}

/// Adding a lap to a word with wrap-around gives the stamp one lap ahead.
proof fn lemma_wrapping_lap(cap: int, one_lap: usize, stamp: usize)
    requires
        lap_geometry(cap, one_lap as int),
    ensures
        stamp.wrapping_add(one_lap) == lap_ahead(one_lap as int, stamp as int),
{
    lemma_lap_divides_word(cap, one_lap as int);
    if stamp + one_lap < word_range() {
        lemma_small_mod((stamp + one_lap) as nat, word_range() as nat);
    } else {
        lemma_fundamental_div_mod_converse(
            stamp + one_lap,
            word_range(),
            1,
            stamp + one_lap - word_range(),
        );
    }
}

/// How to pause before the next attempt.
#[derive(Clone, Copy, Debug, PartialEq, Eq, Structural)]
pub enum Pause {
    /// Another attempt can follow at once.
    Spin,
    /// Another party holds the slot: give it time to finish.
    Yield,
}

impl Pause {
    /// Whether a caller whose attempt number `step`, counted from zero, did
    /// not settle gives its turn to others before the next attempt. It does
    /// so for a `Yield` pause once more than six attempts are behind it;
    /// until then, and for a `Spin` pause, it only spins.
    pub open spec fn spec_gives_way(self, step: usize) -> bool {
        self == Pause::Yield && step > 6
    }

    /// Whether a caller whose attempt number `step`, counted from zero, did
    /// not settle gives its turn to others before the next attempt.
    pub fn gives_way(self, step: usize) -> (yields: bool)
        ensures
            yields == self.spec_gives_way(step),
    {
        match self {
            Pause::Yield => step > 6,
            Pause::Spin => false,
        }
    }
}

/// What one attempt on the queue came to.
#[derive(Debug)]
pub enum Flow<B, C> {
    /// The attempt settled with this result.
    Break(B),
    /// The attempt did not settle. It hands back how to pause, the stamp to
    /// use next if the attempt learned it, and what the caller passed in.
    Continue(Pause, Option<usize>, C),
}

/// What the stamps tell a caller who pushes at a given tail stamp.
#[derive(Clone, Copy, Debug, PartialEq, Eq, Structural)]
pub enum PushVerdict {
    /// The slot is free and the tail is current: the value goes in.
    Claimed,
    /// The slot is free but the tail has moved on.
    Outrun,
    /// The slot still holds the value of the lap before, and so does the
    /// head: the queue is full.
    Full,
    /// The slot holds the value of the lap before, but the head has moved.
    Stale,
    /// The slot belongs to another position.
    Busy,
}

/// What the stamps tell a caller who pops at a given head stamp.
#[derive(Clone, Copy, Debug, PartialEq, Eq, Structural)]
pub enum PopVerdict {
    /// The slot holds a value and the head is current: the value comes out.
    Claimed,
    /// The slot holds a value but the head has moved on.
    Outrun,
    /// The slot is free, and the tail stands at the head: the queue is empty.
    Empty,
    /// The slot is free, but the tail has moved.
    Stale,
    /// The slot belongs to another position.
    Busy,
}

/// A queue with room for `cap` values accepts a value at its back, or hands
/// it back when it is full.
pub open spec fn spec_push<T>(items: Seq<T>, cap: nat, value: T) -> (Seq<T>, Result<(), T>) {
    if items.len() < cap {
        (items.push(value), Ok(()))
    } else {
        (items, Err(value))
    }
}

/// A queue gives out the value at its front, or nothing when it is empty.
pub open spec fn spec_pop<T>(items: Seq<T>) -> (Seq<T>, Option<T>) {
    if items.len() > 0 {
        (items.drop_first(), Some(items.first()))
    } else {
        (items, None)
    }
}

/// One slot of the ring.
struct Slot<T> {
    /// Equal to the tail when the slot is the next to be written, and to the
    /// head plus one when it is the next to be read.
    stamp: usize,
    /// The value, present between its push and its pop.
    value: Option<T>,
}

/// A bounded first-in first-out queue over a ring of stamped slots.
pub struct ArrayQueue<T> {
    /// Stamp of the next position to pop.
    head: usize,
    /// Stamp of the next position to push.
    tail: usize,
    /// The slots.
    buffer: Vec<Slot<T>>,
    /// Number of slots.
    cap: usize,
    /// The stamp with lap one and index zero.
    one_lap: usize,
    /// Number of pops so far.
    popped: Ghost<nat>,
    /// Number of pushes so far.
    pushed: Ghost<nat>,
}

/// Replaces `*word` by `new` if it holds `current`. Returns the value found,
/// as `Ok` when it was replaced.
fn compare_exchange(word: &mut usize, current: usize, new: usize) -> (found: Result<usize, usize>)
    ensures
        *old(word) == current ==> found == Ok::<usize, usize>(current) && *final(word) == new,
        *old(word) != current ==> found == Err::<usize, usize>(*old(word)) && *final(word)
            == *old(word),
{
    let seen = *word;
    if seen == current {
        *word = new;
        Ok(seen)
    } else {
        Err(seen)
    }
}

impl<T> View for ArrayQueue<T> {
    type V = Seq<T>;

    /// The values in the queue, oldest first.
    closed spec fn view(&self) -> Seq<T> {
        Seq::new(
            (self.pushed@ - self.popped@) as nat,
            |k: int| self.buffer@[self.slot_of(k)].value->0,
        )
    }
}

impl<T> ArrayQueue<T> {
    /// Number of slots.
    pub closed spec fn spec_capacity(&self) -> usize {
        self.cap
    }

    /// The stamp with lap one and index zero.
    pub closed spec fn one_lap(&self) -> usize {
        self.one_lap
    }

    /// Stamp of the next position to pop.
    pub closed spec fn head_stamp(&self) -> usize {
        self.head
    }

    /// Stamp of the next position to push.
    pub closed spec fn tail_stamp(&self) -> usize {
        self.tail
    }

    /// Stamp of the slot with the given index.
    pub closed spec fn slot_stamp(&self, index: int) -> usize {
        self.buffer@[index].stamp
    }

    /// Number of pushes that the queue has accepted.
    pub closed spec fn pushed(&self) -> nat {
        self.pushed@
    }

    /// Number of pops that have given out a value.
    pub closed spec fn popped(&self) -> nat {
        self.popped@
    }

    /// The stamp has the index of a slot.
    pub open spec fn in_ring(&self, stamp: usize) -> bool {
        stamp_index(self.one_lap() as int, stamp as int) < self.spec_capacity()
    }

    /// Index of the slot that holds the `k`-th value of the queue.
    spec fn slot_of(&self, k: int) -> int {
        (self.popped@ + k) % (self.cap as int)
    }

    /// The slot that a position uses carries the position's stamp while it
    /// is free and that stamp plus one while it holds the position's value.
    spec fn slot_agrees(&self, n: int) -> bool {
        let slot = self.buffer@[n % (self.cap as int)];
        if n < self.pushed@ {
            &&& slot.stamp == stamp_of(self.cap as int, self.one_lap as int, n) + 1
            &&& slot.value is Some
        } else {
            &&& slot.stamp == stamp_of(self.cap as int, self.one_lap as int, n)
            &&& slot.value is None
        }
    }

    /// The queue's invariant: head, tail and every slot's stamp stand where
    /// the pushes and pops so far have left them.
    pub closed spec fn wf(&self) -> bool {
        &&& lap_geometry(self.cap as int, self.one_lap as int)
        &&& self.buffer@.len() == self.cap
        &&& self.popped@ <= self.pushed@ <= self.popped@ + self.cap
        &&& self.head == stamp_of(self.cap as int, self.one_lap as int, self.popped@ as int)
        &&& self.tail == stamp_of(self.cap as int, self.one_lap as int, self.pushed@ as int)
        &&& forall|n: int|
            self.popped@ <= n < self.popped@ + self.cap ==> #[trigger] self.slot_agrees(n)
    }

    /// What a push at the stamp `tail` meets.
    pub open spec fn push_verdict(&self, tail: usize) -> PushVerdict {
        let stamp = self.slot_stamp(stamp_index(self.one_lap() as int, tail as int));
        if stamp == tail {
            if self.tail_stamp() == tail {
                PushVerdict::Claimed
            } else {
                PushVerdict::Outrun
            }
        } else if lap_ahead(self.one_lap() as int, stamp as int) == tail + 1 {
            if lap_ahead(self.one_lap() as int, self.head_stamp() as int) == tail {
                PushVerdict::Full
            } else {
                PushVerdict::Stale
            }
        } else {
            PushVerdict::Busy
        }
    }

    /// What a pop at the stamp `head` meets.
    pub open spec fn pop_verdict(&self, head: usize) -> PopVerdict {
        let stamp = self.slot_stamp(stamp_index(self.one_lap() as int, head as int));
        if head + 1 == stamp {
            if self.head_stamp() == head {
                PopVerdict::Claimed
            } else {
                PopVerdict::Outrun
            }
        } else if stamp == head {
            if self.tail_stamp() == head {
                PopVerdict::Empty
            } else {
                PopVerdict::Stale
            }
        } else {
            PopVerdict::Busy
        }
    }

    /// The head and the tail of a well-formed queue are stamps of slots, the
    /// queue holds as many values as pushes are ahead of pops, and never more
    /// than it has slots.
    pub proof fn lemma_bounds(&self)
        requires
            self.wf(),
        ensures
            self.in_ring(self.head_stamp()),
            self.in_ring(self.tail_stamp()),
            self@.len() == self.pushed() - self.popped(),
            self@.len() <= self.spec_capacity(),
            0 < self.spec_capacity() < self.one_lap(),
            lap_geometry(self.spec_capacity() as int, self.one_lap() as int),
    {
        lemma_stamp_of_index(self.cap as int, self.one_lap as int, self.popped@ as int);
        lemma_stamp_of_index(self.cap as int, self.one_lap as int, self.pushed@ as int);
    }

    /// The stamp is the stamp of a position that lies less than `span`
    /// before the position `last`.
    spec fn stamp_within(&self, stamp: usize, last: int, span: int) -> bool {
        exists|n: int|
            0 <= n <= last && last - n < span && stamp == #[trigger] stamp_of(
                self.cap as int,
                self.one_lap as int,
                n,
            )
    }

    /// The stamp was the tail of the queue not long ago: since then the
    /// queue has accepted fewer pushes than [`recent_span`] tells.
    pub closed spec fn recent_tail(&self, stamp: usize) -> bool {
        self.stamp_within(
            stamp,
            self.pushed@ as int,
            recent_span(self.cap as int, self.one_lap as int),
        )
    }

    /// The stamp was the head of the queue not long ago: since then the
    /// queue has given out fewer values than [`recent_span`] tells.
    pub closed spec fn recent_head(&self, stamp: usize) -> bool {
        self.stamp_within(
            stamp,
            self.popped@ as int,
            recent_span(self.cap as int, self.one_lap as int),
        )
    }

    /// The current tail and the current head are recent.
    pub proof fn lemma_current_is_recent(&self)
        requires
            self.wf(),
        ensures
            self.recent_tail(self.tail_stamp()),
            self.recent_head(self.head_stamp()),
    {
        let cap = self.cap as int;
        let one_lap = self.one_lap as int;
        lemma_lap_divides_word(cap, one_lap);
        let laps = word_range() / one_lap;
        assert(cap * laps - cap > 0) by (nonlinear_arith)
            requires
                2 <= laps,
                0 < cap,
        ;
        assert(self.tail == stamp_of(cap, one_lap, self.pushed@ as int));
        assert(self.head == stamp_of(cap, one_lap, self.popped@ as int));
    }

    /// The tail of a queue stays a recent tail while the queue accepts
    /// fewer pushes than [`recent_span`] tells, and its head a recent head
    /// while the queue gives out fewer values than that.
    pub proof fn lemma_stays_recent(&self, later: Self)
        requires
            self.wf(),
            later.wf(),
            later.spec_capacity() == self.spec_capacity(),
            later.one_lap() == self.one_lap(),
        ensures
            self.pushed() <= later.pushed() < self.pushed() + recent_span(
                self.spec_capacity() as int,
                self.one_lap() as int,
            ) ==> later.recent_tail(self.tail_stamp()),
            self.popped() <= later.popped() < self.popped() + recent_span(
                self.spec_capacity() as int,
                self.one_lap() as int,
            ) ==> later.recent_head(self.head_stamp()),
    {
        let cap = self.cap as int;
        let one_lap = self.one_lap as int;
        assert(self.tail == stamp_of(cap, one_lap, self.pushed@ as int));
        assert(self.head == stamp_of(cap, one_lap, self.popped@ as int));
    }

    /// An attempt at an outdated stamp does not mistake the queue: a push at
    /// a recent tail finds the queue full only when it holds as many values
    /// as it has slots, and a pop at a recent head finds it empty only when
    /// it holds none.
    pub proof fn lemma_outdated_attempts(&self, stamp: usize)
        requires
            self.wf(),
        ensures
            self.recent_tail(stamp) && self.push_verdict(stamp) == PushVerdict::Full
                ==> self@.len() == self.spec_capacity(),
            self.recent_head(stamp) && self.pop_verdict(stamp) == PopVerdict::Empty
                ==> self@.len() == 0,
    {
        let cap = self.cap as int;
        let one_lap = self.one_lap as int;
        let popped = self.popped@ as int;
        let pushed = self.pushed@ as int;
        lemma_lap_divides_word(cap, one_lap);
        if self.recent_tail(stamp) && self.push_verdict(stamp) == PushVerdict::Full {
            let n = choose|n: int|
                0 <= n <= pushed && pushed - n < recent_span(cap, one_lap) && stamp
                    == #[trigger] stamp_of(cap, one_lap, n);
            lemma_stamp_of_lap(cap, one_lap, popped);
            if n < popped + cap {
                lemma_stamps_differ(cap, one_lap, n, popped + cap);
            }
        }
        if self.recent_head(stamp) && self.pop_verdict(stamp) == PopVerdict::Empty {
            let n = choose|n: int|
                0 <= n <= popped && popped - n < recent_span(cap, one_lap) && stamp
                    == #[trigger] stamp_of(cap, one_lap, n);
            if n < pushed {
                lemma_stamps_differ(cap, one_lap, n, pushed);
            }
        }
    }

    /// At the current tail a push is claimed unless the queue is full.
    pub proof fn lemma_push_at_tail(&self)
        requires
            self.wf(),
        ensures
            self.push_verdict(self.tail_stamp()) == if self@.len() < self.spec_capacity() {
                PushVerdict::Claimed
            } else {
                PushVerdict::Full
            },
    {
        let cap = self.cap as int;
        let one_lap = self.one_lap as int;
        let popped = self.popped@ as int;
        let pushed = self.pushed@ as int;
        lemma_stamp_of_index(cap, one_lap, pushed);
        lemma_stamp_of_index(cap, one_lap, popped);
        if pushed < popped + cap {
            assert(self.slot_agrees(pushed));
        } else {
            assert(self.slot_agrees(popped));
            lemma_stamp_of_lap(cap, one_lap, popped);
            lemma_stamp_has_room(cap, one_lap, stamp_of(cap, one_lap, popped));
            lemma_stamp_has_room(cap, one_lap, stamp_of(cap, one_lap, pushed));
            let seen = stamp_of(cap, one_lap, popped) + 1;
            lemma_lap_ahead(cap, one_lap, stamp_of(cap, one_lap, popped));
            lemma_add_mod_noop(stamp_of(cap, one_lap, popped) + one_lap, 1, word_range());
            lemma_small_mod(1, word_range() as nat);
            lemma_small_mod((self.tail + 1) as nat, word_range() as nat);
            assert(lap_ahead(one_lap, seen) == self.tail + 1);
        }
    }

    /// At the current head a pop is claimed unless the queue is empty.
    pub proof fn lemma_pop_at_head(&self)
        requires
            self.wf(),
        ensures
            self.pop_verdict(self.head_stamp()) == if self@.len() > 0 {
                PopVerdict::Claimed
            } else {
                PopVerdict::Empty
            },
    {
        let cap = self.cap as int;
        let one_lap = self.one_lap as int;
        let popped = self.popped@ as int;
        lemma_stamp_of_index(cap, one_lap, popped);
        assert(self.slot_agrees(popped));
    }

    /// Creates an empty queue with `cap` slots.
    pub fn new(cap: usize) -> (queue: Self)
        requires
            0 < cap <= isize::MAX,
        ensures
            queue.wf(),
            queue.spec_capacity() == cap,
            queue@ == Seq::<T>::empty(),
            queue.pushed() == 0,
            queue.popped() == 0,
    {
        // Head and tail start at lap zero, index zero.
        let head: usize = 0;
        let tail: usize = 0;

        // One lap is the smallest power of two greater than `cap`.
        let mut one_lap: usize = 1;
        let ghost mut bits: nat = 0;
        proof {
            lemma2_to64();
        }
        while one_lap <= cap
            invariant
                0 < cap <= isize::MAX,
                0 < one_lap <= 2 * cap,
                one_lap == pow2(bits),
                one_lap > 1 ==> one_lap / 2 <= cap,
            decreases 2 * cap - one_lap,
        {
            proof {
                lemma_pow2_unfold(bits + 1);
            }
            one_lap = one_lap * 2;
            proof {
                bits = bits + 1;
            }
        }
        proof {
            if bits >= usize::BITS {
                lemma_word_range_is_pow2();
                if bits > usize::BITS {
                    lemma_pow2_strictly_increases(usize::BITS as nat, bits);
                }
            }
            assert(lap_geometry(cap as int, one_lap as int));
        }

        // The slot with index `i` starts with the stamp of lap zero, index `i`.
        let mut buffer: Vec<Slot<T>> = Vec::new();
        let mut i: usize = 0;
        while i < cap
            invariant
                i <= cap,
                buffer@.len() == i,
                forall|k: int|
                    0 <= k < i ==> (#[trigger] buffer@[k]).stamp == k && buffer@[k].value is None,
            decreases cap - i,
        {
            buffer.push(Slot { stamp: i, value: None });
            i += 1;
        }

        let queue = ArrayQueue {
            head,
            tail,
            buffer,
            cap,
            one_lap,
            popped: Ghost(0),
            pushed: Ghost(0),
        };
        proof {
            lemma_lap_divides_word(cap as int, one_lap as int);
            assert forall|n: int| 0 <= n < cap implies #[trigger] queue.slot_agrees(n) by {
                lemma_basic_div(n, cap as int);
                lemma_small_mod(n as nat, cap as nat);
                lemma_small_mod(n as nat, word_range() as nat);
            }
            lemma_small_mod(0, word_range() as nat);
            assert(queue@ =~= Seq::<T>::empty());
        }
        queue
    }

    /// Splits a stamp into its index and the stamp that follows it.
    fn index(&self, stamp: usize) -> (parts: (usize, usize))
        requires
            lap_geometry(self.cap as int, self.one_lap as int),
        ensures
            parts.0 == stamp_index(self.one_lap as int, stamp as int),
            parts.1 == stamp_after(self.cap as int, self.one_lap as int, stamp as int),
    {
        proof {
            lemma_mask_is_index(self.cap as int, self.one_lap, stamp);
        }
        let index = stamp & (self.one_lap - 1);
        let lap = stamp & !(self.one_lap - 1);

        let new = if index + 1 < self.cap {
            // Same lap, next index.
            proof {
                lemma_stamp_has_room(self.cap as int, self.one_lap as int, stamp as int);
            }
            stamp + 1
        } else {
            // One lap forward, index zero.
            proof {
                lemma_wrapping_lap(self.cap as int, self.one_lap, lap);
            }
            lap.wrapping_add(self.one_lap)
        };
        (index, new)
    }

    /// Number of slots.
    #[verifier::when_used_as_spec(spec_capacity)]
    pub fn capacity(&self) -> (cap: usize)
        ensures
            cap == self.spec_capacity(),
    {
        self.cap
    }

    /// The stamp at which the next push is made.
    pub fn tail(&self) -> (stamp: usize)
        requires
            self.wf(),
        ensures
            stamp == self.tail_stamp(),
            self.in_ring(stamp),
    {
        proof {
            self.lemma_bounds();
        }
        self.tail
    }

    /// The stamp at which the next pop is made.
    pub fn head(&self) -> (stamp: usize)
        requires
            self.wf(),
        ensures
            stamp == self.head_stamp(),
            self.in_ring(stamp),
    {
        proof {
            self.lemma_bounds();
        }
        self.head
    }

    /// Whether the stamp has the index of a slot, so that an attempt can be
    /// made at it.
    pub fn has_slot(&self, stamp: usize) -> (found: bool)
        requires
            self.wf(),
        ensures
            found == self.in_ring(stamp),
    {
        proof {
            lemma_mask_is_index(self.cap as int, self.one_lap, stamp);
        }
        stamp & (self.one_lap - 1) < self.cap
    }

    /// Makes one attempt to push `value` at the stamp `tail`.
    ///
    /// The attempt goes as [`Self::push_verdict`] says. When it is claimed,
    /// the value is in the queue. Otherwise the queue is unchanged and the
    /// value comes back: as an error when the queue is full, else with the
    /// way to pause and, when the tail was seen, the tail to use next.
    pub fn try_push(&mut self, tail: usize, value: T) -> (flow: Flow<Result<(), T>, T>)
        requires
            old(self).wf(),
            old(self).in_ring(tail),
        ensures
            final(self).wf(),
            final(self).spec_capacity() == old(self).spec_capacity(),
            final(self).one_lap() == old(self).one_lap(),
            final(self).popped() == old(self).popped(),
            match old(self).push_verdict(tail) {
                PushVerdict::Claimed => {
                    &&& flow == Flow::<Result<(), T>, T>::Break(Ok(()))
                    &&& final(self)@ == old(self)@.push(value)
                    &&& final(self).pushed() == old(self).pushed() + 1
                },
                PushVerdict::Outrun => {
                    &&& flow == Flow::<Result<(), T>, T>::Continue(
                        Pause::Spin,
                        Some(old(self).tail_stamp()),
                        value,
                    )
                    &&& *final(self) == *old(self)
                },
                PushVerdict::Full => {
                    &&& flow == Flow::<Result<(), T>, T>::Break(Err(value))
                    &&& *final(self) == *old(self)
                },
                PushVerdict::Stale => {
                    &&& flow == Flow::<Result<(), T>, T>::Continue(Pause::Spin, None, value)
                    &&& *final(self) == *old(self)
                },
                PushVerdict::Busy => {
                    &&& flow == Flow::<Result<(), T>, T>::Continue(Pause::Yield, None, value)
                    &&& *final(self) == *old(self)
                },
            },
    {
        let (index, new_tail) = self.index(tail);
        proof {
            lemma_stamp_has_room(self.cap as int, self.one_lap as int, tail as int);
        }

        // Inspect the corresponding slot.
        let stamp = self.buffer[index].stamp;
        proof {
            lemma_wrapping_lap(self.cap as int, self.one_lap, stamp);
            lemma_wrapping_lap(self.cap as int, self.one_lap, self.head);
        }

        // If the tail and the stamp match, we may attempt to push.
        if tail == stamp {
            // Try moving the tail.
            match compare_exchange(&mut self.tail, tail, new_tail) {
                // The tail moved: the slot is ours.
                Ok(_) => {
                    proof {
                        lemma_stamp_of_index(
                            self.cap as int,
                            self.one_lap as int,
                            self.pushed@ as int,
                        );
                        old(self).lemma_claimed_slot_is_free(index);
                        lemma_stamp_of_next(
                            self.cap as int,
                            self.one_lap as int,
                            self.pushed@ as int,
                        );
                    }
                    // Write the value into the slot and update the stamp.
                    let slot = &mut self.buffer[index];
                    slot.value = Some(value);
                    slot.stamp = tail + 1;
                    self.pushed = Ghost(self.pushed@ + 1);
                    proof {
                        self.lemma_pushed(*old(self), value);
                    }
                    Flow::Break(Ok(()))
                },
                // The tail stands elsewhere.
                Err(t) => Flow::Continue(Pause::Spin, Some(t), value),
            }
        } else if stamp.wrapping_add(self.one_lap) == tail + 1 {
            // The slot looks like the head of the queue.
            let head = self.head;
            if head.wrapping_add(self.one_lap) == tail {
                // ...then the queue is full.
                return Flow::Break(Err(value));
            }
            // The head has moved, so a slot may be free by now.
            Flow::Continue(Pause::Spin, None, value)
        } else {
            // The slot was claimed for another position.
            Flow::Continue(Pause::Yield, None, value)
        }
    }

    /// A slot whose stamp equals the tail is the slot of the next push, and
    /// the queue is not full.
    proof fn lemma_claimed_slot_is_free(&self, index: usize)
        requires
            self.wf(),
            index == self.pushed@ % (self.cap as nat),
            self.buffer@[index as int].stamp == stamp_of(
                self.cap as int,
                self.one_lap as int,
                self.pushed@ as int,
            ),
        ensures
            self.pushed@ < self.popped@ + self.cap,
    {
        let cap = self.cap as int;
        let one_lap = self.one_lap as int;
        let popped = self.popped@ as int;
        let pushed = self.pushed@ as int;
        if pushed == popped + cap {
            assert(self.slot_agrees(popped));
            lemma_stamp_of_index(cap, one_lap, popped);
            lemma_stamp_of_index(cap, one_lap, pushed);
            lemma_stamp_has_room(cap, one_lap, stamp_of(cap, one_lap, popped));
            lemma_stamp_of_lap(cap, one_lap, popped);
            lemma_lap_ahead(cap, one_lap, stamp_of(cap, one_lap, popped));
        }
    }

    /// The state after a claimed push is well-formed and holds one more
    /// value at the back.
    proof fn lemma_pushed(&self, before: Self, value: T)
        requires
            before.wf(),
            before.pushed@ < before.popped@ + before.cap,
            self.cap == before.cap,
            self.one_lap == before.one_lap,
            self.head == before.head,
            self.popped@ == before.popped@,
            self.pushed@ == before.pushed@ + 1,
            self.tail == stamp_of(self.cap as int, self.one_lap as int, self.pushed@ as int),
            self.buffer@ == before.buffer@.update(
                (before.pushed@ as int) % (before.cap as int),
                Slot { stamp: (before.tail + 1) as usize, value: Some(value) },
            ),
        ensures
            self.wf(),
            self@ == before@.push(value),
    {
        let cap = self.cap as int;
        let one_lap = self.one_lap as int;
        let popped = self.popped@ as int;
        let at = before.pushed@ as int;
        lemma_stamp_of_index(cap, one_lap, at);
        lemma_stamp_has_room(cap, one_lap, stamp_of(cap, one_lap, at));
        assert forall|n: int| popped <= n < popped + cap implies #[trigger] self.slot_agrees(
            n,
        ) by {
            assert(before.slot_agrees(n));
            if n < at {
                lemma_slots_differ(cap, n, at);
            } else if n > at {
                lemma_slots_differ(cap, at, n);
            }
        }
        assert forall|k: int| 0 <= k < before@.len() implies self@[k] == before@[k] by {
            lemma_slots_differ(cap, popped + k, at);
        }
        assert(self@ =~= before@.push(value));
    }

    /// Pushes `value` at the back of the queue, or hands it back when the
    /// queue is full.
    pub fn push_blocking(&mut self, value: T) -> (result: Result<(), T>)
        requires
            old(self).wf(),
        ensures
            final(self).wf(),
            final(self).spec_capacity() == old(self).spec_capacity(),
            (final(self)@, result) == spec_push(
                old(self)@,
                old(self).spec_capacity() as nat,
                value,
            ),
            final(self).popped() == old(self).popped(),
            final(self).pushed() == old(self).pushed() + if result is Ok {
                1nat
            } else {
                0nat
            },
    {
        proof {
            self.lemma_bounds();
            self.lemma_push_at_tail();
        }
        let tail = self.tail;
        match self.try_push(tail, value) {
            Flow::Break(result) => result,
            // An attempt at the current tail always settles.
            Flow::Continue(_, _, value) => Err(value),
        }
    }

    /// Makes one attempt to pop a value at the stamp `head`.
    ///
    /// The attempt goes as [`Self::pop_verdict`] says. When it is claimed,
    /// the oldest value comes out. Otherwise the queue is unchanged, and the
    /// attempt either reports that the queue is empty or tells how to pause
    /// and, when the head was seen, the head to use next.
    pub fn try_pop(&mut self, head: usize) -> (flow: Flow<Option<T>, ()>)
        requires
            old(self).wf(),
            old(self).in_ring(head),
        ensures
            final(self).wf(),
            final(self).spec_capacity() == old(self).spec_capacity(),
            final(self).one_lap() == old(self).one_lap(),
            final(self).pushed() == old(self).pushed(),
            match old(self).pop_verdict(head) {
                PopVerdict::Claimed => {
                    &&& old(self)@.len() > 0
                    &&& flow == Flow::<Option<T>, ()>::Break(Some(old(self)@.first()))
                    &&& final(self)@ == old(self)@.drop_first()
                    &&& final(self).popped() == old(self).popped() + 1
                },
                PopVerdict::Outrun => {
                    &&& flow == Flow::<Option<T>, ()>::Continue(
                        Pause::Spin,
                        Some(old(self).head_stamp()),
                        (),
                    )
                    &&& *final(self) == *old(self)
                },
                PopVerdict::Empty => {
                    &&& flow == Flow::<Option<T>, ()>::Break(None)
                    &&& *final(self) == *old(self)
                },
                PopVerdict::Stale => {
                    &&& flow == Flow::<Option<T>, ()>::Continue(Pause::Spin, None, ())
                    &&& *final(self) == *old(self)
                },
                PopVerdict::Busy => {
                    &&& flow == Flow::<Option<T>, ()>::Continue(Pause::Yield, None, ())
                    &&& *final(self) == *old(self)
                },
            },
    {
        let (index, new_head) = self.index(head);
        proof {
            lemma_stamp_has_room(self.cap as int, self.one_lap as int, head as int);
        }

        // Inspect the corresponding slot.
        let stamp = self.buffer[index].stamp;

        // If the stamp is ahead of the head by 1, we may attempt to pop.
        if head + 1 == stamp {
            // Try moving the head.
            match compare_exchange(&mut self.head, head, new_head) {
                // The head moved: the slot is ours.
                Ok(_) => {
                    proof {
                        lemma_stamp_of_index(
                            self.cap as int,
                            self.one_lap as int,
                            self.popped@ as int,
                        );
                        old(self).lemma_claimed_slot_is_taken(index);
                        lemma_stamp_of_next(
                            self.cap as int,
                            self.one_lap as int,
                            self.popped@ as int,
                        );
                        lemma_wrapping_lap(self.cap as int, self.one_lap, head);
                    }
                    // Read the value from the slot and update the stamp.
                    let slot = &mut self.buffer[index];
                    let msg = slot.value.take();
                    slot.stamp = head.wrapping_add(self.one_lap);
                    self.popped = Ghost(self.popped@ + 1);
                    proof {
                        self.lemma_popped(*old(self));
                    }
                    Flow::Break(msg)
                },
                // The head stands elsewhere.
                Err(h) => Flow::Continue(Pause::Spin, Some(h), ()),
            }
        } else if stamp == head {
            // The slot is free.
            let tail = self.tail;

            // If the tail equals the head, the queue is empty.
            if tail == head {
                return Flow::Break(None);
            }
            Flow::Continue(Pause::Spin, None, ())
        } else {
            Flow::Continue(Pause::Yield, None, ())
        }
    }

    /// A slot whose stamp is one above the head holds the value of the next
    /// pop.
    proof fn lemma_claimed_slot_is_taken(&self, index: usize)
        requires
            self.wf(),
            index == self.popped@ % (self.cap as nat),
            self.buffer@[index as int].stamp == stamp_of(
                self.cap as int,
                self.one_lap as int,
                self.popped@ as int,
            ) + 1,
        ensures
            self.popped@ < self.pushed@,
    {
        assert(self.slot_agrees(self.popped@ as int));
    }

    /// The state after a claimed pop is well-formed and lacks the value that
    /// was at the front.
    proof fn lemma_popped(&self, before: Self)
        requires
            before.wf(),
            before.popped@ < before.pushed@,
            self.cap == before.cap,
            self.one_lap == before.one_lap,
            self.tail == before.tail,
            self.pushed@ == before.pushed@,
            self.popped@ == before.popped@ + 1,
            self.head == stamp_of(self.cap as int, self.one_lap as int, self.popped@ as int),
            self.buffer@ == before.buffer@.update(
                (before.popped@ as int) % (before.cap as int),
                Slot {
                    stamp: lap_ahead(before.one_lap as int, before.head as int) as usize,
                    value: None,
                },
            ),
        ensures
            self.wf(),
            before@.len() > 0,
            self@ == before@.drop_first(),
            before@.first() == before.buffer@[before.slot_of(0)].value->0,
            before.buffer@[before.slot_of(0)].value is Some,
    {
        let cap = self.cap as int;
        let one_lap = self.one_lap as int;
        let at = before.popped@ as int;
        lemma_stamp_of_index(cap, one_lap, at);
        lemma_stamp_of_lap(cap, one_lap, at);
        lemma_lap_ahead(cap, one_lap, stamp_of(cap, one_lap, at));
        assert(before.slot_agrees(at));
        assert forall|n: int| at + 1 <= n < at + 1 + cap implies #[trigger] self.slot_agrees(
            n,
        ) by {
            if n < at + cap {
                assert(before.slot_agrees(n));
                lemma_slots_differ(cap, at, n);
            } else {
                lemma_fundamental_div_mod(at, cap);
                assert(at + cap == (at / cap + 1) * cap + at % cap) by (nonlinear_arith)
                    requires
                        at == cap * (at / cap) + at % cap,
                ;
                lemma_fundamental_div_mod_converse(at + cap, cap, at / cap + 1, at % cap);
            }
        }
        assert forall|k: int| 0 <= k < self@.len() implies self@[k] == before@[k + 1] by {
            lemma_slots_differ(cap, at, at + 1 + k);
        }
        assert(self@ =~= before@.drop_first());
    }

    /// Pops the oldest value, or returns `None` when the queue is empty.
    pub fn pop(&mut self) -> (value: Option<T>)
        requires
            old(self).wf(),
        ensures
            final(self).wf(),
            final(self).spec_capacity() == old(self).spec_capacity(),
            (final(self)@, value) == spec_pop(old(self)@),
            final(self).pushed() == old(self).pushed(),
            final(self).popped() == old(self).popped() + if value is Some {
                1nat
            } else {
                0nat
            },
    {
        proof {
            self.lemma_bounds();
            self.lemma_pop_at_head();
        }
        let head = self.head;
        match self.try_pop(head) {
            Flow::Break(value) => value,
            // An attempt at the current head always settles.
            Flow::Continue(_, _, _) => None,
        }
    }

    /// Number of values in the queue.
    pub fn len(&self) -> (len: usize)
        requires
            self.wf(),
        ensures
            len == self@.len(),
            len <= self.spec_capacity(),
    {
        // Nothing moves the tail between two reads under exclusive access, so
        // one pair of readings is consistent.
        let tail = self.tail;
        let head = self.head;
        proof {
            self.lemma_bounds();
            lemma_stamp_distance(
                self.cap as int,
                self.one_lap as int,
                self.popped@ as int,
                self.pushed@ as int,
            );
        }
        self.len_impl(head, tail)
    }

    /// Number of values between a head and a tail that were read at one
    /// moment.
    fn len_impl(&self, head: usize, tail: usize) -> (len: usize)
        requires
            lap_geometry(self.cap as int, self.one_lap as int),
            stamp_index(self.one_lap as int, head as int) < self.cap,
            stamp_index(self.one_lap as int, tail as int) < self.cap,
        ensures
            len == stamp_distance(self.cap as int, self.one_lap as int, head as int, tail as int),
    {
        proof {
            lemma_mask_is_index(self.cap as int, self.one_lap, head);
            lemma_mask_is_index(self.cap as int, self.one_lap, tail);
        }
        let head_index = head & (self.one_lap - 1);
        let tail_index = tail & (self.one_lap - 1);

        if head_index < tail_index {
            tail_index - head_index
        } else if head_index > tail_index {
            self.cap - head_index + tail_index
        } else if tail == head {
            0
        } else {
            self.cap
        }
    }

    /// Takes the queue apart and returns its values, oldest first. Every
    /// value of the queue is handed out once; the other slots hold none.
    pub fn into_vec(self) -> (values: Vec<T>)
        requires
            self.wf(),
        ensures
            values@ == self@,
    {
        let mut queue = self;
        let head = queue.head;
        let tail = queue.tail;
        proof {
            queue.lemma_bounds();
            lemma_stamp_distance(
                queue.cap as int,
                queue.one_lap as int,
                queue.popped@ as int,
                queue.pushed@ as int,
            );
            lemma_mask_is_index(queue.cap as int, queue.one_lap, head);
            lemma_stamp_of_index(queue.cap as int, queue.one_lap as int, queue.popped@ as int);
            lemma_lap_divides_word(queue.cap as int, queue.one_lap as int);
        }
        let len = queue.len_impl(head, tail);
        let head_index = head & (queue.one_lap - 1);

        // Walk the slots that hold a value and move each value out.
        let mut values: Vec<T> = Vec::new();
        let mut i: usize = 0;
        while i < len
            invariant
                i <= len,
                len == self@.len(),
                len <= queue.cap,
                2 * queue.cap <= usize::MAX,
                head_index == self.popped@ % (self.cap as nat),
                head_index < queue.cap,
                queue.cap == self.cap,
                self.wf(),
                queue.buffer@.len() == self.cap,
                values@ == self@.subrange(0, i as int),
                forall|k: int|
                    i <= k < len ==> queue.buffer@[#[trigger] self.slot_of(k)]
                        == self.buffer@[self.slot_of(k)],
            decreases len - i,
        {
            // The index of the next slot that holds a value.
            let index = if head_index + i < queue.cap {
                head_index + i
            } else {
                head_index + i - queue.cap
            };
            proof {
                let cap = self.cap as int;
                let at = self.popped@ as int;
                lemma_fundamental_div_mod(at, cap);
                if head_index + i < cap {
                    assert(at + i == (at / cap) * cap + (head_index + i)) by (nonlinear_arith)
                        requires
                            at == cap * (at / cap) + head_index,
                    ;
                    lemma_fundamental_div_mod_converse(at + i, cap, at / cap, head_index + i);
                } else {
                    assert(at + i == (at / cap + 1) * cap + (head_index + i - cap))
                        by (nonlinear_arith)
                        requires
                            at == cap * (at / cap) + head_index,
                    ;
                    lemma_fundamental_div_mod_converse(
                        at + i,
                        cap,
                        at / cap + 1,
                        head_index + i - cap,
                    );
                }
                assert(self.slot_agrees(at + i));
                assert forall|k: int| i < k < len implies #[trigger] self.slot_of(k) != index by {
                    lemma_slots_differ(cap, at + i, at + k);
                }
                assert(self.slot_of(i as int) == index);
            }
            let slot = &mut queue.buffer[index];
            match slot.value.take() {
                Some(value) => values.push(value),
                None => {},
            }
            i += 1;
        }
        proof {
            assert(values@ =~= self@);
        }
        values
    }
}

/// One operation on a queue.
pub enum QueueOp<T> {
    /// Push this value.
    Push(T),
    /// Pop a value.
    Pop,
}

/// What a run of operations comes to.
pub struct QueueRun<T> {
    /// The values in the queue, oldest first.
    pub items: Seq<T>,
    /// The values whose push the queue accepted, in the order of the pushes.
    pub accepted: Seq<T>,
    /// The values that pops gave out, in the order of the pops.
    pub popped: Seq<T>,
}

/// Runs the operations `ops`, in order, on an empty queue with room for
/// `cap` values.
pub open spec fn run_queue<T>(cap: nat, ops: Seq<QueueOp<T>>) -> QueueRun<T>
    decreases ops.len(),
{
    if ops.len() == 0 {
        QueueRun { items: Seq::empty(), accepted: Seq::empty(), popped: Seq::empty() }
    } else {
        let before = run_queue(cap, ops.drop_last());
        match ops.last() {
            QueueOp::Push(value) => match spec_push(before.items, cap, value) {
                (items, Ok(_)) => QueueRun {
                    items,
                    accepted: before.accepted.push(value),
                    popped: before.popped,
                },
                (_, Err(_)) => before,
            },
            QueueOp::Pop => match spec_pop(before.items) {
                (items, Some(value)) => QueueRun {
                    items,
                    accepted: before.accepted,
                    popped: before.popped.push(value),
                },
                (_, None) => before,
            },
        }
    }
}

/// Whatever operations run on a queue, in whatever order: the values that
/// came out, followed by the values still in the queue, are the values that
/// the queue accepted, in the order in which it accepted them. So no more
/// values come out than went in, each comes out as often as it went in once
/// the queue is empty again, and the queue never holds more than `cap`.
pub proof fn lemma_run_queue<T>(cap: nat, ops: Seq<QueueOp<T>>)
    ensures
        run_queue(cap, ops).accepted == run_queue(cap, ops).popped + run_queue(cap, ops).items,
        run_queue(cap, ops).popped.len() <= run_queue(cap, ops).accepted.len(),
        run_queue(cap, ops).items.len() <= cap,
        run_queue(cap, ops).items.len() == 0 ==> run_queue(cap, ops).popped.to_multiset()
            == run_queue(cap, ops).accepted.to_multiset(),
    decreases ops.len(),
{
    let run = run_queue(cap, ops);
    if ops.len() > 0 {
        let before = run_queue(cap, ops.drop_last());
        lemma_run_queue(cap, ops.drop_last());
        match ops.last() {
            QueueOp::Push(value) => {
                assert(before.popped + before.items.push(value) =~= (before.popped
                    + before.items).push(value));
            },
            QueueOp::Pop => {
                if before.items.len() > 0 {
                    assert(before.popped.push(before.items.first()) + before.items.drop_first()
                        =~= before.popped + before.items);
                }
            },
        }
    }
    assert(run.accepted =~= run.popped + run.items);
    if run.items.len() == 0 {
        assert(run.popped + run.items =~= run.popped);
    }
}

/// A queue reports that it is full only when it holds `cap` values, and that
/// it is empty only when it holds none. A queue that holds `cap` values
/// refuses the next push.
pub proof fn lemma_full_and_empty<T>(items: Seq<T>, cap: nat, value: T)
    ensures
        spec_push(items, cap, value).1 is Err <==> items.len() >= cap,
        spec_pop(items).1 is None <==> items.len() == 0,
{
}

/// A value pushed into an empty queue is the value that the next pop gives
/// out, and the queue is empty again.
pub proof fn lemma_round_trip<T>(cap: nat, value: T)
    requires
        cap > 0,
    ensures
        spec_push(Seq::<T>::empty(), cap, value).1 is Ok,
        spec_pop(spec_push(Seq::<T>::empty(), cap, value).0) == (Seq::<T>::empty(), Some(value)),
{
    let pushed = spec_push(Seq::<T>::empty(), cap, value).0;
    assert(pushed.drop_first() =~= Seq::<T>::empty());
}

} // verus!
