//! Scans and reductions that one workgroup runs over shared memory.
//!
//! Both work level by level over a tree whose nodes lie at the ends of their
//! blocks. The steps of one level touch different words, so a level can run in
//! any order; here it runs from the first to the last.

use vstd::prelude::*;
use vstd::arithmetic::power2::*;
use vstd::arithmetic::div_mod::*;

verus! {

/// The sum of the counts from `from` up to `to`.
pub open spec fn sum(counts: Seq<u32>, from: int, to: int) -> int
    decreases to - from,
{
    if to <= from {
        0
    } else {
        sum(counts, from, to - 1) + counts[to - 1]
    }
}

/// What is left of a number in a word.
pub open spec fn word(x: int) -> int {
    x % 0x1_0000_0000
}

proof fn lemma_sum_splits(counts: Seq<u32>, from: int, mid: int, to: int)
    requires
        from <= mid <= to,
    ensures
        sum(counts, from, mid) + sum(counts, mid, to) == sum(counts, from, to),
    decreases to - mid,
{
    if mid < to {
        lemma_sum_splits(counts, from, mid, to - 1);
    }
}

proof fn lemma_words_add(a: int, b: int)
    ensures
        word(word(a) + word(b)) == word(a + b),
{
    lemma_add_mod_noop(a, b, 0x1_0000_0000);
}

/// The block that ends at `end` after `levels` levels: the largest power of two
/// up to `2^levels` that divides `end`.
pub open spec fn span(end: int, levels: nat) -> int
    decreases levels,
{
    if levels == 0 {
        1
    } else if end % (pow2(levels) as int) == 0 {
        pow2(levels) as int
    } else {
        span(end, (levels - 1) as nat)
    }
}

proof fn lemma_pow2_doubles(j: nat)
    ensures
        pow2(j) > 0,
        pow2(j + 1) == 2 * pow2(j),
{
    lemma_pow2_pos(j);
    lemma_pow2_unfold(j + 1);
}

/// Multiples of a block and of the half of one.
proof fn lemma_halves(end: int, half: int)
    requires
        half > 0,
        end % (2 * half) == 0,
    ensures
        end % half == 0,
        (end - half) % half == 0,
        (end - half) % (2 * half) == half,
        (end - half) % (2 * half) != 0,
{
    let m = end / (2 * half);
    assert(end == 2 * half * m) by (nonlinear_arith)
        requires
            half > 0,
            end % (2 * half) == 0,
            m == end / (2 * half),
    ;
    assert(2 * half * m == half * (2 * m)) by (nonlinear_arith);
    assert(half * (2 * m) - half == half * (2 * m - 1)) by (nonlinear_arith);
    lemma_mod_multiples_basic(2 * m, half);
    lemma_mod_multiples_basic(2 * m - 1, half);
    assert(half * (2 * m) == (2 * m) * half && half * (2 * m - 1) == (2 * m - 1) * half)
        by (nonlinear_arith);
    assert(end - half == (m - 1) * (2 * half) + half) by (nonlinear_arith)
        requires
            end == 2 * half * m,
    ;
    lemma_fundamental_div_mod_converse(end - half, 2 * half, m - 1, half);
}

proof fn lemma_span_of_multiple(end: int, levels: nat)
    requires
        end % (pow2(levels) as int) == 0,
    ensures
        span(end, levels) == pow2(levels),
{
    lemma_pow2_doubles(0);
    assert(pow2(0) == 1) by {
        lemma2_to64();
    }
}

/// An odd multiple of half a block keeps its span over the next level.
proof fn lemma_span_of_half(end: int, j: nat)
    requires
        end % (pow2(j + 1) as int) == 0,
    ensures
        span(end, j) == pow2(j),
        span(end - pow2(j), j) == pow2(j),
        span(end - pow2(j), j + 1) == pow2(j),
{
    lemma_pow2_doubles(j);
    lemma_halves(end, pow2(j) as int);
    lemma_span_of_multiple(end, j);
    lemma_span_of_multiple(end - pow2(j), j);
}

/// After `levels` levels of the up-sweep each word holds the sum of its block.
pub open spec fn folded(words: Seq<u32>, counts: Seq<u32>, levels: nat) -> bool {
    &&& words.len() == counts.len()
    &&& forall|p: int|
        0 <= p < words.len() ==> #[trigger] words[p] == word(
            sum(counts, p + 1 - span(p + 1, levels), p + 1),
        )
}

/// With `levels` levels of the down-sweep left, the words at the ends of blocks
/// hold the sum of all that comes before the block.
pub open spec fn spread(words: Seq<u32>, counts: Seq<u32>, levels: nat) -> bool {
    &&& words.len() == counts.len()
    &&& forall|p: int|
        0 <= p < words.len() ==> #[trigger] words[p] == if (p + 1) % (pow2(levels) as int) == 0 {
            word(sum(counts, 0, p + 1 - pow2(levels)))
        } else {
            word(sum(counts, p + 1 - span(p + 1, levels), p + 1))
        }
}

fn fold_level(words: &mut Vec<u32>, offset: usize, pairs: usize, Ghost(counts): Ghost<Seq<u32>>, Ghost(j): Ghost<nat>)
    requires
        folded(old(words)@, counts, j),
        offset == pow2(j),
        offset * 2 * pairs == counts.len(),
    ensures
        folded(final(words)@, counts, j + 1),
{
    let ghost before = words@;
    let total: usize = words.len();
    let mut i: usize = 0;
    proof {
        lemma_pow2_doubles(j);
    }
    while i < pairs
        invariant
            i <= pairs,
            total == before.len(),
            folded(before, counts, j),
            offset == pow2(j),
            offset > 0,
            pow2(j + 1) == 2 * pow2(j),
            offset * 2 * pairs == counts.len(),
            counts.len() == total,
            words@.len() == before.len(),
            forall|p: int|
                0 <= p < words@.len() ==> #[trigger] words@[p] == (if p + 1 <= offset * 2 * i {
                    word(sum(counts, p + 1 - span(p + 1, j + 1), p + 1))
                } else {
                    before[p] as int
                }),
        decreases pairs - i,
    {
        proof {
            assert(offset * (2 * i + 2) <= offset * 2 * pairs) by (nonlinear_arith)
                requires
                    i < pairs,
                    offset > 0,
            ;
            assert(offset * (2 * i + 1) == offset * (2 * i + 2) - offset) by (nonlinear_arith);
            assert(offset * (2 * i + 2) == offset * 2 * i + 2 * offset) by (nonlinear_arith);
            assert(offset * 2 * (i + 1) == offset * 2 * i + 2 * offset) by (nonlinear_arith);
            assert(offset * (2 * i + 1) >= offset) by (nonlinear_arith)
                requires
                    offset > 0,
                    i >= 0,
            ;
            assert(2 * i + 2 <= total) by (nonlinear_arith)
                requires
                    offset * (2 * i + 2) <= total,
                    offset > 0,
            ;
        }
        let a: usize = offset * (2 * i + 1) - 1;
        let b: usize = offset * (2 * i + 2) - 1;
        let ghost held = words@;
        let left: u32 = words[a];
        let right: u32 = words[b];
        words.set(b, right.wrapping_add(left));
        proof {
            let end = b + 1;
            assert(end == (i + 1) * (2 * offset)) by (nonlinear_arith)
                requires
                    end == offset * (2 * i + 2),
            ;
            lemma_mod_multiples_basic(i + 1, 2 * offset as int);
            lemma_span_of_half(end, j);
            lemma_span_of_multiple(end, j + 1);
            assert(held[a as int] == before[a as int]);
            assert(held[b as int] == before[b as int]);
            lemma_sum_splits(counts, end - 2 * offset, end - offset, end);
            lemma_words_add(
                sum(counts, end - offset, end),
                sum(counts, end - 2 * offset, end - offset),
            );
            assert forall|p: int| 0 <= p < words@.len() implies #[trigger] words@[p] == (if p + 1
                <= offset * 2 * (i + 1) {
                word(sum(counts, p + 1 - span(p + 1, j + 1), p + 1))
            } else {
                before[p] as int
            }) by {
                if offset * 2 * i < p + 1 && p < b {
                    lemma_not_a_multiple(p + 1, i as int, 2 * offset as int);
                    assert(span(p + 1, j + 1) == span(p + 1, j));
                    assert(held[p] == before[p]);
                }
            }
        }
        i = i + 1;
    }
    proof {
        assert(offset * 2 * i == counts.len());
    }
}

proof fn lemma_not_a_multiple(x: int, m: int, size: int)
    requires
        size > 0,
        size * m < x < size * m + size,
    ensures
        x % size != 0,
{
    assert(size * m == m * size) by (nonlinear_arith);
    lemma_fundamental_div_mod_converse(x, size, m, x - size * m);
}

fn spread_level(words: &mut Vec<u32>, offset: usize, pairs: usize, Ghost(counts): Ghost<Seq<u32>>, Ghost(j): Ghost<nat>)
    requires
        spread(old(words)@, counts, j + 1),
        offset == pow2(j),
        offset * 2 * pairs == counts.len(),
    ensures
        spread(final(words)@, counts, j),
{
    let ghost before = words@;
    let total: usize = words.len();
    let mut i: usize = 0;
    proof {
        lemma_pow2_doubles(j);
    }
    while i < pairs
        invariant
            i <= pairs,
            total == before.len(),
            spread(before, counts, j + 1),
            offset == pow2(j),
            offset > 0,
            pow2(j + 1) == 2 * pow2(j),
            offset * 2 * pairs == counts.len(),
            counts.len() == total,
            words@.len() == before.len(),
            forall|p: int|
                0 <= p < words@.len() ==> #[trigger] words@[p] == (if p + 1 <= offset * 2 * i {
                    if (p + 1) % (offset as int) == 0 {
                        word(sum(counts, 0, p + 1 - offset))
                    } else {
                        word(sum(counts, p + 1 - span(p + 1, j), p + 1))
                    }
                } else {
                    before[p] as int
                }),
        decreases pairs - i,
    {
        proof {
            assert(offset * (2 * i + 2) <= offset * 2 * pairs) by (nonlinear_arith)
                requires
                    i < pairs,
                    offset > 0,
            ;
            assert(offset * (2 * i + 1) == offset * (2 * i + 2) - offset) by (nonlinear_arith);
            assert(offset * (2 * i + 2) == offset * 2 * i + 2 * offset) by (nonlinear_arith);
            assert(offset * 2 * (i + 1) == offset * 2 * i + 2 * offset) by (nonlinear_arith);
            assert(offset * (2 * i + 1) >= offset) by (nonlinear_arith)
                requires
                    offset > 0,
                    i >= 0,
            ;
            assert(2 * i + 2 <= total) by (nonlinear_arith)
                requires
                    offset * (2 * i + 2) <= total,
                    offset > 0,
            ;
        }
        let a: usize = offset * (2 * i + 1) - 1;
        let b: usize = offset * (2 * i + 2) - 1;
        let ghost held = words@;
        let left: u32 = words[a];
        let right: u32 = words[b];
        words.set(a, right);
        words.set(b, right.wrapping_add(left));
        proof {
            let end = b + 1;
            assert(end == (i + 1) * (2 * offset)) by (nonlinear_arith)
                requires
                    end == offset * (2 * i + 2),
            ;
            lemma_mod_multiples_basic(i + 1, 2 * offset as int);
            lemma_halves(end, offset as int);
            lemma_span_of_half(end, j);
            assert(held[a as int] == before[a as int]);
            assert(held[b as int] == before[b as int]);
            assert(before[a as int] == word(sum(counts, end - 2 * offset, end - offset)));
            assert(before[b as int] == word(sum(counts, 0, end - 2 * offset)));
            lemma_sum_splits(counts, 0, end - 2 * offset, end - offset);
            lemma_words_add(
                sum(counts, 0, end - 2 * offset),
                sum(counts, end - 2 * offset, end - offset),
            );
            assert forall|p: int| 0 <= p < words@.len() implies #[trigger] words@[p] == (if p + 1
                <= offset * 2 * (i + 1) {
                if (p + 1) % (offset as int) == 0 {
                    word(sum(counts, 0, p + 1 - offset))
                } else {
                    word(sum(counts, p + 1 - span(p + 1, j), p + 1))
                }
            } else {
                before[p] as int
            }) by {
                if offset * 2 * i < p + 1 && p < b && p != a {
                    assert(2 * offset * i == offset * 2 * i) by (nonlinear_arith);
                    lemma_not_a_multiple(p + 1, i as int, 2 * offset as int);
                    assert(span(p + 1, j + 1) == span(p + 1, j));
                    assert(held[p] == before[p]);
                    if p < a {
                        assert(offset * (2 * i) == offset * 2 * i) by (nonlinear_arith);
                        lemma_not_a_multiple(p + 1, 2 * i as int, offset as int);
                    } else {
                        lemma_not_a_multiple(p + 1, 2 * i + 1, offset as int);
                    }
                }
            }
        }
        i = i + 1;
    }
}

/// What a scan gives.
pub struct Scan {
    /// For each count the sum of those before it.
    pub offsets: Vec<u32>,
    /// The sum of all counts.
    pub total: u32,
}

pub open spec fn shorter(a: int, b: int) -> int {
    if a < b {
        a
    } else {
        b
    }
}

/// The counts that take part in a scan, with zeros up to its capacity.
pub open spec fn padded(counts: Seq<u32>, capacity: int) -> Seq<u32> {
    Seq::new(
        capacity as nat,
        |i: int|
            if i < counts.len() {
                counts[i]
            } else {
                0
            },
    )
}

proof fn lemma_padding_adds_nothing(counts: Seq<u32>, capacity: int, to: int)
    requires
        0 <= to <= capacity,
    ensures
        sum(padded(counts, capacity), 0, to) == sum(counts, 0, shorter(to, counts.len() as int)),
    decreases to,
{
    if to > 0 {
        lemma_padding_adds_nothing(counts, capacity, to - 1);
    }
}

/// Exclusive scan of the counts, as far as they fit `2^levels` words: each
/// offset is the sum of the counts before it.
pub fn prefix_sum(counts: &Vec<u32>, levels: u32) -> (scan: Scan)
    requires
        levels <= 24,
    ensures
        scan.offsets@.len() == shorter(counts@.len() as int, pow2(levels as nat) as int),
        forall|i: int|
            0 <= i < scan.offsets@.len() ==> #[trigger] scan.offsets@[i] == word(
                sum(counts@, 0, i),
            ),
        scan.total == word(
            sum(counts@, 0, shorter(counts@.len() as int, pow2(levels as nat) as int)),
        ),
{
    let mut capacity: usize = 1;
    let mut level: u32 = 0;
    proof {
        lemma2_to64();
    }
    while level < levels
        invariant
            level <= levels <= 24,
            capacity == pow2(level as nat),
            capacity <= pow2(24),
            pow2(24) == 0x100_0000,
        decreases levels - level,
    {
        proof {
            lemma_pow2_doubles(level as nat);
            if level + 1 < 24 {
                lemma_pow2_strictly_increases((level + 1) as nat, 24);
            }
        }
        capacity = capacity * 2;
        level = level + 1;
    }
    let count: usize = if counts.len() < capacity {
        counts.len()
    } else {
        capacity
    };
    let mut words: Vec<u32> = Vec::new();
    let ghost all = padded(counts@, capacity as int);
    let mut i: usize = 0;
    while i < capacity
        invariant
            i <= capacity,
            count == shorter(counts@.len() as int, capacity as int),
            words@.len() == i,
            all == padded(counts@, capacity as int),
            forall|p: int| 0 <= p < i ==> #[trigger] words@[p] == all[p],
        decreases capacity - i,
    {
        if i < count {
            words.push(counts[i]);
        } else {
            words.push(0);
        }
        i = i + 1;
    }
    let mut offset: usize = 1;
    let mut pairs: usize = capacity / 2;
    let ghost mut j: nat = 0;
    proof {
        assert forall|p: int| 0 <= p < words@.len() implies #[trigger] words@[p] == word(
            sum(all, p + 1 - span(p + 1, 0), p + 1),
        ) by {
            reveal_with_fuel(sum, 2);
        }
        if levels > 0 {
            lemma_pow2_doubles((levels - 1) as nat);
            assert(1 * 2 * pairs == capacity);
        }
    }
    while pairs > 0
        invariant
            folded(words@, all, j),
            all.len() == capacity,
            capacity == pow2(levels as nat),
            j <= levels <= 24,
            offset == pow2(j),
            capacity <= 0x100_0000,
            j < levels ==> offset * 2 * pairs == capacity,
            j == levels ==> pairs == 0,
        decreases levels - j,
    {
        fold_level(&mut words, offset, pairs, Ghost(all), Ghost(j));
        proof {
            lemma_pow2_doubles(j);
            if j + 1 < levels {
                lemma_pow2_strictly_increases(j + 1, levels as nat);
                let rest = (levels - j - 2) as nat;
                lemma_pow2_adds(j + 2, rest);
                lemma_pow2_doubles(j + 1);
                lemma_pow2_pos(rest);
                assert(pairs == 2 * pow2(rest) && offset * 2 * 2 * (pairs / 2) == capacity)
                    by (nonlinear_arith)
                    requires
                        offset * 2 * pairs == capacity,
                        capacity == offset * 4 * pow2(rest),
                        offset > 0,
                ;
            } else {
                assert(pairs == 1) by (nonlinear_arith)
                    requires
                        offset * 2 * pairs == capacity,
                        capacity == 2 * offset,
                        offset > 0,
                ;
            }
            assert(offset * 2 <= capacity) by (nonlinear_arith)
                requires
                    offset * 2 * pairs == capacity,
                    pairs > 0,
                    offset > 0,
            ;
        }
        offset = offset * 2;
        pairs = pairs / 2;
        proof {
            j = j + 1;
        }
    }
    proof {
        if j < levels {
            assert(offset * 2 * pairs == 0) by (nonlinear_arith)
                requires
                    pairs == 0,
            ;
            lemma_pow2_pos(levels as nat);
        }
        lemma_pow2_pos(levels as nat);
        lemma_mod_self_0(capacity as int);
        lemma_span_of_multiple(capacity as int, levels as nat);
    }
    let total: u32 = words[capacity - 1];
    let ghost held = words@;
    words.set(capacity - 1, 0);
    proof {
        assert forall|p: int| 0 <= p < words@.len() implies #[trigger] words@[p] == (if (p + 1) % (
        pow2(levels as nat) as int) == 0 {
            word(sum(all, 0, p + 1 - pow2(levels as nat)))
        } else {
            word(sum(all, p + 1 - span(p + 1, levels as nat), p + 1))
        }) by {
            if p + 1 < capacity {
                lemma_small_mod((p + 1) as nat, capacity as nat);
                assert(words@[p] == held[p]);
            }
        }
    }
    pairs = 1;
    while pairs < capacity
        invariant
            spread(words@, all, j),
            all.len() == capacity,
            j <= levels <= 24,
            capacity == pow2(levels as nat),
            offset == pow2(j),
            capacity <= 0x100_0000,
            offset * pairs == capacity,
        decreases j,
    {
        proof {
            if j == 0 {
                lemma2_to64();
            } else {
                lemma_pow2_doubles((j - 1) as nat);
                assert((offset / 2) * 2 * pairs == capacity) by (nonlinear_arith)
                    requires
                        offset * pairs == capacity,
                        (offset / 2) * 2 == offset,
                ;
                assert((offset / 2) * (pairs * 2) == capacity) by (nonlinear_arith)
                    requires
                        (offset / 2) * 2 * pairs == capacity,
                ;
            }
        }
        offset = offset / 2;
        proof {
            j = (j - 1) as nat;
        }
        spread_level(&mut words, offset, pairs, Ghost(all), Ghost(j));
        pairs = pairs * 2;
    }
    proof {
        if j > 0 {
            lemma_pow2_doubles((j - 1) as nat);
            lemma_pow2_pos(levels as nat);
            assert(offset * pairs > capacity) by (nonlinear_arith)
                requires
                    offset >= 2,
                    pairs >= capacity,
                    capacity > 0,
            ;
        }
    }
    let mut offsets: Vec<u32> = Vec::new();
    let mut k: usize = 0;
    proof {
        lemma2_to64();
    }
    while k < count
        invariant
            k <= count <= capacity,
            count <= counts@.len(),
            spread(words@, all, 0),
            pow2(0) == 1,
            all == padded(counts@, capacity as int),
            offsets@.len() == k,
            forall|p: int| 0 <= p < k ==> #[trigger] offsets@[p] == word(sum(counts@, 0, p)),
        decreases count - k,
    {
        proof {
            lemma_padding_adds_nothing(counts@, capacity as int, k as int);
            assert((k + 1) % 1 == 0);
        }
        offsets.push(words[k]);
        k = k + 1;
    }
    proof {
        lemma_padding_adds_nothing(counts@, capacity as int, capacity as int);
    }
    Scan { offsets, total }
}

/// The ranges that a scan lays out follow each other without gap or overlap
/// where the sum fits a word.
pub proof fn law_ranges_follow(counts: Seq<u32>, i: int, j: int)
    requires
        0 <= i < j <= counts.len(),
        sum(counts, 0, counts.len() as int) < 0x1_0000_0000,
    ensures
        word(sum(counts, 0, i)) + counts[i] <= word(sum(counts, 0, j)),
        j == i + 1 ==> word(sum(counts, 0, i)) + counts[i] == word(sum(counts, 0, j)),
{
    lemma_sum_grows(counts, 0, i);
    lemma_sum_grows(counts, 0, i + 1);
    lemma_sum_grows(counts, i + 1, j);
    lemma_sum_grows(counts, j, counts.len() as int);
    lemma_sum_splits(counts, 0, i + 1, j);
    lemma_sum_splits(counts, 0, j, counts.len() as int);
    lemma_small_mod(sum(counts, 0, i) as nat, 0x1_0000_0000);
    lemma_small_mod(sum(counts, 0, j) as nat, 0x1_0000_0000);
}

proof fn lemma_sum_grows(counts: Seq<u32>, from: int, to: int)
    ensures
        sum(counts, from, to) >= 0,
    decreases to - from,
{
    if to > from {
        lemma_sum_grows(counts, from, to - 1);
    }
}

/// The steps of one level touch different words.
pub proof fn law_steps_do_not_meet(offset: int, i: int, k: int)
    requires
        offset > 0,
        i != k,
    ensures
        offset * (2 * i + 1) - 1 != offset * (2 * k + 1) - 1,
        offset * (2 * i + 1) - 1 != offset * (2 * k + 2) - 1,
        offset * (2 * i + 2) - 1 != offset * (2 * k + 2) - 1,
{
    assert(offset * (2 * i + 1) != offset * (2 * k + 1) && offset * (2 * i + 1) != offset * (2 * k
        + 2) && offset * (2 * i + 2) != offset * (2 * k + 2)) by (nonlinear_arith)
        requires
            offset > 0,
            i != k,
    ;
}

} // verus!
