//! Reductions over the lanes of a workgroup, and over workgroups.
//!
//! Half of the lanes fold the other half into theirs until one is left. Sums of
//! many workgroups are published one by one, and the workgroup that publishes
//! last folds them all.

use vstd::prelude::*;

use crate::float_bits;
use crate::shading::scan;

verus! {

/// A number of lanes that halving brings to one.
pub open spec fn is_stride(stride: int) -> bool {
    stride == 1 || stride == 2 || stride == 4 || stride == 8 || stride == 16 || stride == 32
        || stride == 64 || stride == 128 || stride == 256 || stride == 512
}

// ---------------------------------------------------------------------------
// Sums

proof fn lemma_words_of_sum(a: int, b: int)
    ensures
        scan::word(scan::word(a) + b) == scan::word(a + b),
{
    vstd::arithmetic::div_mod::lemma_add_mod_noop(a, b, 0x1_0000_0000);
    vstd::arithmetic::div_mod::lemma_add_mod_noop(scan::word(a), b, 0x1_0000_0000);
    vstd::arithmetic::div_mod::lemma_mod_twice(a, 0x1_0000_0000);
}

/// The sums of a folded level.
proof fn lemma_fold(before: Seq<u32>, after: Seq<u32>, stride: int, n: int)
    requires
        0 <= n <= stride,
        2 * stride <= before.len(),
        after.len() == before.len(),
        forall|p: int|
            0 <= p < n ==> #[trigger] after[p] == scan::word(before[p] + before[p + stride]),
    ensures
        scan::word(scan::sum(after, 0, n)) == scan::word(
            scan::sum(before, 0, n) + scan::sum(before, stride, stride + n),
        ),
    decreases n,
{
    if n > 0 {
        lemma_fold(before, after, stride, n - 1);
        let a = scan::sum(before, 0, n - 1) + scan::sum(before, stride, stride + n - 1);
        let b = before[n - 1] + before[n - 1 + stride];
        assert(after[n - 1] == scan::word(b));
        lemma_words_of_sum(scan::sum(after, 0, n - 1), scan::word(b));
        lemma_words_of_sum(b, scan::sum(after, 0, n - 1));
        lemma_words_of_sum(a, b);
        lemma_words_of_sum(scan::sum(after, 0, n - 1), b);
    }
}

proof fn lemma_sum_splits(counts: Seq<u32>, from: int, mid: int, to: int)
    requires
        from <= mid <= to,
    ensures
        scan::sum(counts, from, mid) + scan::sum(counts, mid, to) == scan::sum(counts, from, to),
    decreases to - mid,
{
    if mid < to {
        lemma_sum_splits(counts, from, mid, to - 1);
    }
}

/// Folds the lanes of a workgroup to their sum.
pub fn sum_lanes(lanes: &mut Vec<u32>) -> (sum: u32)
    requires
        old(lanes)@.len() % 2 == 0,
        is_stride(old(lanes)@.len() as int / 2),
    ensures
        sum == scan::word(scan::sum(old(lanes)@, 0, old(lanes)@.len() as int)),
{
    let ghost start = lanes@;
    let count: usize = lanes.len();
    let mut stride: usize = count / 2;
    while stride > 0
        invariant
            start.len() == count,
            lanes@.len() == count,
            2 * stride <= count,
            stride == 0 || is_stride(stride as int),
            stride > 0 ==> scan::word(scan::sum(lanes@, 0, 2 * stride)) == scan::word(
                scan::sum(start, 0, start.len() as int),
            ),
            stride == 0 ==> lanes@[0] == scan::word(scan::sum(start, 0, start.len() as int)),
            count >= 2,
        decreases stride,
    {
        let ghost before = lanes@;
        let mut lane: usize = 0;
        while lane < stride
            invariant
                lane <= stride,
                2 * stride <= count,
                lanes@.len() == count,
                before.len() == count,
                forall|p: int| lane <= p < count ==> #[trigger] lanes@[p] == before[p],
                forall|p: int|
                    0 <= p < lane ==> #[trigger] lanes@[p] == scan::word(
                        before[p] + before[p + stride],
                    ),
            decreases stride - lane,
        {
            let sum: u32 = lanes[lane].wrapping_add(lanes[lane + stride]);
            lanes.set(lane, sum);
            lane = lane + 1;
        }
        proof {
            lemma_fold(before, lanes@, stride as int, stride as int);
            lemma_sum_splits(before, 0, stride as int, 2 * stride);
            if stride == 1 {
                reveal_with_fuel(scan::sum, 2);
                vstd::arithmetic::div_mod::lemma_small_mod(lanes@[0] as nat, 0x1_0000_0000);
            }
        }
        stride = stride / 2;
    }
    lanes[0]
}

/// Sums of workgroups that are published one by one.
pub struct GroupSums {
    /// The sum of each workgroup, zero before it is published.
    pub partials: Vec<u32>,
    /// How many were published.
    pub published: u32,
}

impl GroupSums {
    /// Nothing is published yet.
    pub fn new(group_count: u32) -> (sums: GroupSums)
        ensures
            sums.partials@ == Seq::new(group_count as nat, |i: int| 0u32),
            sums.published == 0,
    {
        let mut partials: Vec<u32> = Vec::new();
        let mut i: u32 = 0;
        while i < group_count
            invariant
                i <= group_count,
                partials@.len() == i,
                forall|p: int| 0 <= p < i ==> #[trigger] partials@[p] == 0,
            decreases group_count - i,
        {
            partials.push(0);
            i = i + 1;
        }
        assert(partials@ =~= Seq::new(group_count as nat, |i: int| 0u32));
        GroupSums { partials, published: 0 }
    }

    /// Publishes a workgroup's sum. The workgroup that comes last is elected
    /// and folds all sums.
    pub fn publish(&mut self, group: u32, partial: u32) -> (result: Option<u32>)
        requires
            group < old(self).partials@.len(),
            old(self).published < old(self).partials@.len() <= u32::MAX,
        ensures
            final(self).partials@ == old(self).partials@.update(group as int, partial),
            final(self).published == old(self).published + 1,
            result == if final(self).published == final(self).partials@.len() {
                Some(
                    scan::word(
                        scan::sum(final(self).partials@, 0, final(self).partials@.len() as int),
                    ) as u32,
                )
            } else {
                None
            },
    {
        self.partials.set(group as usize, partial);
        let previous: u32 = self.published;
        self.published = previous + 1;
        let group_count: usize = self.partials.len();
        if previous as usize == group_count - 1 {
            Some(fold_partials(&self.partials))
        } else {
            None
        }
    }
}

/// The sum of every 64th count from `lane` on, up to the first `n`.
pub open spec fn strided_sum(counts: Seq<u32>, lane: int, n: int) -> int
    decreases n,
{
    if n <= 0 {
        0
    } else {
        strided_sum(counts, lane, n - 1) + (if (n - 1) % 64 == lane {
            counts[n - 1] as int
        } else {
            0
        })
    }
}

/// The sum over the first `lanes` lanes of what each has folded.
pub open spec fn lanes_sum(counts: Seq<u32>, lanes: int, n: int) -> int
    decreases lanes,
{
    if lanes <= 0 {
        0
    } else {
        lanes_sum(counts, lanes - 1, n) + strided_sum(counts, lanes - 1, n)
    }
}

/// One more count goes to one lane.
proof fn lemma_lanes_grow(counts: Seq<u32>, lanes: int, n: int)
    requires
        0 <= lanes <= 64,
        0 < n <= counts.len(),
    ensures
        lanes_sum(counts, lanes, n) == lanes_sum(counts, lanes, n - 1) + (if (n - 1) % 64 < lanes {
            counts[n - 1] as int
        } else {
            0
        }),
    decreases lanes,
{
    if lanes > 0 {
        lemma_lanes_grow(counts, lanes - 1, n);
    }
}

proof fn lemma_lanes_empty(counts: Seq<u32>, lanes: int)
    ensures
        lanes_sum(counts, lanes, 0) == 0,
    decreases lanes,
{
    if lanes > 0 {
        lemma_lanes_empty(counts, lanes - 1);
    }
}

/// The lanes together fold every count once.
proof fn lemma_lanes_cover(counts: Seq<u32>, n: int)
    requires
        0 <= n <= counts.len(),
    ensures
        lanes_sum(counts, 64, n) == scan::sum(counts, 0, n),
    decreases n,
{
    if n > 0 {
        lemma_lanes_cover(counts, n - 1);
        lemma_lanes_grow(counts, 64, n);
    } else {
        lemma_lanes_empty(counts, 64);
    }
}

/// A stride skips what other lanes fold.
proof fn lemma_strided_skip(counts: Seq<u32>, lane: int, from: int, to: int)
    requires
        0 <= lane < 64,
        0 <= from <= to <= counts.len(),
        forall|q: int| from <= q < to ==> #[trigger] (q % 64) != lane,
    ensures
        strided_sum(counts, lane, to) == strided_sum(counts, lane, from),
    decreases to - from,
{
    if from < to {
        lemma_strided_skip(counts, lane, from, to - 1);
        assert((to - 1) % 64 != lane);
    }
}

fn fold_lane(partials: &Vec<u32>, lane: usize) -> (acc: u32)
    requires
        lane < 64,
        partials@.len() <= u32::MAX,
    ensures
        acc == scan::word(strided_sum(partials@, lane as int, partials@.len() as int)),
{
    let count: usize = partials.len();
    let mut acc: u32 = 0;
    let mut i: u64 = lane as u64;
    proof {
        if lane <= count {
            lemma_strided_skip(partials@, lane as int, 0, lane as int);
        } else {
            lemma_strided_skip(partials@, lane as int, 0, count as int);
        }
    }
    while i < count as u64
        invariant
            lane < 64,
            count == partials@.len(),
            count <= u32::MAX,
            i % 64 == lane,
            i < count + 64,
            acc == scan::word(
                strided_sum(
                    partials@,
                    lane as int,
                    if i < count {
                        i as int
                    } else {
                        count as int
                    },
                ),
            ),
        decreases count + 64 - i,
    {
        let value: u32 = partials[i as usize];
        proof {
            lemma_words_of_sum(strided_sum(partials@, lane as int, i as int), value as int);
            let next = if i + 64 < count {
                i + 64
            } else {
                count as int
            };
            assert forall|q: int| i + 1 <= q < next implies #[trigger] (q % 64) != lane by {}
            lemma_strided_skip(partials@, lane as int, i + 1, next);
        }
        acc = acc.wrapping_add(value);
        i = i + 64;
    }
    acc
}

/// Folds the sums of all workgroups with the lanes of one.
fn fold_partials(partials: &Vec<u32>) -> (sum: u32)
    requires
        partials@.len() <= u32::MAX,
    ensures
        sum == scan::word(scan::sum(partials@, 0, partials@.len() as int)),
{
    let mut lanes: Vec<u32> = Vec::new();
    let mut lane: usize = 0;
    while lane < 64
        invariant
            lane <= 64,
            lanes@.len() == lane,
            partials@.len() <= u32::MAX,
            scan::word(scan::sum(lanes@, 0, lane as int)) == scan::word(
                lanes_sum(partials@, lane as int, partials@.len() as int),
            ),
        decreases 64 - lane,
    {
        let acc: u32 = fold_lane(partials, lane);
        let ghost before = lanes@;
        lanes.push(acc);
        proof {
            lemma_sum_of_prefix(before, lanes@, lane as int);
            let a = scan::sum(before, 0, lane as int);
            let b = lanes_sum(partials@, lane as int, partials@.len() as int);
            let c = strided_sum(partials@, lane as int, partials@.len() as int);
            lemma_words_of_sum(a, acc as int);
            lemma_words_of_sum(b, acc as int);
            lemma_words_of_sum(c, b);
        }
        lane = lane + 1;
    }
    proof {
        lemma_lanes_cover(partials@, partials@.len() as int);
    }
    sum_lanes(&mut lanes)
}

proof fn lemma_sum_of_prefix(a: Seq<u32>, b: Seq<u32>, n: int)
    requires
        0 <= n <= a.len(),
        n <= b.len(),
        forall|p: int| 0 <= p < n ==> a[p] == #[trigger] b[p],
    ensures
        scan::sum(a, 0, n) == scan::sum(b, 0, n),
    decreases n,
{
    if n > 0 {
        lemma_sum_of_prefix(a, b, n - 1);
    }
}

/// What a workgroup publishes: the sum of its 64 values.
pub open spec fn group_sum(values: Seq<u32>, group: int) -> u32 {
    scan::word(scan::sum(values, 64 * group, 64 * group + 64)) as u32
}

/// Sums the 64 values of a workgroup.
pub fn reduce_group(values: &Vec<u32>, group: u32) -> (sum: u32)
    requires
        64 * group + 64 <= values@.len(),
    ensures
        sum == group_sum(values@, group as int),
{
    let total: usize = values.len();
    assert(64 * group + 64 <= total);
    let first: usize = 64 * group as usize;
    let mut lanes: Vec<u32> = Vec::new();
    let mut lane: usize = 0;
    while lane < 64
        invariant
            lane <= 64,
            lanes@.len() == lane,
            first == 64 * group,
            first + 64 <= values@.len(),
            scan::sum(lanes@, 0, lane as int) == scan::sum(values@, first as int, first + lane),
        decreases 64 - lane,
    {
        let ghost before = lanes@;
        lanes.push(values[first + lane]);
        proof {
            lemma_sum_of_prefix(before, lanes@, lane as int);
        }
        lane = lane + 1;
    }
    sum_lanes(&mut lanes)
}

/// One workgroup of a reduction in a single dispatch: sums its values and
/// publishes the sum; the last one returns the sum of all.
pub fn reduce_single_dispatch(sums: &mut GroupSums, values: &Vec<u32>, group: u32) -> (result: Option<u32>)
    requires
        64 * group + 64 <= values@.len(),
        group < old(sums).partials@.len(),
        old(sums).published < old(sums).partials@.len() <= u32::MAX,
    ensures
        final(sums).partials@ == old(sums).partials@.update(
            group as int,
            group_sum(values@, group as int),
        ),
        final(sums).published == old(sums).published + 1,
        result == if final(sums).published == final(sums).partials@.len() {
            Some(
                scan::word(
                    scan::sum(final(sums).partials@, 0, final(sums).partials@.len() as int),
                ) as u32,
            )
        } else {
            None
        },
{
    let partial: u32 = reduce_group(values, group);
    sums.publish(group, partial)
}

/// The partial sums after the first `n` workgroups of an order have published.
pub open spec fn published_after(start: Seq<u32>, values: Seq<u32>, order: Seq<u32>, n: int) -> Seq<u32>
    decreases n,
{
    if n <= 0 {
        start
    } else {
        published_after(start, values, order, n - 1).update(
            order[n - 1] as int,
            group_sum(values, order[n - 1] as int),
        )
    }
}

proof fn lemma_published(start: Seq<u32>, values: Seq<u32>, order: Seq<u32>, n: int, k: int)
    requires
        0 <= k < n <= order.len(),
        forall|i: int| 0 <= i < order.len() ==> #[trigger] order[i] < start.len(),
    ensures
        published_after(start, values, order, n).len() == start.len(),
        published_after(start, values, order, n)[order[k] as int] == group_sum(
            values,
            order[k] as int,
        ),
    decreases n,
{
    lemma_published_len(start, values, order, n - 1);
    if k < n - 1 {
        lemma_published(start, values, order, n - 1, k);
    }
}

proof fn lemma_published_len(start: Seq<u32>, values: Seq<u32>, order: Seq<u32>, n: int)
    requires
        n <= order.len(),
        forall|i: int| 0 <= i < order.len() ==> #[trigger] order[i] < start.len(),
    ensures
        published_after(start, values, order, n).len() == start.len(),
    decreases n,
{
    if n > 0 {
        lemma_published_len(start, values, order, n - 1);
    }
}

proof fn lemma_groups_cover(partials: Seq<u32>, values: Seq<u32>, groups: int)
    requires
        0 <= groups <= partials.len(),
        forall|g: int| 0 <= g < groups ==> #[trigger] partials[g] == group_sum(values, g),
    ensures
        scan::word(scan::sum(partials, 0, groups)) == scan::word(
            scan::sum(values, 0, 64 * groups),
        ),
    decreases groups,
{
    if groups > 0 {
        lemma_groups_cover(partials, values, groups - 1);
        let g = groups - 1;
        let part = scan::sum(values, 64 * g, 64 * g + 64);
        assert(partials[g] == scan::word(part));
        lemma_sum_splits(values, 0, 64 * g, 64 * g + 64);
        lemma_words_of_sum(scan::sum(partials, 0, g), scan::word(part));
        lemma_words_of_sum(scan::sum(values, 0, 64 * g), scan::word(part));
        lemma_words_of_sum(part, scan::sum(values, 0, 64 * g));
    }
}

/// In whatever order the workgroups publish, the one that comes last finds the
/// sum of all values.
pub proof fn law_order_does_not_matter(start: Seq<u32>, values: Seq<u32>, order: Seq<u32>)
    requires
        order.len() == start.len(),
        forall|i: int| 0 <= i < order.len() ==> #[trigger] order[i] < start.len(),
        forall|g: u32| g < start.len() ==> order.contains(g),
        start.len() <= u32::MAX,
    ensures
        scan::word(
            scan::sum(
                published_after(start, values, order, order.len() as int),
                0,
                start.len() as int,
            ),
        ) == scan::word(scan::sum(values, 0, 64 * start.len() as int)),
{
    let n = order.len() as int;
    let partials = published_after(start, values, order, n);
    lemma_published_len(start, values, order, n);
    assert forall|g: int| 0 <= g < start.len() implies #[trigger] partials[g] == group_sum(
        values,
        g,
    ) by {
        assert(order.contains(g as u32));
        let k = choose|k: int| 0 <= k < order.len() && order[k] == g as u32;
        lemma_published(start, values, order, n, k);
    }
    lemma_groups_cover(partials, values, start.len() as int);
}

// ---------------------------------------------------------------------------
// Bounds

/// The greatest of the first `n` words.
pub open spec fn greatest(words: Seq<u32>, n: int) -> u32
    decreases n,
{
    if n <= 1 {
        words[0]
    } else {
        let rest = greatest(words, n - 1);
        if rest < words[n - 1] {
            words[n - 1]
        } else {
            rest
        }
    }
}

/// The least of the first `n` words.
pub open spec fn least(words: Seq<u32>, n: int) -> u32
    decreases n,
{
    if n <= 1 {
        words[0]
    } else {
        let rest = least(words, n - 1);
        if words[n - 1] < rest {
            words[n - 1]
        } else {
            rest
        }
    }
}

/// The bounds hold every word and are among the words.
pub proof fn law_bounds_are_tight(words: Seq<u32>, n: int)
    requires
        0 < n <= words.len(),
    ensures
        forall|p: int| 0 <= p < n ==> least(words, n) <= #[trigger] words[p] <= greatest(words, n),
        exists|p: int| 0 <= p < n && #[trigger] words[p] == greatest(words, n),
        exists|p: int| 0 <= p < n && #[trigger] words[p] == least(words, n),
    decreases n,
{
    if n > 1 {
        law_bounds_are_tight(words, n - 1);
        let high = choose|p: int| 0 <= p < n - 1 && #[trigger] words[p] == greatest(words, n - 1);
        let low = choose|p: int| 0 <= p < n - 1 && #[trigger] words[p] == least(words, n - 1);
        assert(words[high] == greatest(words, n) || words[n - 1] == greatest(words, n));
        assert(words[low] == least(words, n) || words[n - 1] == least(words, n));
    } else {
        assert(words[0] == greatest(words, n));
    }
}

proof fn lemma_fold_greatest(before: Seq<u32>, after: Seq<u32>, stride: int)
    requires
        0 < stride,
        2 * stride <= before.len(),
        after.len() == before.len(),
        forall|p: int|
            0 <= p < stride ==> #[trigger] after[p] == (if before[p] < before[p + stride] {
                before[p + stride]
            } else {
                before[p]
            }),
    ensures
        greatest(after, stride) == greatest(before, 2 * stride),
{
    law_bounds_are_tight(before, 2 * stride);
    law_bounds_are_tight(after, stride);
    let p = choose|p: int|
        0 <= p < 2 * stride && #[trigger] before[p] == greatest(before, 2 * stride);
    let q = choose|q: int| 0 <= q < stride && #[trigger] after[q] == greatest(after, stride);
    assert(before[q] <= greatest(before, 2 * stride) && before[q + stride] <= greatest(
        before,
        2 * stride,
    ));
    if p < stride {
        assert(after[p] >= before[p]);
    } else {
        assert(after[p - stride] >= before[p - stride + stride]);
    }
}

proof fn lemma_fold_least(before: Seq<u32>, after: Seq<u32>, stride: int)
    requires
        0 < stride,
        2 * stride <= before.len(),
        after.len() == before.len(),
        forall|p: int|
            0 <= p < stride ==> #[trigger] after[p] == (if before[p + stride] < before[p] {
                before[p + stride]
            } else {
                before[p]
            }),
    ensures
        least(after, stride) == least(before, 2 * stride),
{
    law_bounds_are_tight(before, 2 * stride);
    law_bounds_are_tight(after, stride);
    let p = choose|p: int| 0 <= p < 2 * stride && #[trigger] before[p] == least(before, 2 * stride);
    let q = choose|q: int| 0 <= q < stride && #[trigger] after[q] == least(after, stride);
    assert(before[q] >= least(before, 2 * stride) && before[q + stride] >= least(
        before,
        2 * stride,
    ));
    if p < stride {
        assert(after[p] <= before[p]);
    } else {
        assert(after[p - stride] <= before[p - stride + stride]);
    }
}

/// Folds the lanes of a workgroup to the greatest.
pub fn max_lanes(lanes: &mut Vec<u32>) -> (max: u32)
    requires
        old(lanes)@.len() % 2 == 0,
        is_stride(old(lanes)@.len() as int / 2),
    ensures
        max == greatest(old(lanes)@, old(lanes)@.len() as int),
{
    let ghost start = lanes@;
    let count: usize = lanes.len();
    let mut stride: usize = count / 2;
    while stride > 0
        invariant
            start.len() == count,
            lanes@.len() == count,
            2 * stride <= count,
            stride == 0 || is_stride(stride as int),
            stride > 0 ==> greatest(lanes@, 2 * stride) == greatest(start, count as int),
            stride == 0 ==> lanes@[0] == greatest(start, count as int),
            count >= 2,
        decreases stride,
    {
        let ghost before = lanes@;
        let mut lane: usize = 0;
        while lane < stride
            invariant
                lane <= stride,
                2 * stride <= count,
                lanes@.len() == count,
                before.len() == count,
                forall|p: int| lane <= p < count ==> #[trigger] lanes@[p] == before[p],
                forall|p: int|
                    0 <= p < lane ==> #[trigger] lanes@[p] == (if before[p] < before[p + stride] {
                        before[p + stride]
                    } else {
                        before[p]
                    }),
            decreases stride - lane,
        {
            let other: u32 = lanes[lane + stride];
            if lanes[lane] < other {
                lanes.set(lane, other);
            }
            lane = lane + 1;
        }
        proof {
            lemma_fold_greatest(before, lanes@, stride as int);
        }
        stride = stride / 2;
    }
    lanes[0]
}

/// Folds the lanes of a workgroup to the least.
pub fn min_lanes(lanes: &mut Vec<u32>) -> (min: u32)
    requires
        old(lanes)@.len() % 2 == 0,
        is_stride(old(lanes)@.len() as int / 2),
    ensures
        min == least(old(lanes)@, old(lanes)@.len() as int),
{
    let ghost start = lanes@;
    let count: usize = lanes.len();
    let mut stride: usize = count / 2;
    while stride > 0
        invariant
            start.len() == count,
            lanes@.len() == count,
            2 * stride <= count,
            stride == 0 || is_stride(stride as int),
            stride > 0 ==> least(lanes@, 2 * stride) == least(start, count as int),
            stride == 0 ==> lanes@[0] == least(start, count as int),
            count >= 2,
        decreases stride,
    {
        let ghost before = lanes@;
        let mut lane: usize = 0;
        while lane < stride
            invariant
                lane <= stride,
                2 * stride <= count,
                lanes@.len() == count,
                before.len() == count,
                forall|p: int| lane <= p < count ==> #[trigger] lanes@[p] == before[p],
                forall|p: int|
                    0 <= p < lane ==> #[trigger] lanes@[p] == (if before[p + stride] < before[p] {
                        before[p + stride]
                    } else {
                        before[p]
                    }),
            decreases stride - lane,
        {
            let other: u32 = lanes[lane + stride];
            if other < lanes[lane] {
                lanes.set(lane, other);
            }
            lane = lane + 1;
        }
        proof {
            lemma_fold_least(before, lanes@, stride as int);
        }
        stride = stride / 2;
    }
    lanes[0]
}

/// The depth bounds of a tile.
#[derive(Debug, Clone, Copy, PartialEq, Eq, Structural)]
pub struct TileDepthBounds {
    pub min_depth: u32,
    pub max_depth: u32,
}

/// A tile of 32 by 32 pixels.
pub const TILE_AREA: usize = 1024;

/// Where a tile lies on a screen.
#[derive(Debug, Clone, Copy, PartialEq, Eq, Structural)]
pub struct TilePlace {
    pub tile_x: u32,
    pub tile_y: u32,
    pub screen_width: u32,
    pub screen_height: u32,
}

impl TilePlace {
    /// Whether a pixel of the tile lies on the screen. Pixels are numbered row
    /// by row.
    pub open spec fn has(self, pixel: int) -> bool {
        &&& self.tile_x * 32 + pixel % 32 < self.screen_width
        &&& self.tile_y * 32 + pixel / 32 < self.screen_height
    }

    /// The depths of the tile's pixels; those beyond the screen have none.
    pub open spec fn depths(self, fetched: Seq<u32>) -> Seq<u32> {
        Seq::new(
            fetched.len(),
            |pixel: int|
                if self.has(pixel) {
                    fetched[pixel]
                } else {
                    0
                },
        )
    }

    /// Tells whether a pixel of the tile lies on the screen.
    pub fn holds(&self, pixel: u32) -> (yes: bool)
        ensures
            yes == self.has(pixel as int),
    {
        let x: u64 = self.tile_x as u64 * 32 + (pixel % 32) as u64;
        let y: u64 = self.tile_y as u64 * 32 + (pixel / 32) as u64;
        x < self.screen_width as u64 && y < self.screen_height as u64
    }
}

/// Folds the depths of a tile to their bounds. Pixels beyond the screen add a
/// depth of zero. Depths are never negative, so their bit patterns are ordered
/// as they are.
pub fn depth_reduce(place: TilePlace, fetched: &Vec<u32>) -> (bounds: TileDepthBounds)
    requires
        fetched@.len() == TILE_AREA,
        forall|i: int|
            0 <= i < fetched@.len() && place.has(i) ==> #[trigger] fetched@[i] <= 0x7f80_0000,
    ensures
        ({
            let depths = place.depths(fetched@);
            &&& bounds.min_depth == least(depths, TILE_AREA as int)
            &&& bounds.max_depth == greatest(depths, TILE_AREA as int)
            &&& forall|i: int|
                0 <= i < depths.len() ==> float_bits::at_most(bounds.min_depth, #[trigger] depths[i])
                    && float_bits::at_most(depths[i], bounds.max_depth)
        }),
{
    let ghost depths = place.depths(fetched@);
    let mut low: Vec<u32> = Vec::new();
    let mut i: usize = 0;
    while i < TILE_AREA
        invariant
            i <= TILE_AREA,
            fetched@.len() == TILE_AREA,
            depths == place.depths(fetched@),
            low@ == depths.take(i as int),
        decreases TILE_AREA - i,
    {
        if place.holds(i as u32) {
            low.push(fetched[i]);
        } else {
            low.push(0);
        }
        assert(depths.take(i + 1) =~= depths.take(i as int).push(depths[i as int]));
        i = i + 1;
    }
    assert(depths.take(TILE_AREA as int) =~= depths);
    let mut high = copied(&low);
    proof {
        assert forall|i: int| 0 <= i < depths.len() implies #[trigger] depths[i] <= 0x7f80_0000 by {
            if place.has(i) {
                assert(fetched@[i] <= 0x7f80_0000);
            }
        }
        law_bounds_are_tight(depths, TILE_AREA as int);
    }
    TileDepthBounds { min_depth: min_lanes(&mut low), max_depth: max_lanes(&mut high) }
}

fn copied(words: &Vec<u32>) -> (copy: Vec<u32>)
    ensures
        copy@ == words@,
{
    let mut copy: Vec<u32> = Vec::new();
    let count: usize = words.len();
    let mut i: usize = 0;
    while i < count
        invariant
            i <= count,
            count == words@.len(),
            copy@ == words@.take(i as int),
        decreases count - i,
    {
        copy.push(words[i]);
        proof {
            assert(words@.take(i + 1) =~= words@.take(i as int).push(words@[i as int]));
        }
        i = i + 1;
    }
    assert(words@.take(count as int) =~= words@);
    copy
}

/// The depth that a pixel adds to the far bound, as a bit pattern: nothing
/// where no surface was drawn or the distance is not finite, and never less
/// than zero.
pub fn far_bits(inside: bool, depth: u32, view_z: u32) -> (bits: u32)
    ensures
        bits == if inside && float_bits::less(0, depth) && float_bits::magnitude(view_z)
            < 0x7f80_0000 && view_z < 0x8000_0000 {
            view_z
        } else {
            0
        },
{
    if inside && float_bits::is_less(0, depth) && float_bits::is_finite(view_z) && view_z
        < 0x8000_0000 {
        view_z
    } else {
        0
    }
}

/// Raises the far bound to the greatest distance of a tile.
pub fn fog_depth_max(far: u32, lanes: &mut Vec<u32>) -> (raised: u32)
    requires
        old(lanes)@.len() == TILE_AREA,
    ensures
        raised == if far < greatest(old(lanes)@, TILE_AREA as int) {
            greatest(old(lanes)@, TILE_AREA as int)
        } else {
            far
        },
{
    let max: u32 = max_lanes(lanes);
    if max != 0 && far < max {
        max
    } else {
        far
    }
}

} // verus!
