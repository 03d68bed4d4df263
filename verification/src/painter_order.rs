//! Painter's order: which UI primitive is drawn over which.
//!
//! A primitive's depth is the single-precision sum of its node's stack index
//! and its layer's offset. Both roundings are carried out here on integers, in
//! units of 2^-30, so that depths compare exactly as the sums do.

use vstd::arithmetic::power2::*;
use vstd::prelude::*;

use crate::stack_z_offsets;

verus! {

/// What a primitive paints on its node, from back to front.
#[derive(Debug, Clone, Copy, PartialEq, Eq, Structural)]
pub enum PaintLayer {
    BoxShadow,
    Background,
    Border,
    Gradient,
    BorderGradient,
    Image,
    Material,
    TextSelection,
    Text,
    TextStrikethrough,
    TextCursor,
}

impl PaintLayer {
    /// The layer's depth offset in units of 2^-30.
    pub open spec fn offset(self) -> i64 {
        match self {
            PaintLayer::BoxShadow => stack_z_offsets::BOX_SHADOW,
            PaintLayer::Background => stack_z_offsets::BACKGROUND,
            PaintLayer::Border => stack_z_offsets::BORDER,
            PaintLayer::Gradient => stack_z_offsets::GRADIENT,
            PaintLayer::BorderGradient => stack_z_offsets::BORDER_GRADIENT,
            PaintLayer::Image => stack_z_offsets::IMAGE,
            PaintLayer::Material => stack_z_offsets::MATERIAL,
            PaintLayer::TextSelection => stack_z_offsets::TEXT_SELECTION,
            PaintLayer::Text => stack_z_offsets::TEXT,
            PaintLayer::TextStrikethrough => stack_z_offsets::TEXT_STRIKETHROUGH,
            PaintLayer::TextCursor => stack_z_offsets::TEXT_CURSOR,
        }
    }

    /// The layer's depth offset in units of 2^-30.
    pub fn z_offset(self) -> (offset: i64)
        ensures
            offset == self.offset(),
    {
        match self {
            PaintLayer::BoxShadow => stack_z_offsets::BOX_SHADOW,
            PaintLayer::Background => stack_z_offsets::BACKGROUND,
            PaintLayer::Border => stack_z_offsets::BORDER,
            PaintLayer::Gradient => stack_z_offsets::GRADIENT,
            PaintLayer::BorderGradient => stack_z_offsets::BORDER_GRADIENT,
            PaintLayer::Image => stack_z_offsets::IMAGE,
            PaintLayer::Material => stack_z_offsets::MATERIAL,
            PaintLayer::TextSelection => stack_z_offsets::TEXT_SELECTION,
            PaintLayer::Text => stack_z_offsets::TEXT,
            PaintLayer::TextStrikethrough => stack_z_offsets::TEXT_STRIKETHROUGH,
            PaintLayer::TextCursor => stack_z_offsets::TEXT_CURSOR,
        }
    }
}

/// Spacing of the values with a 24-bit significand around `v`.
pub open spec fn spacing(v: nat) -> nat
    decreases v,
{
    if v < 0x100_0000 {
        1
    } else {
        2 * spacing(v / 2)
    }
}

/// The value with a 24-bit significand nearest to `v`; of two equally near, the even one.
pub open spec fn round_magnitude(v: nat) -> nat {
    let s = spacing(v);
    let q = v / s;
    let r = v % s;
    if 2 * r < s || (2 * r == s && q % 2 == 0) {
        q * s
    } else {
        (q + 1) * s
    }
}

/// Rounding to a 24-bit significand, symmetric about zero.
pub open spec fn round_single(v: int) -> int {
    if v < 0 {
        -round_magnitude((-v) as nat)
    } else {
        round_magnitude(v as nat) as int
    }
}

/// Depth of a layer of the node at `stack_index`, in units of 2^-30.
pub open spec fn depth(stack_index: u32, layer: PaintLayer) -> int {
    round_single(round_single(stack_index * 0x4000_0000) + layer.offset())
}

proof fn lemma_spacing(v: nat)
    ensures
        1 <= spacing(v),
        spacing(v) == 1 || 0x80_0000 * spacing(v) <= v,
    decreases v,
{
    if v >= 0x100_0000 {
        lemma_spacing(v / 2);
    }
}

proof fn lemma_spacing_below(v: nat, k: nat)
    requires
        v < 0x100_0000 * pow2(k),
    ensures
        spacing(v) <= pow2(k),
    decreases k,
{
    lemma_pow2_pos(k);
    if k > 0 && v >= 0x100_0000 {
        lemma_pow2_unfold(k);
        lemma_spacing_below(v / 2, (k - 1) as nat);
    }
    if k == 0 {
        lemma2_to64();
    }
}

/// Rounding moves a value by at most half the spacing.
proof fn lemma_round_error(v: nat)
    ensures
        2 * (round_magnitude(v) - v) <= spacing(v),
        2 * (v - round_magnitude(v)) <= spacing(v),
{
    lemma_spacing(v);
    let s = spacing(v);
    vstd::arithmetic::div_mod::lemma_fundamental_div_mod(v as int, s as int);
    assert((v as int / s as int + 1) * s == (v as int / s as int) * s + s) by (nonlinear_arith);
    assert((v as int / s as int) * s == s * (v as int / s as int)) by (nonlinear_arith);
}

/// Rounds to a 24-bit significand.
pub fn round_to_significand(v: u64) -> (rounded: u64)
    requires
        v <= 0x7fff_ffff_ffff_ffff,
    ensures
        rounded == round_magnitude(v as nat),
        rounded <= 2 * v,
{
    let mut s: u64 = 1;
    let mut t: u64 = v;
    assert(1 * spacing(v as nat) == spacing(v as nat));
    while t >= 0x100_0000
        invariant
            spacing(v as nat) == s * spacing(t as nat),
            s * t <= v,
            1 <= s,
            t <= v <= 0x7fff_ffff_ffff_ffff,
        decreases t,
    {
        proof {
            let half: int = t as int / 2;
            assert(s * (2 * spacing(half as nat)) == (2 * s) * spacing(half as nat))
                by (nonlinear_arith);
            assert((2 * s) * half <= s * t) by (nonlinear_arith)
                requires
                    2 * half <= t,
                    1 <= s,
            ;
            assert(2 * s <= (2 * s) * half) by (nonlinear_arith)
                requires
                    1 <= half,
                    1 <= s,
            ;
        }
        s = 2 * s;
        t = t / 2;
    }
    assert(s * 1 == s);
    assert(s == spacing(v as nat));
    proof {
        lemma_round_error(v as nat);
        lemma_spacing(v as nat);
        vstd::arithmetic::div_mod::lemma_fundamental_div_mod(v as int, s as int);
        assert((v as int / s as int + 1) * s == (v as int / s as int) * s + s)
            by (nonlinear_arith);
        assert((v as int / s as int) * s == s * (v as int / s as int)) by (nonlinear_arith);
    }
    let q: u64 = v / s;
    let r: u64 = v % s;
    assert(r < s) by {
        vstd::arithmetic::div_mod::lemma_mod_bound(v as int, s as int);
    }
    if r < s - r || (r == s - r && q % 2 == 0) {
        q * s
    } else {
        assert(v > 0);
        (q + 1) * s
    }
}

/// Depth of a layer of the node at `stack_index`, in units of 2^-30.
pub fn z_order(stack_index: u32, layer: PaintLayer) -> (z: i64)
    ensures
        z == depth(stack_index, layer),
{
    let base: u64 = round_to_significand(stack_index as u64 * 0x4000_0000);
    proof {
        lemma_spacing((stack_index * 0x4000_0000) as nat);
        lemma_round_error((stack_index * 0x4000_0000) as nat);
    }
    let sum: i64 = base as i64 + layer.z_offset();
    if sum < 0 {
        -(round_to_significand((-sum) as u64) as i64)
    } else {
        let rounded: u64 = round_to_significand(sum as u64);
        proof {
            lemma_spacing(sum as nat);
            lemma_round_error(sum as nat);
        }
        rounded as i64
    }
}

/// As long as stack indices stay below 131072, a higher stack index is drawn
/// over a lower one whatever their layers, and within one node the layers are
/// drawn in the order of their offsets.
pub proof fn law_depth_is_lexicographic(a: u32, la: PaintLayer, b: u32, lb: PaintLayer)
    requires
        a < 131072,
        b < 131072,
    ensures
        depth(a, la) < depth(b, lb) <==> a < b || (a == b && la.offset() < lb.offset()),
        depth(a, la) == depth(b, lb) <==> a == b && la == lb,
{
    lemma_depth_of_layer(a, la);
    lemma_depth_of_layer(b, lb);
}

/// A layer's offset in 128ths, to the nearest.
spec fn offset_in_128ths(layer: PaintLayer) -> int {
    match layer {
        PaintLayer::BoxShadow => -13,
        PaintLayer::Background => 0,
        PaintLayer::Border => 1,
        PaintLayer::Gradient => 3,
        PaintLayer::BorderGradient => 4,
        PaintLayer::Image => 5,
        PaintLayer::Material => 6,
        PaintLayer::TextSelection => 7,
        PaintLayer::Text => 8,
        PaintLayer::TextStrikethrough => 9,
        PaintLayer::TextCursor => 10,
    }
}

/// Whether a depth lies where values are a 128th apart; below, they lie closer.
spec fn is_high(a: u32, layer: PaintLayer) -> bool {
    a > 65536 || (a == 65536 && layer != PaintLayer::BoxShadow)
}

proof fn lemma_depth_of_layer(a: u32, layer: PaintLayer)
    requires
        a < 131072,
    ensures
        is_high(a, layer) ==> depth(a, layer) == a * 0x4000_0000 + 0x80_0000 * offset_in_128ths(
            layer,
        ),
        !is_high(a, layer) ==> -0x20_0000 <= depth(a, layer) - (a * 0x4000_0000 + layer.offset())
            <= 0x20_0000,
{
    lemma2_to64();
    lemma_short_numbers_are_kept(a as nat, 30);
    let sum: int = a * 0x4000_0000 + layer.offset();
    if sum < 0 {
        lemma_round_error((-sum) as nat);
        lemma_spacing_below((-sum) as nat, 22);
    } else if is_high(a, layer) {
        lemma_spacing_below(sum as nat, 23);
        lemma_spacing_above(sum as nat, 23);
    } else {
        lemma_round_error(sum as nat);
        lemma_spacing_below(sum as nat, 22);
    }
}

proof fn lemma_spacing_above(v: nat, k: nat)
    requires
        0x80_0000 * pow2(k) <= v,
    ensures
        spacing(v) >= pow2(k),
    decreases k,
{
    lemma2_to64();
    lemma_spacing(v);
    if k > 0 {
        lemma_pow2_unfold(k);
        lemma_pow2_pos((k - 1) as nat);
        lemma_spacing_above(v / 2, (k - 1) as nat);
    }
}

/// The spacing around a short number times a power of two is no more than that power.
proof fn lemma_spacing_of_short(m: nat, k: nat) -> (j: nat)
    requires
        m < 0x100_0000,
    ensures
        j <= k,
        spacing(m * pow2(k)) == pow2(j),
    decreases k,
{
    lemma2_to64();
    if m * pow2(k) < 0x100_0000 {
        0
    } else {
        assert(m * 1 == m);
        lemma_pow2_unfold(k);
        let half = pow2((k - 1) as nat);
        assert(m * (2 * half) == 2 * (m * half)) by (nonlinear_arith);
        let j = lemma_spacing_of_short(m, (k - 1) as nat);
        lemma_pow2_unfold(j + 1);
        j + 1
    }
}

/// Rounding leaves a number alone that is short but for a power of two.
proof fn lemma_short_numbers_are_kept(m: nat, k: nat)
    requires
        m < 0x100_0000,
    ensures
        round_magnitude(m * pow2(k)) == m * pow2(k),
{
    let j = lemma_spacing_of_short(m, k);
    let s = pow2(j);
    lemma_pow2_pos(j);
    lemma_pow2_adds((k - j) as nat, j);
    let q = m * pow2((k - j) as nat);
    assert(m * (pow2((k - j) as nat) * s) == q * s) by (nonlinear_arith)
        requires
            q == m * pow2((k - j) as nat),
    ;
    vstd::arithmetic::div_mod::lemma_fundamental_div_mod_converse(
        (m * pow2(k)) as int,
        s as int,
        q as int,
        0,
    );
}

// ---------------------------------------------------------------------------
// Stable sorting

/// Whether item `i` is painted before item `j`: it lies deeper, or equally deep and comes first.
pub open spec fn painted_before(keys: Seq<i64>, i: int, j: int) -> bool {
    keys[i] < keys[j] || (keys[i] == keys[j] && i < j)
}

/// Whether `order` lists the indices `lo..hi`, each once, in painter's order.
pub open spec fn is_painter_order(keys: Seq<i64>, lo: int, hi: int, order: Seq<usize>) -> bool {
    &&& order.len() == hi - lo
    &&& forall|i: int| 0 <= i < order.len() ==> lo <= #[trigger] order[i] < hi
    &&& forall|i: int, j: int|
        0 <= i < j < order.len() ==> painted_before(
            keys,
            #[trigger] order[i] as int,
            #[trigger] order[j] as int,
        )
    &&& forall|k: usize| lo <= k < hi ==> #[trigger] order.contains(k)
}

/// A painter's order lists each index once, so it lists no more than there are
/// indices.
pub(crate) proof fn lemma_order_is_short(keys: Seq<i64>, lo: int, hi: int, order: Seq<usize>)
    requires
        is_painter_order(keys, lo, hi, order),
    ensures
        order.len() <= usize::MAX + 1,
{
    let indices = order.map_values(|k: usize| k as int);
    assert forall|i: int, j: int|
        0 <= i < indices.len() && 0 <= j < indices.len() && i != j implies indices[i]
        != indices[j] by {
        if i < j {
            assert(painted_before(keys, order[i] as int, order[j] as int));
        } else {
            assert(painted_before(keys, order[j] as int, order[i] as int));
        }
    }
    assert(indices.no_duplicates());
    let all = vstd::set_lib::set_int_range(0, usize::MAX + 1);
    vstd::set_lib::lemma_int_range(0, usize::MAX + 1);
    indices.unique_seq_to_set();
    assert(indices.to_set().subset_of(all));
    vstd::set_lib::lemma_len_subset(indices.to_set(), all);
}

/// Merges two painter's orders of adjacent index ranges.
fn merge(keys: &Vec<i64>, a: &Vec<usize>, b: &Vec<usize>, Ghost(lo): Ghost<int>, Ghost(mid): Ghost<int>, Ghost(hi): Ghost<int>) -> (order: Vec<usize>)
    requires
        0 <= lo <= mid <= hi <= keys@.len(),
        is_painter_order(keys@, lo, mid, a@),
        is_painter_order(keys@, mid, hi, b@),
    ensures
        is_painter_order(keys@, lo, hi, order@),
{
    let mut out: Vec<usize> = Vec::new();
    let mut i: usize = 0;
    let mut j: usize = 0;
    while i < a.len() || j < b.len()
        invariant
            0 <= lo <= mid <= hi <= keys@.len(),
            is_painter_order(keys@, lo, mid, a@),
            is_painter_order(keys@, mid, hi, b@),
            i <= a@.len(),
            j <= b@.len(),
            out@.len() == i + j,
            forall|x: int| 0 <= x < out@.len() ==> lo <= #[trigger] out@[x] < hi,
            forall|x: int, y: int|
                0 <= x < y < out@.len() ==> painted_before(
                    keys@,
                    #[trigger] out@[x] as int,
                    #[trigger] out@[y] as int,
                ),
            forall|x: int, y: int|
                0 <= x < out@.len() && i <= y < a@.len() ==> painted_before(
                    keys@,
                    #[trigger] out@[x] as int,
                    #[trigger] a@[y] as int,
                ),
            forall|x: int, y: int|
                0 <= x < out@.len() && j <= y < b@.len() ==> painted_before(
                    keys@,
                    #[trigger] out@[x] as int,
                    #[trigger] b@[y] as int,
                ),
            forall|x: int| 0 <= x < i ==> out@.contains(#[trigger] a@[x]),
            forall|x: int| 0 <= x < j ==> out@.contains(#[trigger] b@[x]),
        decreases a@.len() - i + b@.len() - j,
    {
        let ghost before = out@;
        let take_a: bool = j >= b.len() || (i < a.len() && keys[a[i]] <= keys[b[j]]);
        if take_a {
            out.push(a[i]);
            i = i + 1;
        } else {
            out.push(b[j]);
            j = j + 1;
        }
        proof {
            let last = out@.last();
            assert(out@[out@.len() - 1] == last);
            assert forall|k: usize| before.contains(k) implies out@.contains(k) by {
                let x = choose|x: int| 0 <= x < before.len() && before[x] == k;
                assert(out@[x] == k);
            }
        }
    }
    proof {
        assert forall|k: usize| lo <= k < hi implies #[trigger] out@.contains(k) by {
            if k < mid {
                assert(a@.contains(k));
                let x = choose|x: int| 0 <= x < a@.len() && a@[x] == k;
                assert(out@.contains(a@[x]));
            } else {
                assert(b@.contains(k));
                let x = choose|x: int| 0 <= x < b@.len() && b@[x] == k;
                assert(out@.contains(b@[x]));
            }
        }
    }
    out
}

fn sort_range(keys: &Vec<i64>, lo: usize, hi: usize) -> (order: Vec<usize>)
    requires
        lo <= hi <= keys@.len(),
    ensures
        is_painter_order(keys@, lo as int, hi as int, order@),
    decreases hi - lo,
{
    let mut order: Vec<usize> = Vec::new();
    if lo == hi {
        return order;
    }
    if hi - lo == 1 {
        order.push(lo);
        assert(order@[0] == lo);
        return order;
    }
    let mid: usize = lo + (hi - lo) / 2;
    let a: Vec<usize> = sort_range(keys, lo, mid);
    let b: Vec<usize> = sort_range(keys, mid, hi);
    merge(keys, &a, &b, Ghost(lo as int), Ghost(mid as int), Ghost(hi as int))
}

/// Sorts items by depth, keeping the order of items that are equally deep.
///
/// The result lists every item's index once.
pub fn painter_order(keys: &Vec<i64>) -> (order: Vec<usize>)
    ensures
        is_painter_order(keys@, 0, keys@.len() as int, order@),
{
    sort_range(keys, 0, keys.len())
}

/// There is only one painter's order of the same items.
pub proof fn law_painter_order_is_unique(keys: Seq<i64>, lo: int, hi: int, a: Seq<usize>, b: Seq<usize>)
    requires
        0 <= lo <= hi <= usize::MAX,
        is_painter_order(keys, lo, hi, a),
        is_painter_order(keys, lo, hi, b),
    ensures
        a == b,
{
    assert forall|i: int| 0 <= i < a.len() implies a[i] == b[i] by {
        lemma_same_prefix(keys, lo, hi, a, b, i);
    }
    assert(a =~= b);
}

proof fn lemma_same_prefix(keys: Seq<i64>, lo: int, hi: int, a: Seq<usize>, b: Seq<usize>, n: int)
    requires
        0 <= lo <= hi <= usize::MAX,
        is_painter_order(keys, lo, hi, a),
        is_painter_order(keys, lo, hi, b),
        0 <= n < a.len(),
    ensures
        forall|i: int| 0 <= i <= n ==> a[i] == b[i],
    decreases n,
{
    if n > 0 {
        lemma_same_prefix(keys, lo, hi, a, b, n - 1);
    }
    // The item at `n` stands somewhere in the other list, and not among its first `n`.
    assert(b.contains(a[n]));
    assert(a.contains(b[n]));
    let x = choose|x: int| 0 <= x < b.len() && b[x] == a[n];
    let y = choose|y: int| 0 <= y < a.len() && a[y] == b[n];
    if x < n {
        assert(a[x] == b[x]);
        assert(painted_before(keys, a[x] as int, a[n] as int));
    }
    if y < n {
        assert(a[y] == b[y]);
        assert(painted_before(keys, b[y] as int, b[n] as int));
    }
    if x > n && y > n {
        assert(painted_before(keys, b[n] as int, b[x] as int));
        assert(painted_before(keys, a[n] as int, a[y] as int));
    }
}

} // verus!
