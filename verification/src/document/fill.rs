//! Four-neighbour flood fill over a layer.

use vstd::prelude::*;

use crate::graphics::color::Color;
use crate::graphics::framebuffer::pixel_index;

use super::pixels::PixelBuffer;

verus! {

/// Pixels `i` and `j` of a row-major buffer `width` pixels wide holding
/// `count` pixels share an edge.
pub open spec fn adjacent(width: int, count: int, i: int, j: int) -> bool {
    &&& 0 <= i < count
    &&& 0 <= j < count
    &&& {
        ||| (j == i - 1 && i % width > 0)
        ||| (j == i + 1 && i % width + 1 < width)
        ||| j == i - width
        ||| j == i + width
    }
}

/// `path` walks from pixel to adjacent pixel through pixels whose value is
/// `value`.
pub open spec fn is_region_path(pixels: Seq<u32>, width: int, value: u32, path: Seq<int>) -> bool {
    &&& path.len() > 0
    &&& forall|k: int| 0 <= k < path.len() ==> 0 <= #[trigger] path[k] < pixels.len() && pixels[path[k]] == value
    &&& forall|k: int| 0 <= k < path.len() - 1 ==> adjacent(width, pixels.len() as int, #[trigger] path[k], path[k + 1])
}

/// `target` belongs to the region of pixels equal to `value` that contains
/// `start`, connected through shared edges.
pub open spec fn in_region(pixels: Seq<u32>, width: int, value: u32, start: int, target: int) -> bool {
    exists|path: Seq<int>|
        is_region_path(pixels, width, value, path) && path[0] == start && #[trigger] path[path.len() - 1] == target
}

/// What `flood_fill` leaves in a buffer: the region of the start pixel takes
/// `replacement`; every other pixel keeps its value.
pub open spec fn flood_result(pixels: Seq<u32>, width: u32, height: u32, x: int, y: int, replacement: u32) -> Seq<u32> {
    if !(0 <= x < width && 0 <= y < height) || pixels[pixel_index(width, x, y)] == replacement {
        pixels
    } else {
        let start = pixel_index(width, x, y);
        let source = pixels[start];
        Seq::new(
            pixels.len(),
            |i: int|
                if in_region(pixels, width as int, source, start, i) {
                    replacement
                } else {
                    pixels[i]
                },
        )
    }
}

/// Number of entries of `values` equal to `value`.
pub open spec fn count_value(values: Seq<u32>, value: u32) -> nat
    decreases values.len(),
{
    if values.len() == 0 {
        0
    } else {
        count_value(values.drop_last(), value) + if values.last() == value {
            1nat
        } else {
            0nat
        }
    }
}

proof fn lemma_count_update(values: Seq<u32>, i: int, replacement: u32, value: u32)
    requires
        0 <= i < values.len(),
        values[i] == value,
        replacement != value,
    ensures
        count_value(values.update(i, replacement), value) + 1 == count_value(values, value),
    decreases values.len(),
{
    if i == values.len() - 1 {
        assert(values.update(i, replacement).drop_last() =~= values.drop_last());
    } else {
        lemma_count_update(values.drop_last(), i, replacement, value);
        assert(values.update(i, replacement).drop_last() =~= values.drop_last().update(i, replacement));
    }
}

/// The state that the fill keeps while it runs: pixels are either untouched
/// or region pixels that already carry the replacement.
spec fn fill_invariant(
    original: Seq<u32>,
    current: Seq<u32>,
    pending: Seq<usize>,
    width: int,
    start: int,
    source: u32,
    replacement: u32,
) -> bool {
    &&& current.len() == original.len()
    &&& 0 <= start < original.len()
    &&& original[start] == source
    &&& current[start] == replacement
    &&& forall|i: int|
        0 <= i < current.len() ==> #[trigger] current[i] == original[i] || (original[i] == source
            && current[i] == replacement && in_region(original, width, source, start, i))
    &&& forall|k: int|
        0 <= k < pending.len() ==> 0 <= #[trigger] pending[k] < current.len() && current[pending[k] as int]
            == replacement && original[pending[k] as int] == source
    &&& forall|i: int, j: int|
        #![trigger current[i], current[j]]
        0 <= i < current.len() && current[i] == replacement && original[i] == source && !pending.contains(
            i as usize,
        ) && adjacent(width, current.len() as int, i, j) && original[j] == source ==> current[j]
            == replacement
}

proof fn lemma_extend_region(original: Seq<u32>, width: int, source: u32, start: int, from: int, to: int)
    requires
        in_region(original, width, source, start, from),
        adjacent(width, original.len() as int, from, to),
        original[to] == source,
    ensures
        in_region(original, width, source, start, to),
{
    let path = choose|path: Seq<int>|
        is_region_path(original, width, source, path) && path[0] == start && #[trigger] path[path.len() - 1] == from;
    let longer = path.push(to);
    assert(longer[longer.len() - 1] == to);
    assert(forall|k: int| 0 <= k < longer.len() - 1 ==> adjacent(width, original.len() as int, #[trigger] longer[k], longer[k + 1])) by {
        assert forall|k: int| 0 <= k < longer.len() - 1 implies adjacent(width, original.len() as int, #[trigger] longer[k], longer[k + 1]) by {
            if k < path.len() - 1 {
                assert(longer[k] == path[k] && longer[k + 1] == path[k + 1]);
            } else {
                assert(longer[k] == from);
            }
        }
    }
    assert(is_region_path(original, width, source, longer));
}

/// Every pixel of a region path out of a closed set of filled pixels is
/// filled too.
proof fn lemma_closed_region_filled(
    original: Seq<u32>,
    current: Seq<u32>,
    width: int,
    source: u32,
    replacement: u32,
    path: Seq<int>,
    n: int,
)
    requires
        current.len() == original.len(),
        is_region_path(original, width, source, path),
        current[path[0]] == replacement,
        0 <= n < path.len(),
        forall|i: int, j: int|
            #![trigger current[i], current[j]]
            0 <= i < current.len() && current[i] == replacement && original[i] == source && adjacent(
                width,
                current.len() as int,
                i,
                j,
            ) && original[j] == source ==> current[j] == replacement,
    ensures
        current[path[n]] == replacement,
    decreases n,
{
    if n > 0 {
        lemma_closed_region_filled(original, current, width, source, replacement, path, n - 1);
        assert(adjacent(width, original.len() as int, path[n - 1], path[n]));
        assert(original[path[n - 1]] == source);
        assert(original[path[n]] == source);
        assert(current[path[n - 1]] == replacement && current[path[n]] == current[path[n]]);
    }
}

proof fn lemma_next_in_range(i: int, width: int, height: int)
    requires
        0 <= i < width * height,
        width > 0,
        i % width + 1 < width,
    ensures
        i + 1 < width * height,
{
    vstd::arithmetic::div_mod::lemma_fundamental_div_mod(i, width);
    assert(i / width < height) by {
        vstd::arithmetic::div_mod::lemma_div_is_ordered(i, width * height - 1, width);
        vstd::arithmetic::div_mod::lemma_div_multiples_vanish_fancy(height - 1, width - 1, width);
        assert((width * height - 1) / width == height - 1) by {
            assert(width * (height - 1) + (width - 1) == width * height - 1) by (nonlinear_arith);
            vstd::arithmetic::div_mod::lemma_fundamental_div_mod_converse(width * height - 1, width, height - 1, width - 1);
        }
    }
    assert(width * (i / width) + width <= width * height) by (nonlinear_arith)
        requires i / width < height, width > 0;
}

/// What holds within one round of the fill, between the pixels at its start
/// (`before`) and the current ones.
spec fn round_state(
    original: Seq<u32>,
    before: Seq<u32>,
    popped: Seq<usize>,
    current: Seq<u32>,
    pending: Seq<usize>,
    width: int,
    start: int,
    source: u32,
    replacement: u32,
) -> bool {
    &&& current.len() == before.len()
    &&& current.len() == original.len()
    &&& pending.len() >= popped.len()
    &&& pending.subrange(0, popped.len() as int) == popped
    &&& forall|i: int|
        0 <= i < current.len() ==> #[trigger] current[i] == before[i] || (before[i] == source
            && current[i] == replacement && pending.contains(i as usize))
    &&& forall|k: int|
        0 <= k < pending.len() ==> 0 <= #[trigger] pending[k] < current.len() && current[pending[k] as int]
            == replacement && original[pending[k] as int] == source
    &&& forall|i: int|
        0 <= i < current.len() ==> #[trigger] current[i] == original[i] || (original[i] == source
            && current[i] == replacement && in_region(original, width, source, start, i))
}

impl PixelBuffer {
    /// Replaces the four-connected region of pixels equal to the one at
    /// `(x, y)` with `color`. Outside the buffer, or when that pixel already
    /// holds `color`, nothing changes.
    pub fn flood_fill(&mut self, x: u32, y: u32, color: Color)
        requires
            old(self).wf(),
        ensures
            final(self).width == old(self).width,
            final(self).height == old(self).height,
            final(self).pixels@.len() == old(self).pixels@.len(),
            final(self).pixels@ == flood_result(
                old(self).pixels@,
                old(self).width,
                old(self).height,
                x as int,
                y as int,
                color.0,
            ),
    {
        let replacement = color.as_u32();
        if x >= self.width || y >= self.height {
            return;
        }
        let start = self.index(x, y);
        let source = self.pixels[start];
        if source == replacement {
            return;
        }
        let ghost original = self.pixels@;
        let width = self.width as usize;
        let count = self.pixels.len();
        self.pixels.set(start, replacement);
        let mut pending: Vec<usize> = Vec::new();
        pending.push(start);
        proof {
            let path = seq![start as int];
            assert(is_region_path(original, width as int, source, path));
            assert(path[path.len() - 1] == start as int);
            assert(in_region(original, width as int, source, start as int, start as int));
            assert(pending@[0] == start);
        }
        while pending.len() > 0
            invariant
                self.wf(),
                self.width as int == width as int,
                self.height == old(self).height,
                width > 0,
                count == self.pixels@.len(),
                count == width * self.height,
                original == old(self).pixels@,
                source != replacement,
                fill_invariant(original, self.pixels@, pending@, width as int, start as int, source, replacement),
            decreases count_value(self.pixels@, source) * 5 + pending@.len(),
        {
            let ghost before = self.pixels@;
            let ghost queued = pending@;
            let index = pending.pop().unwrap();
            let ghost popped = pending@;
            proof {
                assert(queued == popped.push(index));
                assert(pending@.subrange(0, popped.len() as int) == popped);
                assert(before[index as int] == replacement && original[index as int] == source);
                assert(in_region(original, width as int, source, start as int, index as int));
            }
            let pixel_x = index % width;
            proof {
                vstd::arithmetic::div_mod::lemma_mod_bound(index as int, width as int);
            }
            if pixel_x > 0 {
                proof {
                    if index == 0 {
                        assert(0usize % width == 0);
                    }
                }
                self.visit(&mut pending, index - 1, source, replacement, Ghost(original), Ghost(before), Ghost(popped), Ghost(start as int), Ghost(index as int));
            }
            if pixel_x + 1 < width {
                proof {
                    lemma_next_in_range(index as int, width as int, self.height as int);
                }
                self.visit(&mut pending, index + 1, source, replacement, Ghost(original), Ghost(before), Ghost(popped), Ghost(start as int), Ghost(index as int));
            }
            if index >= width {
                self.visit(&mut pending, index - width, source, replacement, Ghost(original), Ghost(before), Ghost(popped), Ghost(start as int), Ghost(index as int));
            }
            if (index as u64) + (width as u64) < count as u64 {
                self.visit(&mut pending, index + width, source, replacement, Ghost(original), Ghost(before), Ghost(popped), Ghost(start as int), Ghost(index as int));
            }
            proof {
                let current = self.pixels@;
                assert forall|j: int| adjacent(width as int, count as int, index as int, j) && original[j] == source
                    implies current[j] == replacement by {
                    assert(current[j] != source);
                }
                assert forall|i: int, j: int|
                    #![trigger current[i], current[j]]
                    0 <= i < current.len() && current[i] == replacement && original[i] == source
                        && !pending@.contains(i as usize) && adjacent(width as int, current.len() as int, i, j)
                        && original[j] == source implies current[j] == replacement by {
                    if i != index as int {
                        assert(!popped.contains(i as usize)) by {
                            if popped.contains(i as usize) {
                                let k = choose|k: int| 0 <= k < popped.len() && popped[k] == i as usize;
                                assert(pending@.subrange(0, popped.len() as int)[k] == pending@[k]);
                            }
                        }
                        assert(!queued.contains(i as usize)) by {
                            if queued.contains(i as usize) {
                                let k = choose|k: int| 0 <= k < queued.len() && queued[k] == i as usize;
                                if k < popped.len() {
                                    assert(popped[k] == i as usize);
                                }
                            }
                        }
                        assert(before[i] == replacement);
                        assert(before[j] == replacement);
                    }
                }
            }
        }
        proof {
            let current = self.pixels@;
            assert forall|i: int| 0 <= i < current.len() implies #[trigger] current[i] == (if in_region(
                original,
                width as int,
                source,
                start as int,
                i,
            ) {
                replacement
            } else {
                original[i]
            }) by {
                if in_region(original, width as int, source, start as int, i) {
                    let path = choose|path: Seq<int>|
                        is_region_path(original, width as int, source, path) && path[0] == start as int
                            && #[trigger] path[path.len() - 1] == i;
                    lemma_closed_region_filled(original, current, width as int, source, replacement, path, path.len() - 1);
                }
            }
            assert(current =~= flood_result(original, old(self).width, old(self).height, x as int, y as int, replacement));
        }
    }

    /// Fills `neighbor` and queues it when it still holds `source`.
    fn visit(
        &mut self,
        pending: &mut Vec<usize>,
        neighbor: usize,
        source: u32,
        replacement: u32,
        Ghost(original): Ghost<Seq<u32>>,
        Ghost(before): Ghost<Seq<u32>>,
        Ghost(popped): Ghost<Seq<usize>>,
        Ghost(start): Ghost<int>,
        Ghost(from): Ghost<int>,
    )
        requires
            neighbor < old(self).pixels@.len(),
            source != replacement,
            round_state(original, before, popped, old(self).pixels@, old(pending)@, old(self).width as int, start, source, replacement),
            in_region(original, old(self).width as int, source, start, from),
            adjacent(old(self).width as int, original.len() as int, from, neighbor as int),
        ensures
            final(self).width == old(self).width,
            final(self).height == old(self).height,
            round_state(original, before, popped, final(self).pixels@, final(pending)@, old(self).width as int, start, source, replacement),
            final(self).pixels@[neighbor as int] != source,
            forall|i: int| 0 <= i < final(self).pixels@.len() && old(self).pixels@[i] != source ==> #[trigger] final(self).pixels@[i] == old(self).pixels@[i],
            count_value(final(self).pixels@, source) * 5 + final(pending)@.len() <= count_value(old(self).pixels@, source) * 5 + old(pending)@.len(),
    {
        if self.pixels[neighbor] == source {
            let ghost old_pixels = self.pixels@;
            let ghost old_pending = pending@;
            self.pixels.set(neighbor, replacement);
            pending.push(neighbor);
            proof {
                lemma_count_update(old_pixels, neighbor as int, replacement, source);
                assert(original[neighbor as int] == source);
                lemma_extend_region(original, self.width as int, source, start, from, neighbor as int);
                assert(pending@.subrange(0, popped.len() as int) =~= old_pending.subrange(0, popped.len() as int));
                assert forall|i: int| 0 <= i < self.pixels@.len() implies #[trigger] self.pixels@[i] == before[i] || (before[i] == source
                    && self.pixels@[i] == replacement && pending@.contains(i as usize)) by {
                    if i == neighbor as int {
                        assert(pending@[pending@.len() - 1] == neighbor);
                    } else if old_pixels[i] != before[i] {
                        let k = choose|k: int| 0 <= k < old_pending.len() && old_pending[k] == i as usize;
                        assert(pending@[k] == i as usize);
                    }
                }
            }
        }
    }
}

} // verus!
