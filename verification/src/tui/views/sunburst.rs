use vstd::prelude::*;

use crate::tui::views::treemap::{no_area, Area};

verus! {

/// Where an arc of the sunburst stands: the ring it is drawn in (0 innermost) and the
/// index, among its parent's children, of the node it draws. The arc's angles and colour
/// are drawing matters kept beside it by the renderer.
#[derive(Debug, Clone, Copy, PartialEq, Eq, Structural)]
pub struct SegmentSlot {
    pub child_index: usize,
    pub ring: usize,
}

/// Selection state of the sunburst chart: the arcs last laid out, the area they were laid
/// out for, how many rings are drawn, and the selected ring and place within it.
pub struct SunburstState {
    pub cached_segments: Vec<SegmentSlot>,
    pub cached_area: Area,
    pub max_rings: usize,
    pub selected_ring: usize,
    pub selected_segment: usize,
}

/// The indices below `n` of the arcs in ring `ring`, in drawing order.
pub open spec fn ring_upto(segs: Seq<SegmentSlot>, ring: usize, n: int) -> Seq<usize>
    decreases n,
{
    if n <= 0 {
        Seq::empty()
    } else {
        ring_upto(segs, ring, n - 1) + if segs[n - 1].ring == ring {
            seq![(n - 1) as usize]
        } else {
            Seq::empty()
        }
    }
}

/// The indices of the arcs in ring `ring`, in drawing order.
pub open spec fn ring_indices(segs: Seq<SegmentSlot>, ring: usize) -> Seq<usize> {
    ring_upto(segs, ring, segs.len() as int)
}

proof fn lemma_ring_upto_bounds(segs: Seq<SegmentSlot>, ring: usize, n: int)
    requires
        0 <= n <= segs.len(),
        segs.len() <= usize::MAX,
    ensures
        forall|k: int|
            0 <= k < ring_upto(segs, ring, n).len() ==> #[trigger] ring_upto(segs, ring, n)[k] < n,
    decreases n,
{
    if n > 0 {
        lemma_ring_upto_bounds(segs, ring, n - 1);
        let prev = ring_upto(segs, ring, n - 1);
        let all = ring_upto(segs, ring, n);
        assert forall|k: int| 0 <= k < all.len() implies #[trigger] all[k] < n by {
            if k < prev.len() {
                assert(all[k] == prev[k]);
            }
        }
    }
}

impl SunburstState {
    /// Nothing laid out yet; four rings; the first arc of the inner ring selected.
    pub fn new() -> (s: Self)
        ensures
            s.cached_segments@.len() == 0,
            s.cached_area == no_area(),
            s.max_rings == 4,
            s.selected_ring == 0,
            s.selected_segment == 0,
    {
        SunburstState {
            cached_segments: Vec::new(),
            cached_area: Area::empty(),
            max_rings: 4,
            selected_ring: 0,
            selected_segment: 0,
        }
    }

    /// Forget the layout, so that the next drawing lays the arcs out again.
    pub fn invalidate(&mut self)
        ensures
            final(self).cached_segments@.len() == 0,
            final(self).cached_area == old(self).cached_area,
            final(self).max_rings == old(self).max_rings,
            final(self).selected_ring == old(self).selected_ring,
            final(self).selected_segment == old(self).selected_segment,
    {
        self.cached_segments.clear();
    }

    /// Whether the arcs must be laid out again for `area`: the area changed or nothing is
    /// laid out.
    pub fn needs_layout(&self, area: Area) -> (r: bool)
        ensures
            r == (self.cached_area != area || self.cached_segments@.len() == 0),
    {
        !(self.cached_area == area) || self.cached_segments.len() == 0
    }

    /// Keep the arcs laid out for `area`.
    pub fn store_layout(&mut self, segments: Vec<SegmentSlot>, area: Area)
        ensures
            final(self).cached_segments@ == segments@,
            final(self).cached_area == area,
            final(self).max_rings == old(self).max_rings,
            final(self).selected_ring == old(self).selected_ring,
            final(self).selected_segment == old(self).selected_segment,
    {
        self.cached_segments = segments;
        self.cached_area = area;
    }

    /// The indices of the arcs in ring `ring`, in drawing order.
    pub fn segments_in_ring(&self, ring: usize) -> (v: Vec<usize>)
        ensures
            v@ == ring_indices(self.cached_segments@, ring),
    {
        let mut v: Vec<usize> = Vec::new();
        let n = self.cached_segments.len();
        let mut i: usize = 0;
        while i < n
            invariant
                i <= n == self.cached_segments@.len(),
                v@ == ring_upto(self.cached_segments@, ring, i as int),
            decreases n - i,
        {
            if self.cached_segments[i].ring == ring {
                v.push(i);
            }
            proof {
                assert(v@ =~= ring_upto(self.cached_segments@, ring, i as int + 1));
            }
            i = i + 1;
        }
        v
    }

    /// Select the next arc of the ring, wrapping around to the first.
    pub fn move_angular_next(&mut self)
        requires
            old(self).selected_segment < usize::MAX,
        ensures
            ({
                let n = ring_indices(old(self).cached_segments@, old(self).selected_ring).len();
                &&& n == 0 ==> final(self).selected_segment == old(self).selected_segment
                &&& n > 0 ==> final(self).selected_segment == (old(self).selected_segment + 1) % (
                n as int)
            }),
            final(self).selected_ring == old(self).selected_ring,
            final(self).cached_segments@ == old(self).cached_segments@,
            final(self).cached_area == old(self).cached_area,
            final(self).max_rings == old(self).max_rings,
    {
        let ring_segs = self.segments_in_ring(self.selected_ring);
        if ring_segs.len() == 0 {
            return;
        }
        self.selected_segment = (self.selected_segment + 1) % ring_segs.len();
    }

    /// Select the previous arc of the ring, wrapping around to the last.
    pub fn move_angular_prev(&mut self)
        ensures
            ({
                let n = ring_indices(old(self).cached_segments@, old(self).selected_ring).len();
                &&& n == 0 ==> final(self).selected_segment == old(self).selected_segment
                &&& n > 0 ==> final(self).selected_segment == (if old(self).selected_segment == 0 {
                    n - 1
                } else {
                    old(self).selected_segment - 1
                })
            }),
            final(self).selected_ring == old(self).selected_ring,
            final(self).cached_segments@ == old(self).cached_segments@,
            final(self).cached_area == old(self).cached_area,
            final(self).max_rings == old(self).max_rings,
    {
        let ring_segs = self.segments_in_ring(self.selected_ring);
        if ring_segs.len() == 0 {
            return;
        }
        self.selected_segment = if self.selected_segment == 0 {
            ring_segs.len() - 1
        } else {
            self.selected_segment - 1
        };
    }

    /// Move the selection one ring outwards, to its first arc, when that ring is drawn and
    /// has arcs.
    pub fn move_ring_out(&mut self)
        requires
            old(self).max_rings > 0,
        ensures
            if old(self).selected_ring + 1 < old(self).max_rings && ring_indices(
                old(self).cached_segments@,
                (old(self).selected_ring + 1) as usize,
            ).len() > 0 {
                final(self).selected_ring == old(self).selected_ring + 1
                    && final(self).selected_segment == 0
            } else {
                final(self).selected_ring == old(self).selected_ring
                    && final(self).selected_segment == old(self).selected_segment
            },
            final(self).cached_segments@ == old(self).cached_segments@,
            final(self).cached_area == old(self).cached_area,
            final(self).max_rings == old(self).max_rings,
    {
        if self.selected_ring < self.max_rings - 1 {
            let next_segs = self.segments_in_ring(self.selected_ring + 1);
            if next_segs.len() > 0 {
                self.selected_ring = self.selected_ring + 1;
                self.selected_segment = 0;
            }
        }
    }

    /// Move the selection one ring inwards, to its first arc.
    pub fn move_ring_in(&mut self)
        ensures
            old(self).selected_ring > 0 ==> final(self).selected_ring == old(self).selected_ring
                - 1 && final(self).selected_segment == 0,
            old(self).selected_ring == 0 ==> final(self).selected_ring == 0
                && final(self).selected_segment == old(self).selected_segment,
            final(self).cached_segments@ == old(self).cached_segments@,
            final(self).cached_area == old(self).cached_area,
            final(self).max_rings == old(self).max_rings,
    {
        if self.selected_ring > 0 {
            self.selected_ring = self.selected_ring - 1;
            self.selected_segment = 0;
        }
    }

    /// The child index drawn by the selected arc, if the selection names an arc.
    pub fn selected_child_index(&self) -> (r: Option<usize>)
        ensures
            ({
                let ring = ring_indices(self.cached_segments@, self.selected_ring);
                if self.selected_segment < ring.len() {
                    r == Some(self.cached_segments@[ring[self.selected_segment as int] as int].child_index)
                } else {
                    r is None
                }
            }),
    {
        let ring_segs = self.segments_in_ring(self.selected_ring);
        let _count = self.cached_segments.len();
        proof {
            lemma_ring_upto_bounds(
                self.cached_segments@,
                self.selected_ring,
                self.cached_segments@.len() as int,
            );
        }
        if self.selected_segment < ring_segs.len() {
            let seg_idx = ring_segs[self.selected_segment];
            Some(self.cached_segments[seg_idx].child_index)
        } else {
            None
        }
    }
}

/// The bit of a braille cell's pattern for the dot in column `x` (0-1) and row `y` (0-3),
/// in the Unicode braille numbering: dots 1-3 and 7 down the left column, 4-6 and 8 down
/// the right; 0 for a place outside the cell.
pub open spec fn braille_bit_spec(x: int, y: int) -> u8 {
    if x == 0 && y == 0 {
        0x01
    } else if x == 0 && y == 1 {
        0x02
    } else if x == 0 && y == 2 {
        0x04
    } else if x == 0 && y == 3 {
        0x40
    } else if x == 1 && y == 0 {
        0x08
    } else if x == 1 && y == 1 {
        0x10
    } else if x == 1 && y == 2 {
        0x20
    } else if x == 1 && y == 3 {
        0x80
    } else {
        0
    }
}

/// Convert braille dot position (x: 0-1, y: 0-3) to bit mask.
pub fn braille_bit(x: usize, y: usize) -> (b: u8)
    ensures
        b == braille_bit_spec(x as int, y as int),
{
    if x == 0 {
        if y == 0 {
            0x01
        } else if y == 1 {
            0x02
        } else if y == 2 {
            0x04
        } else if y == 3 {
            0x40
        } else {
            0
        }
    } else if x == 1 {
        if y == 0 {
            0x08
        } else if y == 1 {
            0x10
        } else if y == 2 {
            0x20
        } else if y == 3 {
            0x80
        } else {
            0
        }
    } else {
        0
    }
}

/// The eight dots of a braille cell have distinct bits that together fill the byte.
pub proof fn lemma_braille_bits_fill_cell()
    ensures
        braille_bit_spec(0, 0) | braille_bit_spec(0, 1) | braille_bit_spec(0, 2) | braille_bit_spec(0, 3)
            | braille_bit_spec(1, 0) | braille_bit_spec(1, 1) | braille_bit_spec(1, 2)
            | braille_bit_spec(1, 3) == 0xffu8,
{
    assert(0x01u8 | 0x02u8 | 0x04u8 | 0x40u8 | 0x08u8 | 0x10u8 | 0x20u8 | 0x80u8 == 0xffu8) by (bit_vector);
}

} // verus!
