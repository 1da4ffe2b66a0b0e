//! State kept by editors around the engine: dragging list items, and colors edited by hand
//! in a generated ramp.
use vstd::prelude::*;

use crate::color::{black, ColorRgba};

verus! {

/// What dragging did to a list item.
#[derive(Clone, Copy, Debug, PartialEq, Eq, Structural)]
pub enum DragDropResult {
    /// No interaction.
    Idle,
    /// The item is being dragged.
    Dragging,
    /// The item was dropped: the source and target items are to be swapped.
    Dropped { source_index: usize, target_index: usize },
}

/// The list item being dragged, if any, and where the drag started, in whole pixels.
#[derive(Clone, Copy, Debug, Default)]
pub struct DragDropState {
    dragging_index: Option<usize>,
    drag_start_pos: Option<(i32, i32)>,
}

impl DragDropState {
    /// No drag in progress.
    pub fn new() -> (r: DragDropState)
        ensures
            r.dragging() == None::<usize>,
    {
        DragDropState { dragging_index: None, drag_start_pos: None }
    }

    /// The item being dragged.
    pub closed spec fn dragging(&self) -> Option<usize> {
        self.dragging_index
    }

    /// Whether the item at `index` is being dragged.
    pub fn is_dragging(&self, index: usize) -> (r: bool)
        ensures
            r == (self.dragging() == Some(index)),
    {
        match self.dragging_index {
            Some(i) => i == index,
            None => false,
        }
    }

    /// Whether any item is being dragged.
    pub fn is_any_dragging(&self) -> (r: bool)
        ensures
            r == self.dragging().is_some(),
    {
        self.dragging_index.is_some()
    }

    /// The item being dragged.
    pub fn dragging_index(&self) -> (r: Option<usize>)
        ensures
            r == self.dragging(),
    {
        self.dragging_index
    }

    /// Starts dragging the item at `index` from the pixel `pos`.
    pub fn start_drag(&mut self, index: usize, pos: (i32, i32))
        ensures
            final(self).dragging() == Some(index),
    {
        self.dragging_index = Some(index);
        self.drag_start_pos = Some(pos);
    }

    /// Ends the drag.
    pub fn end_drag(&mut self)
        ensures
            final(self).dragging() == None::<usize>,
    {
        self.dragging_index = None;
        self.drag_start_pos = None;
    }
}

/// Generated colors as last seen, and the same colors with the edits made by hand.
#[derive(Clone, Debug, Default)]
pub struct HexEditState {
    seen_colors: Vec<ColorRgba>,
    edited_colors: Vec<ColorRgba>,
}

impl HexEditState {
    /// The generated colors as last seen.
    pub closed spec fn seen(&self) -> Seq<ColorRgba> {
        self.seen_colors@
    }

    /// The colors with the edits made by hand.
    pub closed spec fn edited(&self) -> Seq<ColorRgba> {
        self.edited_colors@
    }

    /// No colors.
    pub fn new() -> (r: HexEditState)
        ensures
            r.seen() == Seq::<ColorRgba>::empty(),
            r.edited() == Seq::<ColorRgba>::empty(),
    {
        HexEditState { seen_colors: Vec::new(), edited_colors: Vec::new() }
    }

    /// Takes in freshly generated colors: when they differ from the colors last seen (in
    /// number or in any color), both the seen and the edited colors become them and the
    /// edits are dropped; otherwise nothing changes.
    pub fn sync_with_generated(&mut self, generated: &Vec<ColorRgba>)
        ensures
            old(self).seen() == generated@ ==> final(self).seen() == old(self).seen()
                && final(self).edited() == old(self).edited(),
            old(self).seen() != generated@ ==> final(self).seen() == generated@
                && final(self).edited() == generated@,
    {
        let mut changed = self.seen_colors.len() != generated.len();
        let mut i: usize = 0;
        while !changed && i < generated.len()
            invariant
                i <= generated@.len(),
                !changed ==> self.seen_colors@.len() == generated@.len(),
                !changed ==> forall|j: int| 0 <= j < i ==> self.seen_colors@[j] == generated@[j],
                changed ==> self.seen_colors@ != generated@,
            decreases generated@.len() - i,
        {
            if self.seen_colors[i] != generated[i] {
                changed = true;
            }
            i = i + 1;
        }
        if !changed {
            assert(self.seen_colors@ =~= generated@);
        }
        if changed {
            self.seen_colors = copy_colors(generated);
            self.edited_colors = copy_colors(generated);
        }
    }

    /// Whether the color at `index` was edited by hand; false past the end.
    pub fn was_edited(&self, index: usize) -> (r: bool)
        ensures
            r == (index < self.seen().len() && index < self.edited().len() && self.seen()[index as int]
                != self.edited()[index as int]),
    {
        if index >= self.seen_colors.len() || index >= self.edited_colors.len() {
            return false;
        }
        self.seen_colors[index] != self.edited_colors[index]
    }

    /// The color at `index`, edited or not.
    pub fn get(&self, index: usize) -> (r: Option<ColorRgba>)
        ensures
            r == (if index < self.edited().len() {
                Some(self.edited()[index as int])
            } else {
                None
            }),
    {
        if index < self.edited_colors.len() {
            Some(self.edited_colors[index])
        } else {
            None
        }
    }

    /// Edits the color at `index`, if there is one.
    pub fn set(&mut self, index: usize, color: ColorRgba)
        ensures
            final(self).seen() == old(self).seen(),
            final(self).edited() == if index < old(self).edited().len() {
                old(self).edited().update(index as int, color)
            } else {
                old(self).edited()
            },
    {
        if index < self.edited_colors.len() {
            self.edited_colors.set(index, color);
        }
    }

    /// Reverts the color at `index` to the generated one.
    pub fn clear_edit(&mut self, index: usize)
        ensures
            final(self).seen() == old(self).seen(),
            final(self).edited() == if index < old(self).edited().len() && index < old(self).seen().len() {
                old(self).edited().update(index as int, old(self).seen()[index as int])
            } else {
                old(self).edited()
            },
    {
        if index < self.edited_colors.len() && index < self.seen_colors.len() {
            let c = self.seen_colors[index];
            self.edited_colors.set(index, c);
        }
    }
}

fn copy_colors(colors: &Vec<ColorRgba>) -> (r: Vec<ColorRgba>)
    ensures
        r@ == colors@,
{
    let mut out: Vec<ColorRgba> = Vec::new();
    let mut i: usize = 0;
    while i < colors.len()
        invariant
            i <= colors@.len(),
            out@ == colors@.subrange(0, i as int),
        decreases colors@.len() - i,
    {
        out.push(colors[i]);
        i = i + 1;
    }
    assert(out@ =~= colors@);
    out
}

/// The index of the color that sample `i` of `n` picks from `len` colors: `i * (len - 1)`
/// divided by `n - 1`, rounded to the nearest index with halves up; the first color for one
/// sample.
pub open spec fn sample_index(len: int, n: int, i: int) -> int {
    if n > 1 {
        let q = i * (len - 1);
        q / (n - 1) + if 2 * (q % (n - 1)) >= n - 1 { 1int } else { 0int }
    } else {
        0
    }
}

/// `n` colors picked evenly from `colors`: all black when there are none, and the colors
/// themselves when there are no more than `n`.
pub fn sample_colors(colors: &Vec<ColorRgba>, n: usize) -> (r: Vec<ColorRgba>)
    ensures
        colors@.len() == 0 ==> r@ == Seq::new(n as nat, |i: int| black()),
        0 < colors@.len() <= n ==> r@ == colors@,
        colors@.len() > n ==> r@ == Seq::new(n as nat, |i: int| colors@[sample_index(colors@.len() as int, n as int, i)]),
{
    if colors.len() == 0 {
        let mut out: Vec<ColorRgba> = Vec::new();
        let mut i: usize = 0;
        while i < n
            invariant
                i <= n,
                out@ == Seq::new(i as nat, |j: int| black()),
            decreases n - i,
        {
            out.push(ColorRgba::black());
            i = i + 1;
            assert(out@ =~= Seq::new(i as nat, |j: int| black()));
        }
        return out;
    }
    if colors.len() <= n {
        return copy_colors(colors);
    }
    let len = colors.len();
    let mut out: Vec<ColorRgba> = Vec::new();
    let mut i: usize = 0;
    while i < n
        invariant
            len == colors@.len(),
            len > n,
            i <= n,
            out@ == Seq::new(i as nat, |j: int| colors@[sample_index(len as int, n as int, j)]),
        decreases n - i,
    {
        let idx: usize = if n > 1 {
            assert(0 <= i * (len - 1) <= (n - 1) * (len - 1)) by (nonlinear_arith)
                requires
                    0 <= i <= n - 1,
                    len > n,
            ;
            assert((n - 1) * (len - 1) < 0x1_0000_0000_0000_0000_0000_0000_0000_0000) by (nonlinear_arith)
                requires
                    n <= usize::MAX,
                    len <= usize::MAX,
                    n > 1,
                    len > 1,
            ;
            let qq: u128 = (i as u128) * ((len - 1) as u128);
            let d: u128 = (n - 1) as u128;
            let whole: u128 = qq / d;
            let rest: u128 = qq % d;
            proof {
                vstd::arithmetic::div_mod::lemma_fundamental_div_mod(qq as int, d as int);
                assert(qq == d * whole + rest);
                if whole > len - 1 {
                    assert(d * whole >= d * len) by (nonlinear_arith)
                        requires
                            whole >= len,
                            d > 0,
                    ;
                    assert(d * len > d * (len - 1)) by (nonlinear_arith)
                        requires
                            d > 0,
                    ;
                }
                if whole == len - 1 {
                    assert(d * whole == d * (len - 1));
                }
            }
            let up: u128 = if 2 * rest >= d { 1 } else { 0 };
            (whole + up) as usize
        } else {
            0
        };
        out.push(colors[idx]);
        i = i + 1;
        assert(out@ =~= Seq::new(i as nat, |j: int| colors@[sample_index(len as int, n as int, j)]));
    }
    out
}

} // verus!
