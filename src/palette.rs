//! Ramps (swatches) of colors generated from anchor control points, and palettes of ramps.
use vstd::prelude::*;

use crate::color::{
    black, extrapolate_color, extrapolate_color_spec, lerp_channel, lerp_color, lerp_color_spec,
    ColorRgba, ColorSpace,
};
use crate::curves::{curve_sample, CurveType};
use crate::fixed::{clamp_int, lemma_div_between, ONE};

verus! {

/// A color anchored at a position of the ramp.
#[derive(Clone, Copy, Debug, PartialEq, Eq, Structural)]
pub struct ControlPoint {
    /// A handle that stays with the point when points are reordered.
    pub id: u32,
    /// Fixed-point position in `[0, ONE]`: zero is the bright end, `ONE` the dark end.
    pub position: i64,
    /// The color at this position.
    pub color: ColorRgba,
}

impl ControlPoint {
    /// A control point; the position is limited to `[0, ONE]`.
    pub fn new(id: u32, position: i64, color: ColorRgba) -> (cp: ControlPoint)
        ensures
            cp == (ControlPoint { id, position: clamp_int(position as int, 0, ONE as int) as i64, color }),
    {
        let p: i64 = if position < 0 {
            0
        } else if position > ONE {
            ONE
        } else {
            position
        };
        ControlPoint { id, position: p, color }
    }
}

/// What a ramp is, as a mathematical value.
pub struct SwatchModel {
    pub size: usize,
    pub points: Seq<ControlPoint>,
    pub curve: CurveType,
    pub space: ColorSpace,
    pub next_id: u32,
}

/// The points are in order of position.
pub open spec fn sorted_by_position(pts: Seq<ControlPoint>) -> bool {
    forall|i: int, j: int| 0 <= i < j < pts.len() ==> pts[i].position <= pts[j].position
}

/// Every position is in `[0, ONE]`.
pub open spec fn positions_in_range(pts: Seq<ControlPoint>) -> bool {
    forall|i: int| 0 <= i < pts.len() ==> 0 <= #[trigger] pts[i].position <= ONE
}

/// No two points share an id, and every id is below `next`.
pub open spec fn ids_unique_below(pts: Seq<ControlPoint>, next: u32) -> bool {
    &&& forall|i: int, j: int|
        0 <= i < pts.len() && 0 <= j < pts.len() && i != j ==> pts[i].id != pts[j].id
    &&& forall|i: int| 0 <= i < pts.len() ==> #[trigger] pts[i].id < next
}

/// `-x`, where the negation of the least `i64` gives the greatest.
pub open spec fn negate_sat(x: int) -> int {
    if x == i64::MIN {
        i64::MAX as int
    } else {
        -x
    }
}

/// The index of the bracketing pair for `t`, searched from index `i`: the first `k` with
/// `pts[k].position <= t <= pts[k + 1].position`, else the last index.
pub open spec fn bracket_from(pts: Seq<ControlPoint>, t: int, i: int) -> int
    decreases pts.len() - i,
{
    if i < 0 || i + 1 >= pts.len() {
        pts.len() - 1
    } else if pts[i].position <= t && t <= pts[i + 1].position {
        i
    } else {
        bracket_from(pts, t, i + 1)
    }
}

/// The position of output `i` of `size`: `i / (size - 1)`, or the middle for one output.
pub open spec fn sample_position(size: int, i: int) -> int {
    if size > 1 {
        i * ONE / (size - 1)
    } else {
        ONE / 2
    }
}

/// `k` is the first index whose point satisfies `pred`.
pub open spec fn is_first(pts: Seq<ControlPoint>, pred: spec_fn(ControlPoint) -> bool, k: int) -> bool {
    &&& 0 <= k < pts.len()
    &&& pred(pts[k])
    &&& forall|j: int| 0 <= j < k ==> !pred(#[trigger] pts[j])
}

/// The first index whose point satisfies `pred`, if any.
pub open spec fn first_index(pts: Seq<ControlPoint>, pred: spec_fn(ControlPoint) -> bool) -> Option<int> {
    if exists|k: int| is_first(pts, pred, k) {
        Some(choose|k: int| is_first(pts, pred, k))
    } else {
        None
    }
}

proof fn lemma_first_index(pts: Seq<ControlPoint>, pred: spec_fn(ControlPoint) -> bool, k: int)
    requires
        is_first(pts, pred, k),
    ensures
        first_index(pts, pred) == Some(k),
{
    let c = choose|c: int| is_first(pts, pred, c);
    assert(is_first(pts, pred, c));
    if c < k {
        assert(!pred(pts[c]));
    } else if k < c {
        assert(!pred(pts[k]));
    }
}

proof fn lemma_first_index_none(pts: Seq<ControlPoint>, pred: spec_fn(ControlPoint) -> bool)
    requires
        forall|j: int| 0 <= j < pts.len() ==> !pred(#[trigger] pts[j]),
    ensures
        first_index(pts, pred) == None::<int>,
{
}

/// Points whose id is `id`.
pub open spec fn has_id(id: u32) -> spec_fn(ControlPoint) -> bool {
    |cp: ControlPoint| cp.id == id
}

/// Points after the position `p`.
pub open spec fn above(p: int) -> spec_fn(ControlPoint) -> bool {
    |cp: ControlPoint| cp.position > p
}

/// Points within `tolerance` of `position`.
pub open spec fn near(position: int, tolerance: int) -> spec_fn(ControlPoint) -> bool {
    |cp: ControlPoint| -tolerance <= cp.position - position <= tolerance
}

/// The index of the point with id `id`, if any.
pub open spec fn index_of_id(pts: Seq<ControlPoint>, id: u32) -> Option<int> {
    first_index(pts, has_id(id))
}

/// Where a point at position `p` goes in sorted points: after every point at or before `p`.
pub open spec fn insert_index(pts: Seq<ControlPoint>, p: int) -> int {
    match first_index(pts, above(p)) {
        Some(k) => k,
        None => pts.len() as int,
    }
}

/// `cp` inserted into sorted points, after the points at the same position.
pub open spec fn insert_sorted(pts: Seq<ControlPoint>, cp: ControlPoint) -> Seq<ControlPoint> {
    pts.insert(insert_index(pts, cp.position as int), cp)
}

/// `cp` moved to `position`, limited to `[0, ONE]`.
pub open spec fn with_position(cp: ControlPoint, position: int) -> ControlPoint {
    ControlPoint { id: cp.id, position: clamp_int(position, 0, ONE as int) as i64, color: cp.color }
}

/// The points with the one at index `k` moved to `position`, and the order restored.
pub open spec fn moved(pts: Seq<ControlPoint>, k: int, position: int) -> Seq<ControlPoint> {
    insert_sorted(pts.remove(k), with_position(pts[k], position))
}

/// The points with the one of id `id`, if any, moved to `position`.
pub open spec fn moved_by_id(pts: Seq<ControlPoint>, id: u32, position: int) -> Seq<ControlPoint> {
    match index_of_id(pts, id) {
        Some(k) => moved(pts, k, position),
        None => pts,
    }
}

/// The points with the one at index `k` given the color `color`.
pub open spec fn recolored(pts: Seq<ControlPoint>, k: int, color: ColorRgba) -> Seq<ControlPoint> {
    pts.update(k, ControlPoint { id: pts[k].id, position: pts[k].position, color })
}

/// The points in order of position, built by inserting each point (its position limited to
/// `[0, ONE]`) in turn: points at equal positions keep their order.
pub open spec fn sorted_insertion(pts: Seq<ControlPoint>) -> Seq<ControlPoint>
    decreases pts.len(),
{
    if pts.len() == 0 {
        Seq::empty()
    } else {
        let last = pts.last();
        insert_sorted(sorted_insertion(pts.drop_last()), with_position(last, last.position as int))
    }
}

/// The greatest id among the points, zero if there are none.
pub open spec fn max_id(pts: Seq<ControlPoint>) -> int
    decreases pts.len(),
{
    if pts.len() == 0 {
        0
    } else {
        let m = max_id(pts.drop_last());
        if pts.last().id > m {
            pts.last().id as int
        } else {
            m
        }
    }
}

proof fn lemma_insert_keeps_wf(pts: Seq<ControlPoint>, next: u32, k: int, cp: ControlPoint)
    requires
        sorted_by_position(pts),
        positions_in_range(pts),
        ids_unique_below(pts, next),
        0 <= k <= pts.len(),
        forall|j: int| 0 <= j < k ==> pts[j].position <= cp.position,
        k < pts.len() ==> pts[k].position > cp.position,
        0 <= cp.position <= ONE,
        cp.id < next,
        forall|j: int| 0 <= j < pts.len() ==> pts[j].id != cp.id,
    ensures
        sorted_by_position(pts.insert(k, cp)),
        positions_in_range(pts.insert(k, cp)),
        ids_unique_below(pts.insert(k, cp), next),
{
    let r = pts.insert(k, cp);
    assert forall|i: int, j: int| 0 <= i < j < r.len() implies r[i].position <= r[j].position by {
        if j < k {
        } else if j == k {
        } else if i < k {
            assert(pts[i].position <= cp.position);
            assert(pts[k].position <= pts[j - 1].position);
        } else if i == k {
            assert(pts[k].position <= pts[j - 1].position);
        } else {
        }
    }
    assert forall|i: int, j: int| 0 <= i < r.len() && 0 <= j < r.len() && i != j implies r[i].id
        != r[j].id by {
        if i < k && j < k {
        } else if i == k || j == k {
        } else {
        }
    }
}

proof fn lemma_remove_keeps_wf(pts: Seq<ControlPoint>, next: u32, k: int)
    requires
        sorted_by_position(pts),
        positions_in_range(pts),
        ids_unique_below(pts, next),
        0 <= k < pts.len(),
    ensures
        sorted_by_position(pts.remove(k)),
        positions_in_range(pts.remove(k)),
        ids_unique_below(pts.remove(k), next),
        forall|j: int| 0 <= j < pts.len() - 1 ==> pts.remove(k)[j].id != pts[k].id,
{
    let r = pts.remove(k);
    assert forall|i: int, j: int| 0 <= i < j < r.len() implies r[i].position <= r[j].position by {
        let i0 = if i < k { i } else { i + 1 };
        let j0 = if j < k { j } else { j + 1 };
        assert(r[i] == pts[i0] && r[j] == pts[j0]);
    }
    assert forall|i: int, j: int| 0 <= i < r.len() && 0 <= j < r.len() && i != j implies r[i].id
        != r[j].id by {
        let i0 = if i < k { i } else { i + 1 };
        let j0 = if j < k { j } else { j + 1 };
        assert(r[i] == pts[i0] && r[j] == pts[j0]);
    }
    assert forall|j: int| 0 <= j < pts.len() - 1 implies r[j].id != pts[k].id by {
        let j0 = if j < k { j } else { j + 1 };
        assert(r[j] == pts[j0]);
    }
}

impl SwatchModel {
    /// The invariant of a ramp.
    pub open spec fn wf(self) -> bool {
        &&& sorted_by_position(self.points)
        &&& positions_in_range(self.points)
        &&& ids_unique_below(self.points, self.next_id)
    }

    /// The color at `t` with a single control point: lighter before it, darker after it.
    pub open spec fn sample_single(self, t: int) -> ColorRgba {
        let cp = self.points[0];
        if t < cp.position {
            let d = if cp.position - t < ONE { cp.position - t } else { ONE as int };
            extrapolate_color_spec(cp.color, curve_sample(self.curve, d), self.space)
        } else if t > cp.position {
            let d = if t - cp.position < ONE { t - cp.position } else { ONE as int };
            extrapolate_color_spec(cp.color, negate_sat(curve_sample(self.curve, d)), self.space)
        } else {
            cp.color
        }
    }

    /// The color at `t` before the first control point: lighter, by the curve of the
    /// distance relative to the region before the point.
    pub open spec fn sample_before(self, t: int) -> ColorRgba {
        let first = self.points[0];
        let region = first.position as int;
        if region <= 0 {
            first.color
        } else {
            extrapolate_color_spec(
                first.color,
                curve_sample(self.curve, (first.position - t) * ONE / region),
                self.space,
            )
        }
    }

    /// The color at `t` after the last control point: darker, by the curve of the distance
    /// relative to the region after the point.
    pub open spec fn sample_after(self, t: int) -> ColorRgba {
        let last = self.points.last();
        let region = ONE - last.position;
        if region <= 0 {
            last.color
        } else {
            extrapolate_color_spec(
                last.color,
                negate_sat(curve_sample(self.curve, (t - last.position) * ONE / region)),
                self.space,
            )
        }
    }

    /// The color at `t` between the first and last control points: the blend of the
    /// bracketing pair by the curve of the relative position within their segment.
    pub open spec fn sample_between(self, t: int) -> ColorRgba {
        let k = bracket_from(self.points, t, 0);
        let before = self.points[k];
        let after = if k + 1 < self.points.len() { self.points[k + 1] } else { self.points[k] };
        let segment = after.position - before.position;
        let local = if segment > 0 { (t - before.position) * ONE / segment } else { 0 };
        lerp_color_spec(before.color, after.color, curve_sample(self.curve, local), self.space)
    }

    /// The color of the ramp at the fixed-point position `t` in `[0, ONE]`.
    pub open spec fn sample(self, t: int) -> ColorRgba {
        let n = self.points.len();
        if n == 0 {
            black()
        } else if n == 1 {
            self.sample_single(t)
        } else if t < self.points[0].position {
            self.sample_before(t)
        } else if t > self.points[n - 1].position {
            self.sample_after(t)
        } else {
            self.sample_between(t)
        }
    }

    /// The generated colors: one sample for each of `size` outputs, bright end first.
    pub open spec fn generated(self) -> Seq<ColorRgba> {
        Seq::new(self.size as nat, |i: int| self.sample(sample_position(self.size as int, i)))
    }
}

/// A ramp: control points in order of position, the curve and color space that shape the
/// colors between and beyond them, and the number of colors to generate.
#[derive(Clone, Debug)]
pub struct Swatch {
    size: usize,
    control_points: Vec<ControlPoint>,
    interpolation_curve: CurveType,
    color_space: ColorSpace,
    next_control_point_id: u32,
}

impl View for Swatch {
    type V = SwatchModel;

    closed spec fn view(&self) -> SwatchModel {
        SwatchModel {
            size: self.size,
            points: self.control_points@,
            curve: self.interpolation_curve,
            space: self.color_space,
            next_id: self.next_control_point_id,
        }
    }
}

fn negate_saturating(x: i64) -> (r: i64)
    ensures
        r == negate_sat(x as int),
{
    if x == i64::MIN {
        i64::MAX
    } else {
        -x
    }
}

/// Where a point at position `p` goes in the points: the first index after `p`.
fn find_insert_index(pts: &Vec<ControlPoint>, p: i64) -> (r: usize)
    ensures
        r == insert_index(pts@, p as int),
        r <= pts@.len(),
        forall|j: int| 0 <= j < r ==> pts@[j].position <= p,
        r < pts@.len() ==> pts@[r as int].position > p,
{
    let mut i: usize = 0;
    while i < pts.len()
        invariant
            i <= pts@.len(),
            forall|j: int| 0 <= j < i ==> pts@[j].position <= p,
        decreases pts@.len() - i,
    {
        if pts[i].position > p {
            proof {
                assert(is_first(pts@, above(p as int), i as int));
                lemma_first_index(pts@, above(p as int), i as int);
            }
            return i;
        }
        i = i + 1;
    }
    proof {
        lemma_first_index_none(pts@, above(p as int));
    }
    i
}

fn find_id(pts: &Vec<ControlPoint>, id: u32) -> (r: Option<usize>)
    ensures
        match r {
            Some(k) => index_of_id(pts@, id) == Some(k as int) && k < pts@.len() && pts@[k as int].id == id,
            None => index_of_id(pts@, id) == None::<int>,
        },
{
    let mut i: usize = 0;
    while i < pts.len()
        invariant
            i <= pts@.len(),
            forall|j: int| 0 <= j < i ==> pts@[j].id != id,
        decreases pts@.len() - i,
    {
        if pts[i].id == id {
            proof {
                assert(is_first(pts@, has_id(id), i as int));
                lemma_first_index(pts@, has_id(id), i as int);
            }
            return Some(i);
        }
        i = i + 1;
    }
    proof {
        lemma_first_index_none(pts@, has_id(id));
    }
    None
}

impl Swatch {
    /// The number of colors to generate.
    pub fn size(&self) -> (r: usize)
        ensures
            r == self@.size,
    {
        self.size
    }

    /// The curve that reshapes blend factors and extrapolation distances.
    pub fn interpolation_curve(&self) -> (r: CurveType)
        ensures
            r == self@.curve,
    {
        self.interpolation_curve
    }

    /// The color space in which colors are blended and shifted.
    pub fn color_space(&self) -> (r: ColorSpace)
        ensures
            r == self@.space,
    {
        self.color_space
    }

    /// Sets the number of colors to generate.
    pub fn set_size(&mut self, size: usize)
        ensures
            final(self)@ == (SwatchModel { size, ..old(self)@ }),
    {
        self.size = size;
    }

    /// Sets the curve.
    pub fn set_interpolation_curve(&mut self, curve: CurveType)
        ensures
            final(self)@ == (SwatchModel { curve, ..old(self)@ }),
    {
        self.interpolation_curve = curve;
    }

    /// Sets the color space.
    pub fn set_color_space(&mut self, space: ColorSpace)
        ensures
            final(self)@ == (SwatchModel { space, ..old(self)@ }),
    {
        self.color_space = space;
    }

    /// The id that the next added control point gets.
    pub fn next_control_point_id(&self) -> (r: u32)
        ensures
            r == self@.next_id,
    {
        self.next_control_point_id
    }

    /// The control points, in order of position.
    pub fn control_points(&self) -> (r: &Vec<ControlPoint>)
        ensures
            r@ == self@.points,
    {
        &self.control_points
    }

    /// Adds a control point with the next unused id; the position is limited to `[0, ONE]`
    /// and the point goes after the points at or before it.
    pub fn add_control_point(&mut self, position: i64, color: ColorRgba)
        requires
            old(self)@.wf(),
            old(self)@.next_id < u32::MAX,
        ensures
            final(self)@.wf(),
            final(self)@ == (SwatchModel {
                points: insert_sorted(
                    old(self)@.points,
                    ControlPoint {
                        id: old(self)@.next_id,
                        position: clamp_int(position as int, 0, ONE as int) as i64,
                        color,
                    },
                ),
                next_id: (old(self)@.next_id + 1) as u32,
                ..old(self)@
            }),
    {
        let id = self.next_control_point_id;
        self.next_control_point_id = id + 1;
        let cp = ControlPoint::new(id, position, color);
        let k = find_insert_index(&self.control_points, cp.position);
        proof {
            lemma_insert_keeps_wf(self.control_points@, self.next_control_point_id, k as int, cp);
        }
        self.control_points.insert(k, cp);
    }

    /// Removes the control point at `index`, if there is one. A ramp may lose all its points.
    pub fn remove_control_point(&mut self, index: usize)
        requires
            old(self)@.wf(),
        ensures
            final(self)@.wf(),
            final(self)@ == (if index < old(self)@.points.len() {
                SwatchModel { points: old(self)@.points.remove(index as int), ..old(self)@ }
            } else {
                old(self)@
            }),
    {
        if index < self.control_points.len() {
            proof {
                lemma_remove_keeps_wf(self.control_points@, self.next_control_point_id, index as int);
            }
            self.control_points.remove(index);
        }
    }

    /// Removes the control point with id `id`, if there is one.
    pub fn remove_control_point_by_id(&mut self, id: u32)
        requires
            old(self)@.wf(),
        ensures
            final(self)@.wf(),
            final(self)@ == (match index_of_id(old(self)@.points, id) {
                Some(k) => SwatchModel { points: old(self)@.points.remove(k), ..old(self)@ },
                None => old(self)@,
            }),
    {
        if let Some(k) = find_id(&self.control_points, id) {
            proof {
                lemma_remove_keeps_wf(self.control_points@, self.next_control_point_id, k as int);
            }
            self.control_points.remove(k);
        }
    }

    /// Gives the control point at `index`, if there is one, the color `color`.
    pub fn set_control_point_color(&mut self, index: usize, color: ColorRgba)
        requires
            old(self)@.wf(),
        ensures
            final(self)@.wf(),
            final(self)@ == (if index < old(self)@.points.len() {
                SwatchModel { points: recolored(old(self)@.points, index as int, color), ..old(self)@ }
            } else {
                old(self)@
            }),
    {
        if index < self.control_points.len() {
            let cp = self.control_points[index];
            self.control_points.set(index, ControlPoint { id: cp.id, position: cp.position, color });
        }
    }

    /// Gives the control point with id `id`, if there is one, the color `color`.
    pub fn set_control_point_color_by_id(&mut self, id: u32, color: ColorRgba)
        requires
            old(self)@.wf(),
        ensures
            final(self)@.wf(),
            final(self)@ == (match index_of_id(old(self)@.points, id) {
                Some(k) => SwatchModel { points: recolored(old(self)@.points, k, color), ..old(self)@ },
                None => old(self)@,
            }),
    {
        if let Some(k) = find_id(&self.control_points, id) {
            self.set_control_point_color(k, color);
        }
    }

    /// Moves the control point at `index`, if there is one, to `position` (limited to
    /// `[0, ONE]`), after the points at the same position.
    pub fn set_control_point_position(&mut self, index: usize, position: i64)
        requires
            old(self)@.wf(),
        ensures
            final(self)@.wf(),
            final(self)@ == (if index < old(self)@.points.len() {
                SwatchModel { points: moved(old(self)@.points, index as int, position as int), ..old(self)@ }
            } else {
                old(self)@
            }),
    {
        if index < self.control_points.len() {
            let old_cp = self.control_points[index];
            proof {
                lemma_remove_keeps_wf(self.control_points@, self.next_control_point_id, index as int);
            }
            self.control_points.remove(index);
            let cp = ControlPoint::new(old_cp.id, position, old_cp.color);
            let k = find_insert_index(&self.control_points, cp.position);
            proof {
                lemma_insert_keeps_wf(self.control_points@, self.next_control_point_id, k as int, cp);
            }
            self.control_points.insert(k, cp);
        }
    }

    /// Moves the control point with id `id`, if there is one, to `position` (limited to
    /// `[0, ONE]`).
    pub fn set_control_point_position_by_id(&mut self, id: u32, position: i64)
        requires
            old(self)@.wf(),
        ensures
            final(self)@.wf(),
            final(self)@ == (SwatchModel { points: moved_by_id(old(self)@.points, id, position as int), ..old(self)@ }),
    {
        if let Some(k) = find_id(&self.control_points, id) {
            self.set_control_point_position(k, position);
        }
    }

    /// Exchanges the positions of the control points with ids `id_a` and `id_b`, if both
    /// exist; colors stay with their ids. The point `id_a` is moved first.
    pub fn swap_control_points_by_id(&mut self, id_a: u32, id_b: u32)
        requires
            old(self)@.wf(),
        ensures
            final(self)@.wf(),
            final(self)@ == (match (index_of_id(old(self)@.points, id_a), index_of_id(old(self)@.points, id_b)) {
                (Some(ka), Some(kb)) => SwatchModel {
                    points: moved_by_id(
                        moved_by_id(old(self)@.points, id_a, old(self)@.points[kb].position as int),
                        id_b,
                        old(self)@.points[ka].position as int,
                    ),
                    ..old(self)@
                },
                _ => old(self)@,
            }),
    {
        let ka = find_id(&self.control_points, id_a);
        let kb = find_id(&self.control_points, id_b);
        if let (Some(ka), Some(kb)) = (ka, kb) {
            let pos_a = self.control_points[ka].position;
            let pos_b = self.control_points[kb].position;
            self.set_control_point_position_by_id(id_a, pos_b);
            self.set_control_point_position_by_id(id_b, pos_a);
        }
    }

    /// The index of the control point with id `id`, if there is one.
    pub fn find_control_point_index_by_id(&self, id: u32) -> (r: Option<usize>)
        ensures
            match r {
                Some(k) => index_of_id(self@.points, id) == Some(k as int),
                None => index_of_id(self@.points, id) == None::<int>,
            },
    {
        find_id(&self.control_points, id)
    }

    /// The index of the first control point within `tolerance` of `position`, if any.
    pub fn has_control_point_at(&self, position: i64, tolerance: i64) -> (r: Option<usize>)
        ensures
            match r {
                Some(k) => first_index(self@.points, near(position as int, tolerance as int)) == Some(k as int),
                None => first_index(self@.points, near(position as int, tolerance as int)) == None::<int>,
            },
    {
        let pts = &self.control_points;
        let mut i: usize = 0;
        while i < pts.len()
            invariant
                pts@ == self@.points,
                i <= pts@.len(),
                forall|j: int| 0 <= j < i ==> !near(position as int, tolerance as int)(#[trigger] pts@[j]),
            decreases pts@.len() - i,
        {
            let d: i128 = pts[i].position as i128 - position as i128;
            if -(tolerance as i128) <= d && d <= tolerance as i128 {
                proof {
                    assert(is_first(pts@, near(position as int, tolerance as int), i as int));
                    lemma_first_index(pts@, near(position as int, tolerance as int), i as int);
                }
                return Some(i);
            }
            i = i + 1;
        }
        proof {
            lemma_first_index_none(pts@, near(position as int, tolerance as int));
        }
        None
    }

    /// A ramp from its parts. Positions are limited to `[0, ONE]` and the points are put in
    /// order of position (equal positions keep their order); the next id follows the
    /// greatest id given.
    pub fn new(size: usize, control_points: Vec<ControlPoint>, curve: CurveType, color_space: ColorSpace) -> (s: Swatch)
        requires
            forall|i: int, j: int|
                0 <= i < control_points@.len() && 0 <= j < control_points@.len() && i != j
                    ==> control_points@[i].id != control_points@[j].id,
            forall|i: int| 0 <= i < control_points@.len() ==> #[trigger] control_points@[i].id < u32::MAX,
        ensures
            s@.wf(),
            s@ == (SwatchModel {
                size,
                points: sorted_insertion(control_points@),
                curve,
                space: color_space,
                next_id: (max_id(control_points@) + 1) as u32,
            }),
    {
        let input = &control_points;
        let mut pts: Vec<ControlPoint> = Vec::new();
        let mut m: u32 = 0;
        let mut i: usize = 0;
        while i < input.len()
            invariant
                i <= input@.len(),
                forall|a: int, b: int|
                    0 <= a < input@.len() && 0 <= b < input@.len() && a != b ==> input@[a].id != input@[b].id,
                forall|a: int| 0 <= a < input@.len() ==> #[trigger] input@[a].id < u32::MAX,
                pts@ == sorted_insertion(input@.subrange(0, i as int)),
                m == max_id(input@.subrange(0, i as int)),
                m < u32::MAX,
                sorted_by_position(pts@),
                positions_in_range(pts@),
                ids_unique_below(pts@, (m + 1) as u32),
                forall|q: int| 0 <= q < pts@.len() ==> exists|j: int| 0 <= j < i && #[trigger] pts@[q].id == input@[j].id,
            decreases input@.len() - i,
        {
            let given = input[i];
            let cp = ControlPoint::new(given.id, given.position, given.color);
            let ghost prefix = input@.subrange(0, i as int);
            let ghost next_prefix = input@.subrange(0, i + 1);
            assert(next_prefix.drop_last() =~= prefix);
            assert(next_prefix.last() == given);
            let new_m: u32 = if given.id > m { given.id } else { m };
            assert forall|q: int| 0 <= q < pts@.len() implies pts@[q].id != cp.id by {
                let j = choose|j: int| 0 <= j < i && pts@[q].id == input@[j].id;
                assert(input@[j].id != input@[i as int].id);
            }
            let k = find_insert_index(&pts, cp.position);
            proof {
                lemma_insert_keeps_wf(pts@, (new_m + 1) as u32, k as int, cp);
            }
            let ghost before = pts@;
            pts.insert(k, cp);
            assert forall|q: int| 0 <= q < pts@.len() implies exists|j: int| 0 <= j < i + 1 && #[trigger] pts@[q].id == input@[j].id by {
                if q < k {
                    let j = choose|j: int| 0 <= j < i && before[q].id == input@[j].id;
                    assert(pts@[q].id == input@[j].id);
                } else if q == k {
                    assert(pts@[q].id == input@[i as int].id);
                } else {
                    let j = choose|j: int| 0 <= j < i && before[q - 1].id == input@[j].id;
                    assert(pts@[q].id == input@[j].id);
                }
            }
            m = new_m;
            i = i + 1;
        }
        assert(input@.subrange(0, input@.len() as int) =~= input@);
        Swatch {
            size,
            control_points: pts,
            interpolation_curve: curve,
            color_space,
            next_control_point_id: m + 1,
        }
    }

    /// An independent copy of the ramp.
    pub fn duplicate(&self) -> (r: Swatch)
        ensures
            r@ == self@,
    {
        let mut pts: Vec<ControlPoint> = Vec::new();
        let mut i: usize = 0;
        while i < self.control_points.len()
            invariant
                i <= self@.points.len(),
                pts@ == self@.points.subrange(0, i as int),
            decreases self@.points.len() - i,
        {
            pts.push(self.control_points[i]);
            i = i + 1;
        }
        assert(pts@ =~= self@.points);
        Swatch {
            size: self.size,
            control_points: pts,
            interpolation_curve: self.interpolation_curve,
            color_space: self.color_space,
            next_control_point_id: self.next_control_point_id,
        }
    }

    fn sample_single_point(&self, t: i64) -> (r: ColorRgba)
        requires
            self@.wf(),
            self@.points.len() == 1,
            0 <= t <= ONE,
        ensures
            r == self@.sample_single(t as int),
    {
        let cp = self.control_points[0];
        if t < cp.position {
            let d: i64 = if cp.position - t < ONE { cp.position - t } else { ONE };
            let curved = self.interpolation_curve.sample(d);
            extrapolate_color(cp.color, curved, self.color_space)
        } else if t > cp.position {
            let d: i64 = if t - cp.position < ONE { t - cp.position } else { ONE };
            let curved = self.interpolation_curve.sample(d);
            extrapolate_color(cp.color, negate_saturating(curved), self.color_space)
        } else {
            cp.color
        }
    }

    fn extrapolate_before(&self, t: i64) -> (r: ColorRgba)
        requires
            self@.wf(),
            self@.points.len() >= 1,
            0 <= t < self@.points[0].position,
        ensures
            r == self@.sample_before(t as int),
    {
        let first = self.control_points[0];
        let region = first.position;
        if region <= 0 {
            return first.color;
        }
        assert(0 < (first.position - t) * ONE <= region * ONE) by (nonlinear_arith)
            requires
                0 <= t < first.position,
                region == first.position,
        ;
        proof {
            lemma_div_between((first.position - t) * ONE, region as int, 0, ONE as int);
        }
        let normalized: i64 = (((first.position - t) as i128) * (ONE as i128) / (region as i128)) as i64;
        let curved = self.interpolation_curve.sample(normalized);
        extrapolate_color(first.color, curved, self.color_space)
    }

    fn extrapolate_after(&self, t: i64) -> (r: ColorRgba)
        requires
            self@.wf(),
            self@.points.len() >= 1,
            self@.points.last().position < t <= ONE,
        ensures
            r == self@.sample_after(t as int),
    {
        let last = self.control_points[self.control_points.len() - 1];
        let region = ONE - last.position;
        if region <= 0 {
            return last.color;
        }
        assert(0 < (t - last.position) * ONE <= region * ONE) by (nonlinear_arith)
            requires
                last.position < t <= ONE,
                region == ONE - last.position,
        ;
        proof {
            lemma_div_between((t - last.position) * ONE, region as int, 0, ONE as int);
        }
        let normalized: i64 = (((t - last.position) as i128) * (ONE as i128) / (region as i128)) as i64;
        let curved = self.interpolation_curve.sample(normalized);
        extrapolate_color(last.color, negate_saturating(curved), self.color_space)
    }

    /// The bracketing pair for `t`: indices `(k, k + 1)` with
    /// `points[k].position <= t <= points[k + 1].position`, or the last index twice.
    fn find_bracketing_points(&self, t: i64) -> (r: (usize, usize))
        requires
            self@.points.len() >= 2,
        ensures
            r.0 == bracket_from(self@.points, t as int, 0),
            r.0 < self@.points.len(),
            r.0 + 1 < self@.points.len() ==> r.1 == r.0 + 1 && self@.points[r.0 as int].position
                <= t <= self@.points[r.0 + 1].position,
            r.0 + 1 >= self@.points.len() ==> r.1 == r.0,
    {
        let n = self.control_points.len();
        let mut i: usize = 0;
        while i + 1 < n
            invariant
                n == self@.points.len(),
                n >= 2,
                i + 1 <= n,
                bracket_from(self@.points, t as int, i as int) == bracket_from(self@.points, t as int, 0),
            decreases n - i,
        {
            let current = self.control_points[i].position;
            let next = self.control_points[i + 1].position;
            if t >= current && t <= next {
                return (i, i + 1);
            }
            i = i + 1;
        }
        (n - 1, n - 1)
    }

    fn interpolate_between(&self, t: i64) -> (r: ColorRgba)
        requires
            self@.wf(),
            self@.points.len() >= 2,
            0 <= t <= ONE,
        ensures
            r == self@.sample_between(t as int),
    {
        let (bi, ai) = self.find_bracketing_points(t);
        let before = self.control_points[bi];
        let after = self.control_points[ai];
        let segment = after.position - before.position;
        let local: i64 = if segment > 0 {
            assert(0 <= (t - before.position) * ONE <= segment * ONE) by (nonlinear_arith)
                requires
                    before.position <= t <= after.position,
                    segment == after.position - before.position,
            ;
            proof {
                lemma_div_between((t - before.position) * ONE, segment as int, 0, ONE as int);
            }
            (((t - before.position) as i128) * (ONE as i128) / (segment as i128)) as i64
        } else {
            0
        };
        let curved = self.interpolation_curve.sample(local);
        lerp_color(before.color, after.color, curved, self.color_space)
    }

    /// The color of the ramp at the fixed-point position `t`.
    fn sample_at(&self, t: i64) -> (r: ColorRgba)
        requires
            self@.wf(),
            0 <= t <= ONE,
        ensures
            r == self@.sample(t as int),
    {
        let n = self.control_points.len();
        if n == 0 {
            return ColorRgba::black();
        }
        if n == 1 {
            return self.sample_single_point(t);
        }
        if t < self.control_points[0].position {
            return self.extrapolate_before(t);
        }
        if t > self.control_points[n - 1].position {
            return self.extrapolate_after(t);
        }
        self.interpolate_between(t)
    }

    /// Generates the ramp's `size` colors, sampled evenly from position zero (the bright end)
    /// to `ONE` (the dark end); a single color is sampled at the middle.
    pub fn generate_colors(&self) -> (r: Vec<ColorRgba>)
        requires
            self@.wf(),
        ensures
            r@ == self@.generated(),
            r@.len() == self@.size,
    {
        let mut colors: Vec<ColorRgba> = Vec::new();
        let size = self.size;
        let mut i: usize = 0;
        while i < size
            invariant
                self@.wf(),
                size == self@.size,
                i <= size,
                colors@.len() == i,
                forall|j: int| 0 <= j < i ==> colors@[j] == self@.sample(sample_position(size as int, j)),
            decreases size - i,
        {
            let t: i64 = if size > 1 {
                assert(0 <= i * ONE < (size - 1) * (ONE + 1)) by (nonlinear_arith)
                    requires
                        0 <= i <= size - 1,
                        size > 1,
                ;
                proof {
                    lemma_div_between(i * ONE, size - 1, 0, ONE as int);
                }
                ((i as u128) * (ONE as u128) / ((size - 1) as u128)) as i64
            } else {
                ONE / 2
            };
            let c = self.sample_at(t);
            colors.push(c);
            i = i + 1;
        }
        assert(colors@ =~= self@.generated());
        colors
    }
}

/// The ramp that a new palette starts with: eight colors from a light anchor at zero to a
/// dark anchor at `ONE`, linear, in RGB.
pub open spec fn default_swatch() -> SwatchModel {
    SwatchModel {
        size: 8,
        points: seq![
            ControlPoint { id: 0, position: 0, color: ColorRgba { r: 240, g: 230, b: 220, a: 255 } },
            ControlPoint { id: 1, position: ONE, color: ColorRgba { r: 20, g: 20, b: 40, a: 255 } },
        ],
        curve: CurveType::Linear(crate::curves::Linear { factor: ONE }),
        space: ColorSpace::Rgb,
        next_id: 2,
    }
}

impl Default for Swatch {
    fn default() -> (s: Swatch)
        ensures
            s@ == default_swatch(),
            s@.wf(),
    {
        let pts = vec![
            ControlPoint::new(0, 0, ColorRgba::from_rgb(240, 230, 220)),
            ControlPoint::new(1, ONE, ColorRgba::from_rgb(20, 20, 40)),
        ];
        let s = Swatch {
            size: 8,
            control_points: pts,
            interpolation_curve: CurveType::default(),
            color_space: ColorSpace::default(),
            next_control_point_id: 2,
        };
        assert(s@.points =~= default_swatch().points);
        s
    }
}

/// An ordered collection of ramps; it is never empty.
#[derive(Clone, Debug)]
pub struct Palette {
    swatches: Vec<Swatch>,
}

/// The models of a sequence of ramps.
pub open spec fn views(s: Seq<Swatch>) -> Seq<SwatchModel> {
    s.map_values(|w: Swatch| w@)
}

/// Replacing one ramp replaces its model alone.
pub broadcast proof fn lemma_views_update(s: Seq<Swatch>, i: int, x: Swatch)
    requires
        0 <= i < s.len(),
    ensures
        #[trigger] views(s.update(i, x)) == views(s).update(i, x@),
{
    assert(views(s.update(i, x)) =~= views(s).update(i, x@));
}

impl View for Palette {
    type V = Seq<SwatchModel>;

    closed spec fn view(&self) -> Seq<SwatchModel> {
        views(self.swatches@)
    }
}

impl Palette {
    /// The invariant of a palette: at least one ramp, each well formed.
    pub open spec fn wf(&self) -> bool {
        &&& self@.len() >= 1
        &&& forall|i: int| 0 <= i < self@.len() ==> (#[trigger] self@[i]).wf()
    }

    /// A palette with the default ramp alone.
    pub fn new() -> (p: Palette)
        ensures
            p.wf(),
            p@ == seq![default_swatch()],
    {
        let p = Palette { swatches: vec![Swatch::default()] };
        assert(p@ =~= seq![default_swatch()]);
        p
    }

    /// Appends a ramp.
    pub fn add_swatch(&mut self, swatch: Swatch)
        ensures
            final(self)@ == old(self)@.push(swatch@),
    {
        self.swatches.push(swatch);
        assert(self@ =~= old(self)@.push(swatch@));
    }

    /// The ramps, in order.
    pub fn swatches(&self) -> (r: &Vec<Swatch>)
        ensures
            views(r@) == self@,
    {
        &self.swatches
    }

    /// The number of ramps.
    pub fn len(&self) -> (r: usize)
        ensures
            r == self@.len(),
    {
        self.swatches.len()
    }

    /// The ramp at `index`.
    pub fn get(&self, index: usize) -> (r: &Swatch)
        requires
            index < self@.len(),
        ensures
            r@ == self@[index as int],
    {
        &self.swatches[index]
    }

    pub(crate) fn get_mut(&mut self, index: usize) -> (r: &mut Swatch)
        requires
            index < old(self)@.len(),
        ensures
            (*r)@ == old(self)@[index as int],
            final(self)@ == old(self)@.update(index as int, (*final(r))@),
    {
        broadcast use lemma_views_update;

        &mut self.swatches[index]
    }

    pub(crate) fn swap(&mut self, a: usize, b: usize)
        requires
            a < old(self)@.len(),
            b < old(self)@.len(),
        ensures
            final(self)@ == old(self)@.update(a as int, old(self)@[b as int]).update(b as int, old(self)@[a as int]),
    {
        swap_entries(&mut self.swatches, a, b);
        assert(self@ =~= old(self)@.update(a as int, old(self)@[b as int]).update(b as int, old(self)@[a as int]));
    }

    pub(crate) fn remove(&mut self, index: usize)
        requires
            index < old(self)@.len(),
        ensures
            final(self)@ == old(self)@.remove(index as int),
    {
        self.swatches.remove(index);
        assert(self@ =~= old(self)@.remove(index as int));
    }

    pub(crate) fn insert(&mut self, index: usize, swatch: Swatch)
        requires
            index <= old(self)@.len(),
        ensures
            final(self)@ == old(self)@.insert(index as int, swatch@),
    {
        self.swatches.insert(index, swatch);
        assert(self@ =~= old(self)@.insert(index as int, swatch@));
    }
}

/// Exchanges the entries at `a` and `b`.
pub(crate) fn swap_entries<T>(v: &mut Vec<T>, a: usize, b: usize)
    requires
        a < old(v)@.len(),
        b < old(v)@.len(),
    ensures
        final(v)@ == old(v)@.update(a as int, old(v)@[b as int]).update(b as int, old(v)@[a as int]),
{
    if a == b {
        assert(v@ =~= old(v)@.update(a as int, old(v)@[b as int]).update(b as int, old(v)@[a as int]));
        return;
    }
    let (lo, hi) = if a < b { (a, b) } else { (b, a) };
    let x_hi = v.remove(hi);
    let x_lo = v.remove(lo);
    v.insert(lo, x_hi);
    v.insert(hi, x_lo);
    assert(v@ =~= old(v)@.update(a as int, old(v)@[b as int]).update(b as int, old(v)@[a as int]));
}

proof fn lemma_bracket_found(pts: Seq<ControlPoint>, t: int, i: int)
    requires
        sorted_by_position(pts),
        0 <= i,
        i + 1 < pts.len(),
        pts[i].position <= t <= pts[pts.len() - 1].position,
    ensures
        i <= bracket_from(pts, t, i),
        bracket_from(pts, t, i) + 1 < pts.len(),
        pts[bracket_from(pts, t, i)].position <= t <= pts[bracket_from(pts, t, i) + 1].position,
    decreases pts.len() - i,
{
    if !(pts[i].position <= t && t <= pts[i + 1].position) {
        if i + 2 < pts.len() {
            lemma_bracket_found(pts, t, i + 1);
        }
    }
}

proof fn lemma_bracket_same_positions(pts: Seq<ControlPoint>, other: Seq<ControlPoint>, t: int, i: int)
    requires
        pts.len() == other.len(),
        forall|j: int| 0 <= j < pts.len() ==> #[trigger] pts[j].position == other[j].position,
    ensures
        bracket_from(pts, t, i) == bracket_from(other, t, i),
    decreases pts.len() - i,
{
    if i >= 0 && i + 1 < pts.len() {
        lemma_bracket_same_positions(pts, other, t, i + 1);
    }
}

proof fn lemma_bracket_at_point(pts: Seq<ControlPoint>, k: int, i: int)
    requires
        sorted_by_position(pts),
        1 <= k < pts.len(),
        0 <= i <= k - 1,
        forall|j: int| 0 <= j < pts.len() && j != k ==> pts[j].position != pts[k].position,
    ensures
        bracket_from(pts, pts[k].position as int, i) == k - 1,
    decreases k - i,
{
    if i < k - 1 {
        assert(pts[i + 1].position <= pts[k - 1].position);
        assert(pts[k - 1].position != pts[k].position);
        lemma_bracket_at_point(pts, k, i + 1);
    }
}

proof fn lemma_rgb_blend_ends(c1: ColorRgba, c2: ColorRgba)
    ensures
        crate::color::lerp_rgb_spec(c1, c2, 0) == c1,
        crate::color::lerp_rgb_spec(c1, c2, ONE as int) == c2,
{
    let one = ONE as int;
    assert forall|x1: int, x2: int| 0 <= x1 <= 255 && 0 <= x2 <= 255 implies lerp_channel(x1, x2, 0) == x1
        && lerp_channel(x1, x2, one) == x2 by {
        assert(x1 * one + (x2 - x1) * 0 + one / 2 == x1 * one + one / 2);
        lemma_div_between(x1 * one + one / 2, one, x1, x1);
        assert(x1 * one + (x2 - x1) * one + one / 2 == x2 * one + one / 2) by (nonlinear_arith);
        lemma_div_between(x2 * one + one / 2, one, x2, x2);
    }
}

/// Sampling a ramp at the position of one of its control points gives that point's color
/// exactly, where the point is alone at its position and either it is the ramp's only point,
/// or the ramp blends in RGB with a curve that keeps the ends of the blend (it maps zero to at
/// most zero and `ONE` to at least `ONE`, as the default curves do).
pub proof fn lemma_sample_at_control_point(s: SwatchModel, k: int)
    requires
        s.wf(),
        0 <= k < s.points.len(),
        forall|j: int| 0 <= j < s.points.len() && j != k ==> s.points[j].position != s.points[k].position,
        s.points.len() == 1 || (s.space == ColorSpace::Rgb && curve_sample(s.curve, 0) <= 0
            && curve_sample(s.curve, ONE as int) >= ONE),
    ensures
        s.sample(s.points[k].position as int) == s.points[k].color,
{
    let pts = s.points;
    let n = pts.len();
    let t = pts[k].position as int;
    if n >= 2 {
        assert(pts[0].position <= t <= pts[n - 1].position);
        lemma_rgb_blend_ends(pts[0].color, pts[1].color);
        if k == 0 {
            lemma_bracket_found(pts, t, 0);
            assert(bracket_from(pts, t, 0) == 0);
            let segment = pts[1].position - pts[0].position;
            assert(segment > 0);
            assert((t - pts[0].position) * ONE / segment == 0);
        } else {
            lemma_bracket_at_point(pts, k, 0);
            lemma_rgb_blend_ends(pts[k - 1].color, pts[k].color);
            let segment = pts[k].position - pts[k - 1].position;
            assert(segment > 0);
            vstd::arithmetic::div_mod::lemma_div_multiples_vanish(ONE as int, segment);
            assert((t - pts[k - 1].position) * ONE == segment * ONE) by (nonlinear_arith)
                requires
                    segment == t - pts[k - 1].position,
            ;
            assert((t - pts[k - 1].position) * ONE / segment == ONE);
        }
    }
}

/// Changing the color of one control point leaves every sample outside the span between its
/// neighbors as it was: a sample before the previous point or after the next point does not
/// read the changed color.
pub proof fn lemma_recolor_is_local(s: SwatchModel, k: int, color: ColorRgba, t: int)
    requires
        s.wf(),
        0 <= k < s.points.len(),
        0 <= t <= ONE,
        (k > 0 && t < s.points[k - 1].position) || (k + 1 < s.points.len() && t > s.points[k + 1].position),
    ensures
        (SwatchModel { points: recolored(s.points, k, color), ..s }).sample(t) == s.sample(t),
{
    let pts = s.points;
    let n = pts.len();
    let s2 = SwatchModel { points: recolored(s.points, k, color), ..s };
    let pts2 = s2.points;
    assert(forall|j: int| 0 <= j < n ==> #[trigger] pts[j].position == pts2[j].position);
    if t < pts[0].position {
        assert(k != 0);
    } else if t > pts[n - 1].position {
        assert(k != n - 1);
    } else {
        lemma_bracket_found(pts, t, 0);
        lemma_bracket_same_positions(pts, pts2, t, 0);
        let b = bracket_from(pts, t, 0);
        if k > 0 && t < pts[k - 1].position {
            assert(b + 1 <= k - 1);
        } else {
            assert(b >= k + 1);
        }
    }
}

/// Changing the color of one control point leaves every generated color sampled before the
/// previous point or after the next point as it was.
pub proof fn lemma_recolor_keeps_far_colors(s: SwatchModel, k: int, color: ColorRgba, i: int)
    requires
        s.wf(),
        0 <= k < s.points.len(),
        0 <= i < s.size,
        (k > 0 && sample_position(s.size as int, i) < s.points[k - 1].position) || (k + 1 < s.points.len()
            && sample_position(s.size as int, i) > s.points[k + 1].position),
    ensures
        (SwatchModel { points: recolored(s.points, k, color), ..s }).generated()[i] == s.generated()[i],
{
    let t = sample_position(s.size as int, i);
    if s.size > 1 {
        assert(0 <= i * ONE < (s.size - 1) * (ONE + 1)) by (nonlinear_arith)
            requires
                0 <= i <= s.size - 1,
                s.size > 1,
        ;
        lemma_div_between(i * ONE, s.size - 1, 0, ONE as int);
    }
    lemma_recolor_is_local(s, k, color, t);
}

/// The generated colors depend on the size, the control points, the curve and the color space
/// alone, so generating twice from an unchanged ramp gives the same colors.
pub proof fn lemma_generated_depends_on_ramp(a: SwatchModel, b: SwatchModel)
    requires
        a.size == b.size,
        a.points == b.points,
        a.curve == b.curve,
        a.space == b.space,
    ensures
        a.generated() == b.generated(),
{
    assert(a.generated() =~= b.generated());
}

/// A ramp without control points generates opaque black for every color.
pub proof fn lemma_no_points_all_black(s: SwatchModel)
    requires
        s.points.len() == 0,
    ensures
        s.generated() == Seq::new(s.size as nat, |i: int| black()),
{
    assert(s.generated() =~= Seq::new(s.size as nat, |i: int| black()));
}

/// Where `x` goes among sorted integers: before the first greater one.
pub open spec fn int_insert_index(s: Seq<i64>, x: int) -> int
    decreases s.len(),
{
    if s.len() == 0 {
        0
    } else if s[0] > x {
        0
    } else {
        1 + int_insert_index(s.drop_first(), x)
    }
}

/// The integers in ascending order, by inserting each in turn.
pub open spec fn sorted_ints(s: Seq<i64>) -> Seq<i64>
    decreases s.len(),
{
    if s.len() == 0 {
        Seq::empty()
    } else {
        let rest = sorted_ints(s.drop_last());
        rest.insert(int_insert_index(rest, s.last() as int), s.last())
    }
}

proof fn lemma_int_insert_index(s: Seq<i64>, x: int, k: int)
    requires
        0 <= k <= s.len(),
        forall|j: int| 0 <= j < k ==> s[j] <= x,
        k < s.len() ==> s[k] > x,
    ensures
        int_insert_index(s, x) == k,
    decreases s.len(),
{
    if s.len() > 0 && k > 0 {
        assert forall|j: int| 0 <= j < k - 1 implies s.drop_first()[j] <= x by {
            assert(s.drop_first()[j] == s[j + 1]);
        }
        lemma_int_insert_index(s.drop_first(), x, k - 1);
    }
}

fn sort_ints(v: &Vec<i64>) -> (r: Vec<i64>)
    ensures
        r@ == sorted_ints(v@),
        r@.len() == v@.len(),
        forall|i: int, j: int| 0 <= i < j < r@.len() ==> r@[i] <= r@[j],
{
    let mut out: Vec<i64> = Vec::new();
    let mut i: usize = 0;
    while i < v.len()
        invariant
            i <= v@.len(),
            out@ == sorted_ints(v@.subrange(0, i as int)),
            out@.len() == i,
            forall|a: int, b: int| 0 <= a < b < out@.len() ==> out@[a] <= out@[b],
        decreases v@.len() - i,
    {
        let x = v[i];
        let mut k: usize = 0;
        while k < out.len() && out[k] <= x
            invariant
                k <= out@.len(),
                forall|j: int| 0 <= j < k ==> out@[j] <= x,
            decreases out@.len() - k,
        {
            k = k + 1;
        }
        proof {
            lemma_int_insert_index(out@, x as int, k as int);
            let next = v@.subrange(0, i + 1);
            assert(next.drop_last() =~= v@.subrange(0, i as int));
            assert(next.last() == x);
        }
        let ghost before = out@;
        out.insert(k, x);
        assert forall|a: int, b: int| 0 <= a < b < out@.len() implies out@[a] <= out@[b] by {
            if b < k as int {
            } else if b == k {
            } else if a < k {
                assert(before[k as int] <= before[b - 1]);
            } else if a == k {
                assert(before[k as int] <= before[b - 1]);
            } else {
            }
        }
        i = i + 1;
    }
    assert(v@.subrange(0, v@.len() as int) =~= v@);
    out
}

/// The width and middle of gap `j` of sorted positions: gap 0 runs from zero to the first
/// position, gap `j` from position `j - 1` to position `j`, and the last gap from the last
/// position to `ONE`.
pub open spec fn gap_at(s: Seq<i64>, j: int) -> (int, int) {
    if j == 0 {
        (s[0] as int, s[0] / 2)
    } else if j < s.len() {
        (s[j] - s[j - 1], (s[j - 1] + s[j]) / 2)
    } else {
        (ONE - s[s.len() - 1], (ONE + s[s.len() - 1]) / 2)
    }
}

/// Gap `k` is the first of the widest gaps.
pub open spec fn is_first_widest(s: Seq<i64>, k: int) -> bool {
    &&& 0 <= k <= s.len()
    &&& forall|j: int| 0 <= j < k ==> gap_at(s, j).0 < gap_at(s, k).0
    &&& forall|j: int| k < j <= s.len() ==> gap_at(s, j).0 <= gap_at(s, k).0
}

/// Where to put a new control point: the middle of the first widest gap between the given
/// positions (taken in ascending order), zero and `ONE`; the middle of the ramp if there are
/// no positions.
pub open spec fn best_gap(positions: Seq<i64>) -> int {
    if positions.len() == 0 {
        ONE / 2
    } else {
        gap_at(sorted_ints(positions), choose|k: int| is_first_widest(sorted_ints(positions), k)).1
    }
}

fn gap_exec(s: &Vec<i64>, j: usize) -> (r: (i128, i128))
    requires
        s@.len() >= 1,
        j <= s@.len(),
    ensures
        (r.0 as int, r.1 as int) == gap_at(s@, j as int),
{
    let n = s.len();
    if j == 0 {
        (s[0] as i128, crate::fixed::div_floor(s[0] as i128, 2))
    } else if j < n {
        (s[j] as i128 - s[j - 1] as i128, crate::fixed::div_floor(s[j - 1] as i128 + s[j] as i128, 2))
    } else {
        (ONE as i128 - s[n - 1] as i128, crate::fixed::div_floor(ONE as i128 + s[n - 1] as i128, 2))
    }
}

/// Where to put a new control point among the given positions: the middle of the first
/// widest gap.
pub fn find_best_gap(positions: &Vec<i64>) -> (r: i64)
    ensures
        r == best_gap(positions@),
{
    if positions.len() == 0 {
        return ONE / 2;
    }
    let sorted = sort_ints(positions);
    let n = sorted.len();
    let (g0, p0) = gap_exec(&sorted, 0);
    let mut best_gap_width = g0;
    let mut best_pos = p0;
    let ghost mut best: int = 0;
    let mut j: usize = 1;
    while j < n
        invariant
            n == sorted@.len(),
            n >= 1,
            1 <= j <= n,
            0 <= best < j,
            (best_gap_width as int, best_pos as int) == gap_at(sorted@, best),
            forall|i: int| 0 <= i < best ==> gap_at(sorted@, i).0 < gap_at(sorted@, best).0,
            forall|i: int| best < i < j ==> gap_at(sorted@, i).0 <= gap_at(sorted@, best).0,
        decreases n - j,
    {
        let (g, p) = gap_exec(&sorted, j);
        if g > best_gap_width {
            best_gap_width = g;
            best_pos = p;
            proof {
                best = j as int;
            }
        }
        j = j + 1;
    }
    let (g_last, p_last) = gap_exec(&sorted, n);
    if g_last > best_gap_width {
        best_gap_width = g_last;
        best_pos = p_last;
        proof {
            best = n as int;
        }
    }
    proof {
        assert(is_first_widest(sorted@, best));
        let c = choose|k: int| is_first_widest(sorted@, k);
        assert(is_first_widest(sorted@, c));
        if c < best {
            assert(gap_at(sorted@, c).0 < gap_at(sorted@, best).0);
        } else if best < c {
            assert(gap_at(sorted@, best).0 < gap_at(sorted@, c).0);
        }
    }
    assert(i64::MIN <= best_pos <= i64::MAX) by {
        let s = sorted@;
        if best == 0 {
            crate::fixed::lemma_div_shrinks(s[0] as int, 2);
        } else if best < n {
            crate::fixed::lemma_div_between(s[best - 1] + s[best], 2, i64::MIN as int, i64::MAX as int);
        } else {
            crate::fixed::lemma_div_between(ONE + s[n - 1], 2, i64::MIN as int, i64::MAX as int);
        }
    }
    best_pos as i64
}

} // verus!
