//! The application state: a palette, the ramp being edited, and the colors generated for
//! every ramp, kept in step with the ramps.
use vstd::prelude::*;

use crate::color::ColorRgba;
use crate::palette::{default_swatch, swap_entries, Palette, Swatch, SwatchModel};

verus! {

/// A palette of ramps, the index of the selected ramp, and each ramp's generated colors.
pub struct App {
    palette: Palette,
    current_swatch_index: usize,
    generated_colors: Vec<Vec<ColorRgba>>,
}

impl App {
    /// The ramps.
    pub closed spec fn swatches(&self) -> Seq<SwatchModel> {
        self.palette@
    }

    /// The index of the selected ramp.
    pub closed spec fn current(&self) -> int {
        self.current_swatch_index as int
    }

    /// The stored generated colors, one sequence per ramp.
    pub closed spec fn cache(&self) -> Seq<Seq<ColorRgba>> {
        self.generated_colors@.map_values(|v: Vec<ColorRgba>| v@)
    }

    /// At least one well-formed ramp, and a selection that names a ramp.
    pub open spec fn ramps_ok(&self) -> bool {
        &&& self.swatches().len() >= 1
        &&& forall|i: int| 0 <= i < self.swatches().len() ==> (#[trigger] self.swatches()[i]).wf()
        &&& 0 <= self.current() < self.swatches().len()
    }

    /// The invariant: `ramps_ok`, and one cache entry per ramp.
    pub open spec fn wf(&self) -> bool {
        &&& self.ramps_ok()
        &&& self.cache().len() == self.swatches().len()
    }

    /// Every cache entry holds what its ramp generates.
    pub open spec fn consistent(&self) -> bool {
        forall|i: int| 0 <= i < self.swatches().len() ==> #[trigger] self.cache()[i] == self.swatches()[i].generated()
    }

    /// A palette with the default ramp, selected, and its colors generated.
    pub fn new() -> (app: App)
        ensures
            app.wf(),
            app.consistent(),
            app.swatches() == seq![default_swatch()],
            app.current() == 0,
    {
        let palette = Palette::new();
        let mut app = App { palette, current_swatch_index: 0, generated_colors: Vec::new() };
        app.regenerate_all_colors();
        app
    }

    /// The palette.
    pub fn palette(&self) -> (r: &Palette)
        ensures
            r@ == self.swatches(),
    {
        &self.palette
    }

    /// The index of the selected ramp.
    pub fn current_swatch_index(&self) -> (r: usize)
        ensures
            r == self.current(),
    {
        self.current_swatch_index
    }

    /// The generated colors, one sequence per ramp.
    pub fn generated_colors(&self) -> (r: &Vec<Vec<ColorRgba>>)
        ensures
            r@.map_values(|v: Vec<ColorRgba>| v@) == self.cache(),
    {
        &self.generated_colors
    }

    /// The selected ramp.
    pub fn current_swatch(&self) -> (r: &Swatch)
        requires
            self.wf(),
        ensures
            r@ == self.swatches()[self.current()],
    {
        self.palette.get(self.current_swatch_index)
    }

    /// The selected ramp, to edit in place. Its cache entry is not refreshed: call
    /// `regenerate_current_colors` after the edit.
    pub fn current_swatch_mut(&mut self) -> (r: &mut Swatch)
        requires
            old(self).wf(),
        ensures
            (*r)@ == old(self).swatches()[old(self).current()],
            final(self).swatches() == old(self).swatches().update(old(self).current(), (*final(r))@),
            final(self).current() == old(self).current(),
            final(self).cache() == old(self).cache(),
    {
        self.palette.get_mut(self.current_swatch_index)
    }

    /// Regenerates the colors of every ramp.
    pub fn regenerate_all_colors(&mut self)
        requires
            old(self).ramps_ok(),
        ensures
            final(self).wf(),
            final(self).consistent(),
            final(self).swatches() == old(self).swatches(),
            final(self).current() == old(self).current(),
    {
        let mut colors: Vec<Vec<ColorRgba>> = Vec::new();
        let n = self.palette.len();
        let mut i: usize = 0;
        while i < n
            invariant
                n == self.palette@.len(),
                self.palette.wf(),
                i <= n,
                colors@.len() == i,
                forall|j: int| 0 <= j < i ==> (#[trigger] colors@[j])@ == self.palette@[j].generated(),
            decreases n - i,
        {
            let c = self.palette.get(i).generate_colors();
            colors.push(c);
            i = i + 1;
        }
        self.generated_colors = colors;
    }

    /// Regenerates the colors of the selected ramp.
    pub fn regenerate_current_colors(&mut self)
        requires
            old(self).wf(),
        ensures
            final(self).wf(),
            final(self).swatches() == old(self).swatches(),
            final(self).current() == old(self).current(),
            final(self).cache() == old(self).cache().update(old(self).current(), old(self).swatches()[old(self).current()].generated()),
    {
        let i = self.current_swatch_index;
        if i < self.generated_colors.len() {
            let c = self.palette.get(i).generate_colors();
            self.generated_colors.set(i, c);
        }
        assert(self.cache() =~= old(self).cache().update(old(self).current(), old(self).swatches()[old(self).current()].generated()));
    }

    /// Appends a ramp and generates its colors.
    pub fn add_swatch(&mut self, swatch: Swatch)
        requires
            old(self).wf(),
            swatch@.wf(),
        ensures
            final(self).wf(),
            final(self).swatches() == old(self).swatches().push(swatch@),
            final(self).cache() == old(self).cache().push(swatch@.generated()),
            final(self).current() == old(self).current(),
    {
        let c = swatch.generate_colors();
        self.palette.add_swatch(swatch);
        self.generated_colors.push(c);
        assert(self.cache() =~= old(self).cache().push(swatch@.generated()));
    }

    /// Removes the ramp at `index` and its colors, unless it is the only ramp or `index` names
    /// no ramp. The selection moves to the last ramp if it named one past the end.
    pub fn remove_swatch(&mut self, index: usize)
        requires
            old(self).wf(),
        ensures
            final(self).wf(),
            old(self).consistent() ==> final(self).consistent(),
            old(self).swatches().len() <= 1 || index >= old(self).swatches().len() ==> final(self).swatches()
                == old(self).swatches() && final(self).cache() == old(self).cache() && final(self).current()
                == old(self).current(),
            old(self).swatches().len() > 1 && index < old(self).swatches().len() ==> {
                &&& final(self).swatches() == old(self).swatches().remove(index as int)
                &&& final(self).cache() == old(self).cache().remove(index as int)
                &&& final(self).current() == if old(self).current() >= old(self).swatches().len() - 1 {
                    old(self).swatches().len() - 2
                } else {
                    old(self).current()
                }
            },
    {
        let n = self.palette.len();
        if n <= 1 {
            return;
        }
        if index < n {
            self.palette.remove(index);
            self.generated_colors.remove(index);
            if self.current_swatch_index >= n - 1 {
                self.current_swatch_index = n - 2;
            }
            assert(self.cache() =~= old(self).cache().remove(index as int));
        }
    }

    /// Swaps the ramp at `index` with the one before it, with their colors; the selection
    /// follows a moved ramp.
    pub fn move_swatch_up(&mut self, index: usize)
        requires
            old(self).wf(),
        ensures
            final(self).wf(),
            old(self).consistent() ==> final(self).consistent(),
            0 < index < old(self).swatches().len() ==> final(self).parts() == old(self).swapped(index as int, index - 1),
            !(0 < index < old(self).swatches().len()) ==> final(self).parts() == old(self).parts(),
    {
        if index > 0 && index < self.palette.len() {
            self.swap_swatches(index, index - 1);
        }
    }

    /// Swaps the ramp at `index` with the one after it, with their colors; the selection
    /// follows a moved ramp.
    pub fn move_swatch_down(&mut self, index: usize)
        requires
            old(self).wf(),
        ensures
            final(self).wf(),
            old(self).consistent() ==> final(self).consistent(),
            index + 1 < old(self).swatches().len() ==> final(self).parts() == old(self).swapped(index as int, index + 1),
            !(index + 1 < old(self).swatches().len()) ==> final(self).parts() == old(self).parts(),
    {
        if index < self.palette.len() && index + 1 < self.palette.len() {
            self.swap_swatches(index, index + 1);
        }
    }

    /// The state with the ramps at `a` and `b` exchanged, with their colors, and the
    /// selection following the ramp it named.
    pub open spec fn swapped(&self, a: int, b: int) -> AppParts {
        AppParts {
            swatches: self.swatches().update(a, self.swatches()[b]).update(b, self.swatches()[a]),
            cache: self.cache().update(a, self.cache()[b]).update(b, self.cache()[a]),
            current: if self.current() == a {
                b
            } else if self.current() == b {
                a
            } else {
                self.current()
            },
        }
    }

    /// The parts of the state that structural operations change.
    pub open spec fn parts(&self) -> AppParts {
        AppParts { swatches: self.swatches(), cache: self.cache(), current: self.current() }
    }

    /// Inserts a copy of the ramp at `index` right after it and generates its colors.
    pub fn duplicate_swatch(&mut self, index: usize)
        requires
            old(self).wf(),
        ensures
            final(self).wf(),
            old(self).consistent() ==> final(self).consistent(),
            index < old(self).swatches().len() ==> {
                &&& final(self).swatches() == old(self).swatches().insert(index + 1, old(self).swatches()[index as int])
                &&& final(self).cache() == old(self).cache().insert(index + 1, old(self).swatches()[index as int].generated())
            },
            index >= old(self).swatches().len() ==> final(self).swatches() == old(self).swatches()
                && final(self).cache() == old(self).cache(),
            final(self).current() == old(self).current(),
    {
        if index < self.palette.len() {
            let copy = self.palette.get(index).duplicate();
            let c = copy.generate_colors();
            self.palette.insert(index + 1, copy);
            self.generated_colors.insert(index + 1, c);
            assert(self.cache() =~= old(self).cache().insert(index + 1, old(self).swatches()[index as int].generated()));
        }
    }

    /// Exchanges the ramps at `a` and `b` with their colors; the selection follows the ramp
    /// it named. Nothing changes if either index names no ramp or they are equal.
    pub fn swap_swatches(&mut self, a: usize, b: usize)
        requires
            old(self).wf(),
        ensures
            final(self).wf(),
            old(self).consistent() ==> final(self).consistent(),
            a < old(self).swatches().len() && b < old(self).swatches().len() && a != b ==> final(self).parts()
                == old(self).swapped(a as int, b as int),
            !(a < old(self).swatches().len() && b < old(self).swatches().len() && a != b) ==> final(self).parts()
                == old(self).parts(),
    {
        let n = self.palette.len();
        if a >= n || b >= n || a == b {
            return;
        }
        self.palette.swap(a, b);
        swap_entries(&mut self.generated_colors, a, b);
        if self.current_swatch_index == a {
            self.current_swatch_index = b;
        } else if self.current_swatch_index == b {
            self.current_swatch_index = a;
        }
        assert(self.cache() =~= old(self).cache().update(a as int, old(self).cache()[b as int]).update(b as int, old(self).cache()[a as int]));
    }

    /// Selects the ramp at `index`; an index that names no ramp is ignored.
    pub fn select_swatch(&mut self, index: usize)
        requires
            old(self).wf(),
        ensures
            final(self).wf(),
            final(self).swatches() == old(self).swatches(),
            final(self).cache() == old(self).cache(),
            final(self).current() == if index < old(self).swatches().len() {
                index as int
            } else {
                old(self).current()
            },
    {
        if index < self.palette.len() {
            self.current_swatch_index = index;
        }
    }

    /// The number of ramps.
    pub fn swatch_count(&self) -> (r: usize)
        ensures
            r == self.swatches().len(),
    {
        self.palette.len()
    }
}

/// The ramps, their generated colors and the selection.
pub struct AppParts {
    pub swatches: Seq<SwatchModel>,
    pub cache: Seq<Seq<ColorRgba>>,
    pub current: int,
}

impl Default for App {
    fn default() -> (app: App)
        ensures
            app.wf(),
            app.consistent(),
    {
        App::new()
    }
}

} // verus!
