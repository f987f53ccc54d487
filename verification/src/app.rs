use vstd::prelude::*;
use crate::bands::BandBoundaryTable;
use crate::bands::band_vector;
use crate::bands::spec_band_value;

verus! {

/// Per-frame meter state: the band vector being displayed and the one it
/// superseded, together with the bar geometry the renderer last used.
pub struct App {
    pub bands: Vec<u64>,
    pub old_bands: Vec<u64>,
    pub bar_width: u16,
    pub bar_gap: u16,
}

impl App {
    pub fn new() -> (app: App)
        ensures
            app.bands@ =~= Seq::<u64>::empty(),
            app.old_bands@ =~= Seq::<u64>::empty(),
            app.bar_width == 1,
            app.bar_gap == 1,
    {
        App { bands: Vec::new(), old_bands: Vec::new(), bar_gap: 1, bar_width: 1 }
    }

    /// Makes `vec` the current band vector, retaining the superseded one.
    pub fn update_bands(&mut self, vec: Vec<u64>)
        ensures
            final(self).bands@ == vec@,
            final(self).old_bands@ == old(self).bands@,
            final(self).bar_width == old(self).bar_width,
            final(self).bar_gap == old(self).bar_gap,
    {
        let copy = self.bands.clone();
        proof {
            assert(copy@ =~= self.bands@);
        }
        self.old_bands = copy;
        self.bands = vec;
    }

    /// One analysis cycle past the transform: maps the frame's per-bin
    /// levels (milli-decibels) through the band pipeline, smoothing
    /// against the band vector currently displayed, and makes the result
    /// current.
    pub fn apply_spectrum(&mut self, spectrum: &Vec<i32>, table: &BandBoundaryTable)
        requires
            table.wf(),
            table.bands@.len() <= 0x1000_0000,
            forall|k: int| 0 <= k < old(self).bands@.len() ==> #[trigger] old(self).bands@[k]
                <= 100,
        ensures
            final(self).old_bands@ == old(self).bands@,
            final(self).bands@.len() == table.bands@.len(),
            forall|i: int| 0 <= i < table.bands@.len() ==> #[trigger] final(self).bands@[i]
                == spec_band_value(spectrum@, table.bands@, old(self).bands@, i),
            forall|i: int| 0 <= i < table.bands@.len() ==> #[trigger] final(self).bands@[i] <= 100,
            final(self).bar_width == old(self).bar_width,
            final(self).bar_gap == old(self).bar_gap,
    {
        let vec = band_vector(spectrum, table, &self.bands);
        self.update_bands(vec);
    }
}

} // verus!
