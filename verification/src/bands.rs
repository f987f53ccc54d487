use vstd::prelude::*;

verus! {

/// Number of frequency bands in the meter.
pub const BANDS: usize = 16;

/// Live samples in one analysis frame.
pub const FRAME_LEN: usize = 1024;

/// Transform size the frame is zero-padded to; the usable spectrum is the
/// first `TRANSFORM_LEN / 2` bins.
pub const TRANSFORM_LEN: usize = 4096;

/// Design capacity of the capture ring buffer.
pub const RING_CAPACITY: usize = 8192;

/// Per-band tilt, in milli-decibels per band index: +1.2 dB per band, to
/// give high bands comparable visual weight to low bands.
pub const TILT_MDB: i64 = 1200;

/// Width of the dynamic-range window, in milli-decibels: levels are mapped
/// from [-60 dB, 0 dB] onto the meter range.
pub const WINDOW_MDB: i64 = 60000;

/// Level assigned to a band with no bins, in milli-decibels: the level of a
/// zero magnitude under the epsilon-guarded logarithm, 20 * log10(1e-7) dB.
pub const FLOOR_MDB: i64 = -140000;

/// Half-open range of transform-bin indices belonging to one band.
#[derive(Clone, Copy, Debug, PartialEq, Eq, Structural)]
pub struct Band {
    pub start: usize,
    pub end: usize,
}

/// The band boundary table: maps each band index to its bin range.
/// Computed once at startup from the rounded target end bins of the
/// logarithmic frequency mapping; immutable thereafter.
pub struct BandBoundaryTable {
    pub bands: Vec<Band>,
}

/// Bins are contiguous and strictly increasing: every band is non-empty,
/// each band ends exactly where the next one starts, and band 0 starts at
/// bin 1, so the DC bin is excluded.
pub open spec fn table_wf(t: Seq<Band>) -> bool {
    &&& t.len() > 0 ==> t[0].start == 1
    &&& forall|i: int| 0 <= i < t.len() ==> (#[trigger] t[i]).start < t[i].end
    &&& forall|i: int| 0 <= i < t.len() - 1 ==> (#[trigger] t[i]).end == t[i + 1].start
}

/// End bin of band `i` as the table construction fixes it: the rounded
/// target end bin, forced up to width at least one bin.
pub open spec fn spec_band_end(targets: Seq<usize>, i: int) -> int
    decreases i,
{
    let s = spec_band_start(targets, i);
    if targets[i] > s {
        targets[i] as int
    } else {
        s + 1
    }
}

/// Start bin of band `i`: bin 1 for band 0, else the previous band's end.
pub open spec fn spec_band_start(targets: Seq<usize>, i: int) -> int
    decreases i, 1int,
{
    if i <= 0 {
        1
    } else {
        spec_band_end(targets, i - 1)
    }
}

impl BandBoundaryTable {
    pub open spec fn wf(&self) -> bool {
        table_wf(self.bands@)
    }

    /// Builds the table from the target end bin of each band (the rounded
    /// bin of each band's upper frequency edge).  Bands whose natural
    /// width would be zero are forced to width one, and every later band
    /// starts exactly where its predecessor ends.
    pub fn from_targets(targets: &Vec<usize>) -> (t: BandBoundaryTable)
        requires
            targets@.len() <= 0x1000_0000,
            forall|i: int| 0 <= i < targets@.len() ==> #[trigger] targets@[i] <= 0x1000_0000,
        ensures
            t.wf(),
            t.bands@.len() == targets@.len(),
            forall|i: int| 0 <= i < targets@.len() ==> {
                &&& (#[trigger] t.bands@[i]).start == spec_band_start(targets@, i)
                &&& t.bands@[i].end == spec_band_end(targets@, i)
            },
    {
        let mut bands: Vec<Band> = Vec::new();
        let mut current: usize = 1;
        let mut i: usize = 0;
        while i < targets.len()
            invariant
                i <= targets@.len(),
                targets@.len() <= 0x1000_0000,
                forall|k: int| 0 <= k < targets@.len() ==> #[trigger] targets@[k] <= 0x1000_0000,
                bands@.len() == i,
                current == spec_band_start(targets@, i as int),
                current <= 0x1000_0000 + i + 1,
                forall|k: int| 0 <= k < i ==> {
                    &&& (#[trigger] bands@[k]).start == spec_band_start(targets@, k)
                    &&& bands@[k].end == spec_band_end(targets@, k)
                },
            decreases targets@.len() - i,
        {
            let target = targets[i];
            let start = current;
            let end = if target > start {
                target
            } else {
                start + 1
            };
            bands.push(Band { start, end });
            current = end;
            i = i + 1;
        }
        proof {
            assert forall|k: int| 0 <= k < targets@.len() implies (#[trigger] bands@[k]).start
                < bands@[k].end by {}
        }
        BandBoundaryTable { bands }
    }

    /// Runtime check of the table invariant, for callers outside the
    /// verified core.
    pub fn is_wf(&self) -> (ok: bool)
        ensures
            ok == self.wf(),
    {
        let n = self.bands.len();
        if n == 0 {
            return true;
        }
        if self.bands[0].start != 1 {
            return false;
        }
        let mut i: usize = 0;
        while i < n
            invariant
                n == self.bands@.len(),
                i <= n,
                n > 0 ==> self.bands@[0].start == 1,
                forall|k: int| 0 <= k < i ==> (#[trigger] self.bands@[k]).start < self.bands@[k].end,
                forall|k: int| 0 <= k < i && k < n - 1 ==> (#[trigger] self.bands@[k]).end
                    == self.bands@[k + 1].start,
            decreases n - i,
        {
            let b = self.bands[i];
            if b.start >= b.end {
                return false;
            }
            if i + 1 < n && b.end != self.bands[i + 1].start {
                return false;
            }
            i = i + 1;
        }
        true
    }

    pub fn len(&self) -> (n: usize)
        ensures
            n == self.bands@.len(),
    {
        self.bands.len()
    }
}

/// Contiguity and strict growth of a well-formed table, stated directly:
/// each band's end exceeds its start and equals the next band's start.
pub proof fn lemma_table_contiguous(t: Seq<Band>)
    requires
        table_wf(t),
    ensures
        forall|i: int| 0 <= i < t.len() ==> (#[trigger] t[i]).end > t[i].start,
        forall|i: int| 0 <= i < t.len() - 1 ==> (#[trigger] t[i]).end == t[i + 1].start,
{
}

/// Peak level among the bins of `spectrum` with index in `[lo, hi)`, in
/// milli-decibels, starting from the floor level: the peak of an empty
/// range is the level of silence.
pub open spec fn spec_peak(spectrum: Seq<i32>, lo: int, hi: int) -> int
    decreases hi - lo,
{
    if lo >= hi {
        FLOOR_MDB as int
    } else if spectrum[hi - 1] > spec_peak(spectrum, lo, hi - 1) {
        spectrum[hi - 1] as int
    } else {
        spec_peak(spectrum, lo, hi - 1)
    }
}

/// Peak level of band `i`: its bin range, clamped to the valid bin count.
pub open spec fn spec_band_peak(spectrum: Seq<i32>, t: Seq<Band>, i: int) -> int {
    let lo = if t[i].start <= spectrum.len() {
        t[i].start as int
    } else {
        spectrum.len() as int
    };
    let hi = if t[i].end <= spectrum.len() {
        t[i].end as int
    } else {
        spectrum.len() as int
    };
    spec_peak(spectrum, lo, hi)
}

/// Meter value for a level `mdb` (milli-decibels) at band index `idx`:
/// tilt by `TILT_MDB` per band, place in the `[-WINDOW_MDB, 0]` window,
/// clamp, and scale to 0..=100.
pub open spec fn spec_normalize(mdb: int, idx: int) -> int {
    let shifted = mdb + TILT_MDB * idx + WINDOW_MDB;
    let clamped = if shifted < 0 {
        0
    } else if shifted > WINDOW_MDB {
        WINDOW_MDB as int
    } else {
        shifted
    };
    clamped * 100 / (WINDOW_MDB as int)
}

/// Meter ballistics: a rising or flat value passes through unsmoothed, a
/// falling value is blended as round(0.2 * new + 0.8 * previous).
pub open spec fn spec_smooth(prev: int, new: int) -> int {
    if new >= prev {
        new
    } else {
        (2 * new + 8 * prev + 5) / 10
    }
}

/// Raw (pre-smoothing) meter value of band `i`.
pub open spec fn spec_raw_band(spectrum: Seq<i32>, t: Seq<Band>, i: int) -> int {
    spec_normalize(spec_band_peak(spectrum, t, i), i)
}

/// Final meter value of band `i`, smoothed against the previous frame's
/// value where one exists.
pub open spec fn spec_band_value(spectrum: Seq<i32>, t: Seq<Band>, prev: Seq<u64>, i: int) -> int {
    if i < prev.len() {
        spec_smooth(prev[i] as int, spec_raw_band(spectrum, t, i))
    } else {
        spec_raw_band(spectrum, t, i)
    }
}

/// A peak over in-range bins lies between the silence floor and `i32::MAX`.
pub proof fn lemma_peak_bounds(spectrum: Seq<i32>, lo: int, hi: int)
    requires
        0 <= lo,
        hi <= spectrum.len(),
    ensures
        FLOOR_MDB <= spec_peak(spectrum, lo, hi) <= i32::MAX,
    decreases hi - lo,
{
    if lo < hi {
        lemma_peak_bounds(spectrum, lo, hi - 1);
    }
}

/// The normalized meter value always lies in 0..=100.
pub proof fn lemma_normalize_in_range(mdb: int, idx: int)
    ensures
        0 <= spec_normalize(mdb, idx) <= 100,
{
}

/// Smoothing keeps a value in 0..=100 when both inputs are, and never
/// falls below the new value nor rises above a falling previous value.
pub proof fn lemma_smooth_in_range(prev: int, new: int)
    requires
        0 <= prev <= 100,
        0 <= new <= 100,
    ensures
        0 <= spec_smooth(prev, new) <= 100,
        spec_smooth(prev, new) >= new,
        new < prev ==> spec_smooth(prev, new) <= prev,
{
}

/// Every band value lies in 0..=100, provided the previous frame's values
/// do: the meter range invariant of the whole pipeline.
pub proof fn lemma_band_value_in_range(spectrum: Seq<i32>, t: Seq<Band>, prev: Seq<u64>, i: int)
    requires
        0 <= i < t.len(),
        forall|k: int| 0 <= k < prev.len() ==> #[trigger] prev[k] <= 100,
    ensures
        0 <= spec_band_value(spectrum, t, prev, i) <= 100,
{
    lemma_normalize_in_range(spec_band_peak(spectrum, t, i), i);
    if i < prev.len() {
        lemma_smooth_in_range(prev[i] as int, spec_raw_band(spectrum, t, i));
    }
}

/// A peak never exceeds a bound that all bins and the floor respect.
pub proof fn lemma_peak_le(spectrum: Seq<i32>, lo: int, hi: int, bound: int)
    requires
        0 <= lo,
        hi <= spectrum.len(),
        FLOOR_MDB <= bound,
        forall|b: int| 0 <= b < spectrum.len() ==> #[trigger] spectrum[b] <= bound,
    ensures
        spec_peak(spectrum, lo, hi) <= bound,
    decreases hi - lo,
{
    if lo < hi {
        lemma_peak_le(spectrum, lo, hi - 1, bound);
    }
}

/// Silence yields a dark meter: when every bin sits at or below the level
/// that even the strongest tilt cannot lift into the display window, and
/// the previous frame was all zero, every band value is zero.
pub proof fn lemma_silence_yields_zero(spectrum: Seq<i32>, t: Seq<Band>, prev: Seq<u64>)
    requires
        table_wf(t),
        t.len() <= BANDS,
        forall|b: int| 0 <= b < spectrum.len() ==> #[trigger] spectrum[b]
            <= FLOOR_MDB + WINDOW_MDB,
        forall|k: int| 0 <= k < prev.len() ==> #[trigger] prev[k] == 0,
    ensures
        forall|i: int| 0 <= i < t.len() ==> spec_band_value(spectrum, t, prev, i) == 0,
{
    assert forall|i: int| 0 <= i < t.len() implies spec_band_value(spectrum, t, prev, i) == 0 by {
        let lo = if t[i].start <= spectrum.len() {
            t[i].start as int
        } else {
            spectrum.len() as int
        };
        let hi = if t[i].end <= spectrum.len() {
            t[i].end as int
        } else {
            spectrum.len() as int
        };
        lemma_peak_le(spectrum, lo, hi, FLOOR_MDB + WINDOW_MDB);
        let peak = spec_band_peak(spectrum, t, i);
        let shifted = peak + TILT_MDB * i + WINDOW_MDB;
        assert(TILT_MDB * i <= TILT_MDB * (BANDS - 1)) by (nonlinear_arith)
            requires
                0 <= i <= BANDS - 1,
        ;
        assert(shifted < 600);
        assert(spec_raw_band(spectrum, t, i) == 0);
    }
}

/// A dominant band stands out: if band `k`'s tilted peak lies inside the
/// display window and exceeds every other band's tilted peak by at least
/// one meter step (600 milli-decibels), band `k`'s raw value is strictly
/// the greatest.
pub proof fn lemma_dominant_band(spectrum: Seq<i32>, t: Seq<Band>, k: int)
    requires
        table_wf(t),
        0 <= k < t.len(),
        600 - WINDOW_MDB <= spec_band_peak(spectrum, t, k) + TILT_MDB * k <= 0,
        forall|j: int| 0 <= j < t.len() && j != k ==> spec_band_peak(spectrum, t, j) + TILT_MDB * j
            <= spec_band_peak(spectrum, t, k) + TILT_MDB * k - 600,
    ensures
        forall|j: int| 0 <= j < t.len() && j != k ==> spec_raw_band(spectrum, t, j)
            < spec_raw_band(spectrum, t, k),
{
    let ck = spec_band_peak(spectrum, t, k) + TILT_MDB * k + WINDOW_MDB;
    assert forall|j: int| 0 <= j < t.len() && j != k implies spec_raw_band(spectrum, t, j)
        < spec_raw_band(spectrum, t, k) by {
        let shifted = spec_band_peak(spectrum, t, j) + TILT_MDB * j + WINDOW_MDB;
        let cj = if shifted < 0 {
            0
        } else if shifted > WINDOW_MDB {
            WINDOW_MDB as int
        } else {
            shifted
        };
        assert(cj + 600 <= ck);
        assert(cj * 100 + 60000 <= ck * 100);
        assert((cj * 100 + 60000) / 60000 == cj * 100 / 60000 + 1) by (nonlinear_arith);
        vstd::arithmetic::div_mod::lemma_div_is_ordered(cj * 100 + 60000, ck * 100, 60000);
    }
}

/// Peak of the bins in `[lo, hi)`, starting from the silence floor.
pub fn band_peak(spectrum: &Vec<i32>, lo: usize, hi: usize) -> (p: i64)
    requires
        lo <= hi <= spectrum@.len(),
    ensures
        p == spec_peak(spectrum@, lo as int, hi as int),
{
    let mut p: i64 = FLOOR_MDB;
    let mut i: usize = lo;
    while i < hi
        invariant
            lo <= i <= hi <= spectrum@.len(),
            p == spec_peak(spectrum@, lo as int, i as int),
        decreases hi - i,
    {
        let v = spectrum[i];
        if (v as i64) > p {
            p = v as i64;
        }
        i = i + 1;
    }
    p
}

/// Meter value for a peak level at a band index; see `spec_normalize`.
pub fn normalize_band(mdb: i64, idx: usize) -> (v: u64)
    requires
        FLOOR_MDB <= mdb <= i32::MAX,
        idx <= 0x1000_0000,
    ensures
        v == spec_normalize(mdb as int, idx as int),
        v <= 100,
{
    let shifted: i64 = mdb + TILT_MDB * (idx as i64) + WINDOW_MDB;
    let clamped: u64 = if shifted < 0 {
        0
    } else if shifted > WINDOW_MDB {
        WINDOW_MDB as u64
    } else {
        shifted as u64
    };
    proof {
        lemma_normalize_in_range(mdb as int, idx as int);
    }
    clamped * 100 / (WINDOW_MDB as u64)
}

/// Meter ballistics on one band; see `spec_smooth`.  Exact on the two
/// branches: the result is `new` when `new >= prev`, else
/// `round(0.2 * new + 0.8 * prev)`.
pub fn smooth_value(prev: u64, new: u64) -> (r: u64)
    ensures
        r == spec_smooth(prev as int, new as int),
{
    if new >= prev {
        new
    } else {
        let blended: u128 = (2 * (new as u128) + 8 * (prev as u128) + 5) / 10;
        proof {
            assert(2 * (new as int) + 8 * (prev as int) + 5 < 10 * (prev as int) + 10);
            assert((2 * (new as int) + 8 * (prev as int) + 5) / 10 <= prev as int);
        }
        blended as u64
    }
}

/// One full analysis cycle past the transform: map the per-bin levels
/// (milli-decibels) to per-band peaks, tilt, normalize to 0..=100, and
/// smooth each band against the previous frame's vector.  Bands with no
/// previous value pass through unsmoothed.
pub fn band_vector(spectrum: &Vec<i32>, table: &BandBoundaryTable, prev: &Vec<u64>) -> (out: Vec<
    u64,
>)
    requires
        table.wf(),
        table.bands@.len() <= 0x1000_0000,
    ensures
        out@.len() == table.bands@.len(),
        forall|i: int| 0 <= i < out@.len() ==> #[trigger] out@[i] == spec_band_value(
            spectrum@,
            table.bands@,
            prev@,
            i,
        ),
        (forall|k: int| 0 <= k < prev@.len() ==> #[trigger] prev@[k] <= 100) ==> forall|i: int|
            0 <= i < out@.len() ==> #[trigger] out@[i] <= 100,
{
    let n = table.bands.len();
    let mut out: Vec<u64> = Vec::new();
    let mut i: usize = 0;
    while i < n
        invariant
            i <= n,
            n == table.bands@.len(),
            n <= 0x1000_0000,
            table.wf(),
            out@.len() == i,
            forall|k: int| 0 <= k < i ==> #[trigger] out@[k] == spec_band_value(
                spectrum@,
                table.bands@,
                prev@,
                k,
            ),
        decreases n - i,
    {
        let b = table.bands[i];
        let nbins = spectrum.len();
        let lo = if b.start <= nbins {
            b.start
        } else {
            nbins
        };
        let hi = if b.end <= nbins {
            b.end
        } else {
            nbins
        };
        proof {
            lemma_peak_bounds(spectrum@, lo as int, hi as int);
        }
        let peak = band_peak(spectrum, lo, hi);
        let raw = normalize_band(peak, i);
        let v = if i < prev.len() {
            smooth_value(prev[i], raw)
        } else {
            raw
        };
        out.push(v);
        i = i + 1;
    }
    proof {
        if forall|k: int| 0 <= k < prev@.len() ==> #[trigger] prev@[k] <= 100 {
            assert forall|k: int| 0 <= k < out@.len() implies #[trigger] out@[k] <= 100 by {
                lemma_band_value_in_range(spectrum@, table.bands@, prev@, k);
            }
        }
    }
    out
}

} // verus!
