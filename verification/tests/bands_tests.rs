use audio_viz::app::App;
use audio_viz::bands::{band_vector, normalize_band, smooth_value, BandBoundaryTable, BANDS};
use audio_viz::capture::{downmix_push, word_from_le};
use audio_viz::ring::RingBuffer;

/// Rounded target end bins of the logarithmic mapping for the design
/// configuration: 16 bands over 20 Hz .. 14 kHz at 44.1 kHz, transform
/// size 4096.
fn design_targets() -> Vec<usize> {
    let sample_rate = 44100.0_f64;
    let f_min = 20.0_f64;
    let f_max = 14000.0_f64;
    let mut targets = Vec::new();
    for i in 0..BANDS {
        let f_end = f_min * (f_max / f_min).powf((i + 1) as f64 / BANDS as f64);
        targets.push(((f_end / sample_rate) * 4096.0).round() as usize);
    }
    targets
}

#[test]
fn design_table_is_contiguous_and_increasing() {
    let targets = design_targets();
    assert_eq!(
        targets,
        vec![3, 4, 6, 10, 14, 22, 33, 49, 74, 111, 168, 253, 381, 573, 863, 1300]
    );
    let table = BandBoundaryTable::from_targets(&targets);
    assert!(table.is_wf());
    assert_eq!(table.len(), BANDS);
    assert_eq!(table.bands[0].start, 1);
    for i in 0..table.len() {
        assert!(table.bands[i].end > table.bands[i].start);
        if i + 1 < table.len() {
            assert_eq!(table.bands[i].end, table.bands[i + 1].start);
        }
    }
    assert_eq!(table.bands[BANDS - 1].end, 1300);
}

#[test]
fn zero_width_bands_are_forced_to_width_one() {
    let table = BandBoundaryTable::from_targets(&vec![1, 1, 5]);
    assert!(table.is_wf());
    let bins: Vec<(usize, usize)> = table.bands.iter().map(|b| (b.start, b.end)).collect();
    assert_eq!(bins, vec![(1, 2), (2, 3), (3, 5)]);
}

#[test]
fn normalize_maps_window_to_meter_range() {
    // -30 dB at band 0 sits exactly halfway through the -60..0 dB window.
    assert_eq!(normalize_band(-30000, 0), 50);
    assert_eq!(normalize_band(0, 0), 100);
    assert_eq!(normalize_band(-60000, 0), 0);
    assert_eq!(normalize_band(-140000, 0), 0);
    // the tilt lifts higher bands: +1.2 dB per band index
    assert_eq!(normalize_band(-30000, 5), 60);
    // above the window the value clamps
    assert_eq!(normalize_band(20000, 3), 100);
}

#[test]
fn smoothing_is_instant_rise_damped_fall() {
    // falling: round(0.2 * 50 + 0.8 * 80) = 74
    assert_eq!(smooth_value(80, 50), 74);
    // rising: passes through unsmoothed
    assert_eq!(smooth_value(30, 60), 60);
    // flat: passes through
    assert_eq!(smooth_value(42, 42), 42);
    // decay from a full meter toward silence
    assert_eq!(smooth_value(100, 0), 80);
}

#[test]
fn silence_spectrum_yields_all_zero() {
    let table = BandBoundaryTable::from_targets(&design_targets());
    let spectrum = vec![-140000i32; 2048];
    let prev = vec![0u64; BANDS];
    let out = band_vector(&spectrum, &table, &prev);
    assert_eq!(out, vec![0u64; BANDS]);
}

#[test]
fn band_vector_has_band_count_and_meter_range() {
    let table = BandBoundaryTable::from_targets(&design_targets());
    let mut spectrum = vec![-140000i32; 2048];
    for (i, v) in spectrum.iter_mut().enumerate() {
        *v += (i as i32 % 191) * 1000;
    }
    let prev = vec![55u64; BANDS];
    let out = band_vector(&spectrum, &table, &prev);
    assert_eq!(out.len(), BANDS);
    for v in out {
        assert!(v <= 100);
    }
}

#[test]
fn empty_previous_vector_passes_raw_values() {
    let table = BandBoundaryTable::from_targets(&vec![2, 3]);
    let mut spectrum = vec![-140000i32; 4];
    spectrum[1] = -30000;
    spectrum[2] = 0;
    let prev: Vec<u64> = Vec::new();
    let out = band_vector(&spectrum, &table, &prev);
    // band 1 gets the +1.2 dB tilt and clamps at the top of the window
    assert_eq!(out, vec![50, 100]);
}

#[test]
fn app_update_bands_retains_previous_vector() {
    let mut app = App::new();
    assert!(app.bands.is_empty());
    assert!(app.old_bands.is_empty());
    assert_eq!(app.bar_width, 1);
    assert_eq!(app.bar_gap, 1);
    app.update_bands(vec![1, 2, 3]);
    assert_eq!(app.bands, vec![1, 2, 3]);
    assert!(app.old_bands.is_empty());
    app.update_bands(vec![4, 5, 6]);
    assert_eq!(app.bands, vec![4, 5, 6]);
    assert_eq!(app.old_bands, vec![1, 2, 3]);
}

#[test]
fn app_apply_spectrum_smooths_against_displayed_vector() {
    let table = BandBoundaryTable::from_targets(&vec![2]);
    let mut app = App::new();
    // one band covering bin 1; a strong frame first
    let loud = vec![-140000i32, 0];
    app.apply_spectrum(&loud, &table);
    assert_eq!(app.bands, vec![100]);
    // then silence: the meter falls by the damped-decay law
    let quiet = vec![-140000i32, -140000];
    app.apply_spectrum(&quiet, &table);
    assert_eq!(app.old_bands, vec![100]);
    assert_eq!(app.bands, vec![80]);
}

#[test]
fn word_from_le_assembles_little_endian() {
    assert_eq!(word_from_le(0x78, 0x56, 0x34, 0x12), 0x12345678);
    assert_eq!(word_from_le(0, 0, 0, 0), 0);
    assert_eq!(word_from_le(0xff, 0xff, 0xff, 0xff), u32::MAX);
}

#[test]
fn downmix_keeps_every_nth_sample() {
    // four 4-byte words 1, 2, 3, 4; two channels: words 1 and 3 are kept
    let mut bytes = Vec::new();
    for w in [1u32, 2, 3, 4] {
        bytes.extend_from_slice(&w.to_le_bytes());
    }
    let mut rb = RingBuffer::new(8);
    downmix_push(&mut rb, &bytes, 2);
    assert_eq!(rb.pull(8), vec![1, 3]);
    // one channel keeps everything
    let mut rb = RingBuffer::new(8);
    downmix_push(&mut rb, &bytes, 1);
    assert_eq!(rb.pull(8), vec![1, 2, 3, 4]);
    // a trailing partial word is ignored
    let mut rb = RingBuffer::new(8);
    let mut ragged = bytes.clone();
    ragged.extend_from_slice(&[0xAA, 0xBB]);
    downmix_push(&mut rb, &ragged, 3);
    assert_eq!(rb.pull(8), vec![1, 4]);
}

#[test]
fn downmix_drops_samples_on_full_buffer() {
    let mut bytes = Vec::new();
    for w in 1..=6u32 {
        bytes.extend_from_slice(&w.to_le_bytes());
    }
    let mut rb = RingBuffer::new(4);
    rb.push(0);
    rb.push(0);
    downmix_push(&mut rb, &bytes, 1);
    // only two slots were free: samples 3..6 were dropped
    assert_eq!(rb.pull(8), vec![0, 0, 1, 2]);
}
