use piano_vision::config::Config;
use piano_vision::errors::CalibrationError;
use piano_vision::events::{EventTrack, MidiMessage, TempoBytes};
use piano_vision::image::{Anchor, Frame, Rgb, ScoreGrid, Template};
use piano_vision::locator::locate_octaves;
use piano_vision::octave::{Note, Octave};
use piano_vision::piano::{assign_pitch_codes, Piano, Shape, NOTE_B, NOTE_C};
use piano_vision::scaler::ScalerSearch;
use piano_vision::tracker::{track_frame, Cache, Transition};

fn rgb(r: u8, g: u8, b: u8) -> Rgb {
    Rgb { r, g, b }
}

fn frame_of(rows: Vec<Vec<Rgb>>) -> Frame {
    Frame { width: rows[0].len(), height: rows.len(), rows }
}

fn grid_of(rows: Vec<Vec<u32>>) -> ScoreGrid {
    ScoreGrid { width: rows[0].len(), height: rows.len(), rows }
}

fn note_at(code: u8, x: usize, y: usize, color: Rgb) -> Note {
    Note { code, x, y, default_color: color, pressed: false }
}

#[test]
fn config_defaults() {
    let cfg = Config::default();
    assert_eq!(cfg.pixel_match_threshold, 100);
    assert_eq!(cfg.between_frames_threshold, 150);
    assert_eq!(cfg.color_change_threshold, 200);
    assert_eq!(cfg.locator_threshold_step, 20_000);
    assert_eq!(cfg.scaler_lookahead_window, 100);
    assert_eq!(cfg.middle_octave_gray_threshold, 10);
    assert_eq!(cfg.midi_ticks_per_quarter_note, 48);
    assert_eq!(cfg.note_velocity, 127);
}

#[test]
fn color_diff_values() {
    assert_eq!(rgb(10, 20, 30).diff(rgb(10, 20, 30)), 0);
    assert_eq!(rgb(10, 20, 30).diff(rgb(30, 20, 10)), 40);
    assert_eq!(rgb(0, 0, 0).diff(rgb(255, 255, 255)), 765);
    assert_eq!(rgb(200, 5, 9).diff(rgb(100, 15, 9)), 110);
}

// A template of twelve equal-width uniform bands, reproduced verbatim in
// the frame at a known offset: the segmenter samples every band's center.
#[test]
fn segmenter_band_centers() {
    let cfg = Config::default();
    let mut band_colors = Vec::new();
    for j in 0..12u8 {
        band_colors.push(rgb(j * 20, 0, 0));
    }
    let mut template_pixels = Vec::new();
    for j in 0..12usize {
        template_pixels.push(band_colors[j]);
        template_pixels.push(band_colors[j]);
    }
    let template = Template { width: 24, pixels: template_pixels.clone() };
    let offset = 3usize;
    let mut row = vec![rgb(255, 255, 255); offset];
    row.extend(template_pixels);
    row.extend(vec![rgb(255, 255, 255); 5]);
    let frame = frame_of(vec![row]);
    let octave = Octave::new(Anchor { x: offset, y: 0 }, &frame, &template, &cfg);
    assert_eq!(octave.notes.len(), 12);
    for j in 0..12usize {
        // band j covers columns 2j..2j+2, its center after rounding is 2j+1
        assert_eq!(octave.notes[j].x, offset + 2 * j + 1);
        assert_eq!(octave.notes[j].y, 0);
        assert_eq!(octave.notes[j].code, j as u8);
        assert_eq!(octave.notes[j].default_color, band_colors[j]);
        assert!(!octave.notes[j].pressed);
    }
}

// A surface with exactly three perfect-match cells, far enough apart:
// the locator returns exactly those three anchors, in discovery order.
#[test]
fn locator_finds_k_copies() {
    let cfg = Config::default();
    let mut rows = vec![vec![500_000u32; 40], vec![500_000u32; 40]];
    rows[0][5] = 0;
    rows[1][20] = 0;
    rows[0][35] = 0;
    let surface = grid_of(rows);
    let anchors = locate_octaves(&surface, 11, &cfg).unwrap();
    assert_eq!(anchors.len(), 3);
    assert_eq!(anchors[0], Anchor { x: 5, y: 0 });
    assert_eq!(anchors[1], Anchor { x: 35, y: 0 });
    assert_eq!(anchors[2], Anchor { x: 20, y: 1 });
}

// A featureless surface never binarizes into a mixed grid: the threshold
// sweep runs out and the keyboard is not found.
#[test]
fn locator_keyboard_not_found() {
    let cfg = Config::default();
    let surface = grid_of(vec![vec![700_000u32; 30]; 2]);
    let r = locate_octaves(&surface, 11, &cfg);
    assert_eq!(r, Err(CalibrationError::KeyboardNotFound));
}

#[test]
fn set_pressed_edges() {
    let mut note = note_at(60, 0, 0, rgb(0, 0, 0));
    // same state: the no-op signal, not an error of the run
    assert_eq!(note.set_pressed(false), Err(false));
    assert!(!note.pressed);
    assert_eq!(note.set_pressed(true), Ok(true));
    assert!(note.pressed);
    assert_eq!(note.set_pressed(true), Err(false));
    assert_eq!(note.set_pressed(false), Ok(false));
    assert!(!note.pressed);
}

#[test]
fn note_names() {
    assert_eq!(note_at(60, 0, 0, rgb(0, 0, 0)).to_string(), "C  4");
    assert_eq!(note_at(61, 0, 0, rgb(0, 0, 0)).to_string(), "C# 4");
    assert_eq!(note_at(71, 0, 0, rgb(0, 0, 0)).to_string(), "B  4");
    assert_eq!(note_at(12, 0, 0, rgb(0, 0, 0)).to_string(), "C  0");
    assert_eq!(note_at(252, 0, 0, rgb(0, 0, 0)).to_string(), "C  20");
}

fn one_octave_piano(colors: &[Rgb]) -> Piano {
    let mut notes = Vec::new();
    for j in 0..12usize {
        notes.push(note_at(60 + j as u8, j, 0, colors[j]));
    }
    Piano { octaves: vec![Octave { notes }] }
}

// The color sequence [default, default, pressed, pressed, default, default]
// on one key fires exactly [pressed at frame 2, released at frame 4].
#[test]
fn tracker_edge_sequence() {
    let cfg = Config::default();
    let default = rgb(10, 10, 10);
    let pressed = rgb(215, 10, 10); // 205 over: strictly past both thresholds
    let colors = [default; 12];
    let mut piano = one_octave_piano(&colors);
    let mut cache = Cache::new(&piano);
    let sequence = [default, default, pressed, pressed, default, default];
    let mut fired: Vec<(usize, Transition)> = Vec::new();
    for (t, c) in sequence.iter().enumerate() {
        let mut row = vec![default; 12];
        row[0] = *c;
        let frame = frame_of(vec![row]);
        for tr in track_frame(&mut piano, &mut cache, &frame, &cfg) {
            fired.push((t, tr));
        }
    }
    assert_eq!(fired.len(), 2);
    assert_eq!(fired[0].0, 2);
    assert_eq!(fired[0].1, Transition { octave: 0, note: 0, code: 60, pressed: true });
    assert_eq!(fired[1].0, 4);
    assert_eq!(fired[1].1, Transition { octave: 0, note: 0, code: 60, pressed: false });
}

// A change that stays under the between-frames threshold is noise: no state
// evaluation, but the cache still refreshes.
#[test]
fn tracker_noise_gate() {
    let cfg = Config::default();
    let default = rgb(10, 10, 10);
    let colors = [default; 12];
    let mut piano = one_octave_piano(&colors);
    let mut cache = Cache::new(&piano);
    // drifts by 100 per frame (under 150), yet ends far from the default
    let steps = [rgb(110, 10, 10), rgb(210, 10, 10), rgb(255, 55, 10)];
    for c in steps.iter() {
        let mut row = vec![default; 12];
        row[0] = *c;
        let frame = frame_of(vec![row]);
        let fired = track_frame(&mut piano, &mut cache, &frame, &cfg);
        assert!(fired.is_empty());
    }
    assert!(!piano.octaves[0].notes[0].pressed);
    assert_eq!(cache.colors[0][0], rgb(255, 55, 10));
}

// For sorted octaves and middle index m, every code is
// (index + 5 - m) * 12 + pitch class, strictly rising across octaves.
#[test]
fn pitch_assignment_formula() {
    let mut octaves = Vec::new();
    for i in 0..3usize {
        let mut notes = Vec::new();
        for j in 0..12usize {
            notes.push(note_at(j as u8, i * 20 + j, 0, rgb(0, 0, 0)));
        }
        octaves.push(Octave { notes });
    }
    assign_pitch_codes(&mut octaves, 1);
    for i in 0..3usize {
        for j in 0..12usize {
            assert_eq!(octaves[i].notes[j].code as usize, (i + 5 - 1) * 12 + j);
        }
    }
    assert!(octaves[0].notes[0].code < octaves[1].notes[0].code);
    assert!(octaves[1].notes[0].code < octaves[2].notes[0].code);
}

fn marker_frame(width: usize, marked_xs: &[usize]) -> Frame {
    // row 0 is the keyboard line (uniform gray), rows below carry the
    // calibration dot under the given columns
    let key_color = rgb(100, 100, 100);
    let mut rows = vec![vec![key_color; width]];
    for _ in 1..25 {
        rows.push(vec![key_color; width]);
    }
    for &x in marked_xs {
        rows[2][x] = rgb(50, 50, 50);
    }
    frame_of(rows)
}

// Full calibration from anchors: octaves come out sorted left-to-right and
// the marked octave anchors the absolute numbering.
#[test]
fn from_anchors_sorts_and_calibrates() {
    let cfg = Config::default();
    let template = Template { width: 12, pixels: vec![rgb(100, 100, 100); 12] };
    // C key of an anchor at x sits at x + mid(0) = x + 0
    let frame = marker_frame(40, &[14]);
    let anchors = vec![Anchor { x: 14, y: 0 }, Anchor { x: 0, y: 0 }];
    let piano = Piano::from_anchors(&frame, &template, &anchors, &cfg).unwrap();
    assert_eq!(piano.octaves.len(), 2);
    // sorted: the octave at x = 0 first
    assert_eq!(piano.octaves[0].notes[NOTE_C].x, 0);
    assert_eq!(piano.octaves[1].notes[NOTE_C].x, 14);
    // middle octave is sorted index 1, so codes run (i + 4) * 12 + j
    for i in 0..2usize {
        for j in 0..12usize {
            assert_eq!(piano.octaves[i].notes[j].code as usize, (i + 4) * 12 + j);
        }
    }
}

// A marker past sorted index five would push codes out of a byte.
#[test]
fn pitch_code_out_of_range() {
    let cfg = Config::default();
    let template = Template { width: 12, pixels: vec![rgb(100, 100, 100); 12] };
    let frame = marker_frame(96, &[84]);
    let mut anchors = Vec::new();
    for i in 0..7usize {
        anchors.push(Anchor { x: i * 14, y: 0 });
    }
    let r = Piano::from_anchors(&frame, &template, &anchors, &cfg);
    assert_eq!(r.err(), Some(CalibrationError::PitchCodeOutOfRange));
}

// No marker anywhere: the middle octave falls back to sorted index zero.
#[test]
fn middle_defaults_to_leftmost() {
    let cfg = Config::default();
    let template = Template { width: 12, pixels: vec![rgb(100, 100, 100); 12] };
    let frame = marker_frame(40, &[]);
    let anchors = vec![Anchor { x: 0, y: 0 }, Anchor { x: 14, y: 0 }];
    let piano = Piano::from_anchors(&frame, &template, &anchors, &cfg).unwrap();
    assert_eq!(piano.octaves[0].notes[0].code as usize, 5 * 12);
}

// Calibration end to end: locate on the surface, then build the model.
#[test]
fn piano_new_end_to_end() {
    let cfg = Config::default();
    let template = Template { width: 12, pixels: vec![rgb(100, 100, 100); 12] };
    let frame = frame_of(vec![vec![rgb(100, 100, 100); 40]]);
    let mut vals = vec![vec![900_000u32; 29]];
    vals[0][0] = 0;
    vals[0][14] = 0;
    let surface = grid_of(vals);
    let piano = Piano::new(&frame, &template, &surface, &cfg).unwrap();
    assert_eq!(piano.octaves.len(), 2);
    // the frame is one row high, so the marker probe finds nothing and the
    // leftmost octave is the middle one
    assert_eq!(piano.octaves[0].notes[0].code, 60);
    assert_eq!(piano.octaves[1].notes[0].code, 72);
    assert_eq!(piano.octaves[1].notes[0].x, 14);
}

#[test]
fn piano_new_not_found() {
    let cfg = Config::default();
    let template = Template { width: 12, pixels: vec![rgb(100, 100, 100); 12] };
    let frame = frame_of(vec![vec![rgb(100, 100, 100); 40]]);
    let surface = grid_of(vec![vec![900_000u32; 29]]);
    let r = Piano::new(&frame, &template, &surface, &cfg);
    assert_eq!(r.err(), Some(CalibrationError::KeyboardNotFound));
}

// The sum of delta-ticks between the first and last event equals the frame
// distance times the tick rate.
#[test]
fn event_track_tick_accounting() {
    let cfg = Config::default();
    let mut track = EventTrack::new(48);
    track.record(3, true, 60, &cfg);
    track.record(7, true, 64, &cfg);
    track.record(10, false, 60, &cfg);
    assert_eq!(track.events[0].delta_ticks, 144);
    assert_eq!(track.events[1].delta_ticks, 192);
    assert_eq!(track.events[2].delta_ticks, 144);
    let sum_after_first: u32 = track.events[1..].iter().map(|e| e.delta_ticks).sum();
    assert_eq!(sum_after_first, (10 - 3) * 48);
    assert!(track.events.iter().all(|e| e.channel == 0));
    assert_eq!(track.events[0].velocity, 127);
}

#[test]
fn tempo_bytes_exact() {
    let b = piano_vision::events::tempo_bytes(0x123456);
    assert_eq!(b, TempoBytes { b0: 0x12, b1: 0x34, b2: 0x56 });
    let b2 = piano_vision::events::tempo_bytes(30_000_000);
    // bytes truncate: only the low 24 bits of the tempo survive
    assert_eq!(b2, TempoBytes { b0: 0xC9, b1: 0xC3, b2: 0x80 });
    assert_eq!((b2.b0 as u32) << 16 | (b2.b1 as u32) << 8 | b2.b2 as u32, 30_000_000 & 0xFF_FF_FF);
}

#[test]
fn export_structure() {
    let cfg = Config::default();
    let mut track = EventTrack::new(30);
    track.record(2, true, 60, &cfg);
    track.record(5, false, 60, &cfg);
    let msgs = track.export(30_000_000);
    assert_eq!(msgs.len(), 6);
    match msgs[0] {
        MidiMessage::SetTempo { delta_ticks, tempo } => {
            assert_eq!(delta_ticks, 0);
            assert_eq!(tempo, piano_vision::events::tempo_bytes(30_000_000));
        },
        _ => panic!("expected a tempo event first"),
    }
    assert!(matches!(msgs[1], MidiMessage::EndOfTrack { delta_ticks: 0 }));
    assert!(matches!(msgs[2], MidiMessage::TrackChange));
    assert!(matches!(msgs[3], MidiMessage::Note { ev } if ev.note_on && ev.pitch == 60));
    assert!(matches!(msgs[4], MidiMessage::Note { ev } if !ev.note_on));
    assert!(matches!(msgs[5], MidiMessage::EndOfTrack { delta_ticks: 0 }));
}

// The scale search keeps the best (lowest) score and never settles on one
// worse than the first candidate — the template's native width.
#[test]
fn scaler_keeps_best() {
    let cfg = Config::default();
    let mut s = ScalerSearch::new(10, 200, &cfg);
    let first = 400_000u32;
    let scores = [first, 300_000, 500_000, 350_000];
    for sc in scores.iter() {
        assert!(!s.is_finished());
        s.offer(*sc);
    }
    assert_eq!(s.best_score, 300_000);
    assert_eq!(s.best_width, 11);
    assert!(s.best_score <= first);
    // frame 200 over best width 11 gives a whole scale of 18
    assert_eq!(s.scaled_template_width(), 180);
}

#[test]
fn scaler_perfect_match_stops() {
    let cfg = Config::default();
    let mut s = ScalerSearch::new(10, 200, &cfg);
    s.offer(700_000);
    s.offer(0);
    assert!(s.is_finished());
    assert_eq!(s.best_width, 11);
    assert_eq!(s.best_score, 0);
}

#[test]
fn scaler_lookahead_window_stops() {
    let cfg = Config::default();
    let mut s = ScalerSearch::new(10, 100_000, &cfg);
    let mut offers = 0u32;
    while !s.is_finished() {
        // never better than the initial default: the best width stays native
        s.offer(1_000_000);
        offers += 1;
    }
    // widths 10 through 111: the 102nd candidate breaches the 100-wide window
    assert_eq!(offers, 102);
    assert_eq!(s.best_width, 10);
}

#[test]
fn draw_notes_shapes() {
    let default = rgb(10, 10, 10);
    let piano = one_octave_piano(&[default; 12]);
    let shapes = piano.draw_notes();
    assert_eq!(shapes.len(), 13);
    assert_eq!(
        shapes[0],
        Shape::Rect {
            x0: piano.octaves[0].notes[NOTE_C].x,
            y0: 0,
            x1: piano.octaves[0].notes[NOTE_B].x,
            y1: 0,
        }
    );
    for j in 0..12usize {
        assert_eq!(shapes[1 + j], Shape::Circle { x: j, y: 0, radius: 4 });
    }
}

#[test]
fn cache_starts_at_defaults() {
    let mut colors = [rgb(0, 0, 0); 12];
    for (j, c) in colors.iter_mut().enumerate() {
        *c = rgb(j as u8, 0, 0);
    }
    let piano = one_octave_piano(&colors);
    let cache = Cache::new(&piano);
    assert_eq!(cache.colors.len(), 1);
    for j in 0..12usize {
        assert_eq!(cache.colors[0][j], colors[j]);
    }
}
