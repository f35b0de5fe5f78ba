//! The soundtrack's sequencer, on a module built here.

use hellbender::audio::modfile::{Module, Note, Sample, ROWS};
use hellbender::audio::song::{next_row, play_row, tick_effects, SongState, DEFAULT_SPEED, DEFAULT_TEMPO};

fn note(period: u16, sample: u8, effect: u8, argument: u8) -> Note {
    Note { period, sample, effect, argument }
}

/// Two channels, two patterns in the order 0 then 1, one sample at volume
/// 40 and finetune -2; every note empty but those given.
fn module(notes: &[(usize, usize, usize, Note)]) -> Module {
    let blank = vec![vec![Note::default(); 2]; ROWS];
    let mut patterns = vec![blank.clone(), blank];
    for &(p, row, channel, n) in notes {
        patterns[p][row][channel] = n;
    }
    Module {
        title: "song".to_string(),
        channels: 2,
        samples: vec![Sample {
            name: "beep".to_string(),
            length: 4,
            finetune: -2,
            volume: 40,
            repeat_from: 0,
            repeat_len: 0,
            data: vec![0; 4],
        }],
        order: vec![0, 1],
        restart: 0,
        patterns,
    }
}

#[test]
fn a_song_starts_quiet_at_protrackers_pace() {
    let m = module(&[]);
    let s = SongState::new(&m);
    assert_eq!(s.voices.len(), 2);
    assert_eq!(s.voices[0].volume, 64);
    assert_eq!((s.order_index, s.row, s.speed, s.tempo), (0, 0, DEFAULT_SPEED, DEFAULT_TEMPO));
    assert!(!s.finished);
}

#[test]
fn a_note_takes_its_sample_and_starts_at_its_period() {
    let m = module(&[(0, 0, 1, note(428, 1, 0, 0))]);
    let mut s = SongState::new(&m);
    play_row(&mut s, &m);
    let v = s.voices[1];
    assert_eq!((v.sample, v.volume, v.finetune, v.period, v.target_period), (0, 40, -2, 428, 428));
    assert!(v.playing);
    assert_eq!(v.moved_to, Some(0));
    assert_eq!(s.voices[0].moved_to, None);
}

#[test]
fn portamento_only_sets_where_the_pitch_bends_to() {
    let m = module(&[(0, 0, 0, note(428, 0, 0, 0)), (0, 1, 0, note(300, 0, 3, 4))]);
    let mut s = SongState::new(&m);
    play_row(&mut s, &m);
    next_row(&mut s, &m);
    play_row(&mut s, &m);
    let v = s.voices[0];
    assert_eq!((v.period, v.target_period, v.porta_speed), (428, 300, 4));
    tick_effects(&mut s, &m);
    assert_eq!(s.voices[0].period, 424);
}

#[test]
fn the_row_sets_speed_tempo_and_volume() {
    let m = module(&[(0, 0, 0, note(0, 0, 0xf, 3)), (0, 0, 1, note(0, 0, 0xc, 90))]);
    let mut s = SongState::new(&m);
    play_row(&mut s, &m);
    assert_eq!(s.speed, 3);
    assert_eq!(s.voices[1].volume, 64, "a volume is at most 64");
    let m = module(&[(0, 0, 0, note(0, 0, 0xf, 150))]);
    let mut s = SongState::new(&m);
    play_row(&mut s, &m);
    assert_eq!((s.speed, s.tempo), (DEFAULT_SPEED, 150));
}

#[test]
fn a_break_goes_to_a_row_of_the_next_entry() {
    let m = module(&[(0, 0, 0, note(0, 0, 0xd, 0x12))]);
    let mut s = SongState::new(&m);
    play_row(&mut s, &m);
    assert_eq!((s.order_index, s.row), (1, 11));
    next_row(&mut s, &m);
    assert_eq!((s.order_index, s.row), (1, 12));
}

#[test]
fn a_jump_starts_its_entry_on_the_next_row() {
    let m = module(&[(1, 5, 0, note(0, 0, 0xb, 0))]);
    let mut s = SongState::new(&m);
    s.order_index = 1;
    s.row = 5;
    play_row(&mut s, &m);
    assert_eq!((s.order_index, s.row), (0, ROWS - 1));
    next_row(&mut s, &m);
    assert_eq!((s.order_index, s.row), (1, 0));
}

#[test]
fn the_last_row_of_the_order_finishes_the_song() {
    let m = module(&[]);
    let mut s = SongState::new(&m);
    s.order_index = 1;
    s.row = ROWS - 1;
    next_row(&mut s, &m);
    assert_eq!((s.order_index, s.row), (0, 0));
    assert!(s.finished);
    let mut s = SongState::new(&m);
    s.order_index = 7;
    play_row(&mut s, &m);
    assert!(s.finished, "a row that is not there finishes the song");
}

#[test]
fn effects_a_row_does_nothing_with_are_named_once() {
    let m = module(&[(0, 0, 0, note(0, 0, 0xe, 1)), (0, 0, 1, note(0, 0, 0xe, 2)), (0, 1, 0, note(0, 0, 0xa, 0x20))]);
    let mut s = SongState::new(&m);
    play_row(&mut s, &m);
    next_row(&mut s, &m);
    play_row(&mut s, &m);
    assert_eq!(s.unimplemented, vec![0xe, 0xa]);
}

#[test]
fn ticks_slide_the_period_and_the_volume() {
    let m = module(&[(0, 0, 0, note(428, 1, 1, 5)), (0, 0, 1, note(0, 0, 0xa, 0x03))]);
    let mut s = SongState::new(&m);
    play_row(&mut s, &m);
    tick_effects(&mut s, &m);
    assert_eq!(s.voices[0].period, 423);
    assert_eq!(s.voices[1].volume, 61);
    // A slide stops at the top of the range.
    let m = module(&[(0, 0, 0, note(120, 0, 1, 50))]);
    let mut s = SongState::new(&m);
    play_row(&mut s, &m);
    tick_effects(&mut s, &m);
    assert_eq!(s.voices[0].period, 113);
}

#[test]
fn vibrato_adds_the_sine_at_its_depth() {
    let m = module(&[(0, 0, 0, note(428, 0, 4, 0x48))]);
    let mut s = SongState::new(&m);
    play_row(&mut s, &m);
    assert_eq!((s.voices[0].vibrato_speed, s.voices[0].vibrato_depth), (4, 8));
    tick_effects(&mut s, &m);
    // Phase 0 adds nothing and steps the phase by the speed.
    assert_eq!((s.voices[0].period, s.voices[0].vibrato_phase), (428, 4));
    tick_effects(&mut s, &m);
    // Phase 4: 97 * 8 / 128 = 6.
    assert_eq!((s.voices[0].period, s.voices[0].vibrato_phase), (434, 8));
}
