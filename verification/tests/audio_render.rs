//! Sound files, tracker modules and the fixed parts of the screen, on values
//! built here.

use hellbender::audio::modfile::{channels_for, Error as ModError, Module, HEADER};
use hellbender::audio::wav::{Error as WavError, Wav};
use hellbender::formats::Angle;
use hellbender::render::camera::Camera;
use hellbender::render::cockpit::{hand, hand_box, knob_size};
use hellbender::render::hud::{box_of, fill, frame, is_target, labels};
use hellbender::render::level::stars;

fn chunk(id: &[u8; 4], body: &[u8]) -> Vec<u8> {
    let mut out = id.to_vec();
    out.extend_from_slice(&(body.len() as u32).to_le_bytes());
    out.extend_from_slice(body);
    if body.len() % 2 == 1 {
        out.push(0);
    }
    out
}

fn wav(bits: u16, channels: u16, body: &[u8]) -> Vec<u8> {
    let mut format = Vec::new();
    format.extend_from_slice(&1u16.to_le_bytes());
    format.extend_from_slice(&channels.to_le_bytes());
    format.extend_from_slice(&11025u32.to_le_bytes());
    format.extend_from_slice(&[0; 6]);
    format.extend_from_slice(&bits.to_le_bytes());
    let mut inner = b"WAVE".to_vec();
    inner.extend(chunk(b"fmt ", &format));
    inner.extend(chunk(b"data", body));
    chunk(b"RIFF", &inner)
}

#[test]
fn an_eight_bit_wave_is_centred_on_128_and_widened() {
    let w = Wav::parse(&wav(8, 1, &[128, 255, 0])).ok().unwrap();
    assert_eq!((w.rate, w.channels), (11025, 1));
    assert_eq!(w.samples, vec![0, 127 * 256, -128 * 256]);
}

#[test]
fn a_sixteen_bit_wave_is_little_endian_pairs() {
    let w = Wav::parse(&wav(16, 2, &[0x34, 0x12, 0xff, 0xff, 9])).ok().unwrap();
    assert_eq!(w.channels, 2);
    assert_eq!(w.samples, vec![0x1234, -1], "an odd last byte is left out");
}

#[test]
fn what_is_not_a_wave_says_why() {
    assert!(matches!(Wav::parse(b"RIFX"), Err(WavError::NotRiff)));
    let mut not_wave = wav(8, 1, &[1]);
    not_wave[8] = b'X';
    assert!(matches!(Wav::parse(&not_wave), Err(WavError::NotWave)));
    assert!(matches!(Wav::parse(&chunk(b"RIFF", b"WAVE")), Err(WavError::NoFormat)));
    assert!(matches!(Wav::parse(&wav(12, 1, &[1])), Err(WavError::Unsupported(_))));
    let mut no_data = b"WAVE".to_vec();
    no_data.extend(chunk(b"fmt ", &[1, 0, 1, 0, 0, 0, 0, 0, 0, 0, 0, 0, 0, 0, 8, 0]));
    assert!(matches!(Wav::parse(&chunk(b"RIFF", &no_data)), Err(WavError::NoData)));
}

#[test]
fn a_tracker_tag_gives_the_channels() {
    assert_eq!(channels_for(b"M.K."), Some(4));
    assert_eq!(channels_for(b"M!K!"), Some(4));
    assert_eq!(channels_for(b"6CHN"), Some(6));
    assert_eq!(channels_for(b"12CH"), Some(12));
    assert_eq!(channels_for(b"XXXX"), None);
}

/// A four-channel module of one pattern, song length one, with sample 1
/// four bytes long and the first note of the pattern set.
fn module() -> Vec<u8> {
    let mut data = vec![0u8; HEADER + 1024 + 4];
    data[..5].copy_from_slice(b"Tune\0");
    // Sample 1: "kick", two words long, finetune 15 (-1), volume 70 (64),
    // repeat from word 1 for one word.
    data[20..24].copy_from_slice(b"kick");
    data[42..44].copy_from_slice(&2u16.to_be_bytes());
    data[44] = 15;
    data[45] = 70;
    data[46..48].copy_from_slice(&1u16.to_be_bytes());
    data[48..50].copy_from_slice(&1u16.to_be_bytes());
    data[950] = 1;
    data[951] = 127;
    data[1080..1084].copy_from_slice(b"M.K.");
    // Sample 1, period 428, effect C, argument 32.
    data[1084..1088].copy_from_slice(&[0x01, 0xac, 0x1c, 0x20]);
    let len = data.len();
    data[len - 4..].copy_from_slice(&[1, 2, 0xff, 4]);
    data
}

#[test]
fn a_module_reads_its_samples_order_and_patterns() {
    let m = Module::parse(&module()).ok().unwrap();
    assert_eq!(m.title, "Tune");
    assert_eq!(m.channels, 4);
    assert_eq!(m.order, vec![0]);
    assert_eq!(m.restart, 127);
    assert_eq!(m.patterns.len(), 1);
    let note = &m.patterns[0][0][0];
    assert_eq!((note.period, note.sample, note.effect, note.argument), (428, 1, 0xc, 0x20));
    let kick = &m.samples[0];
    assert_eq!(kick.name, "kick");
    assert_eq!((kick.length, kick.finetune, kick.volume), (4, -1, 64));
    assert_eq!(kick.data, vec![1, 2, -1, 4]);
    assert_eq!((kick.repeat_from, kick.repeat_len), (2, 2));
    assert!(!kick.loops(), "a repeat of one word does not loop");
    assert_eq!(m.used_samples(), 1);
    assert_eq!(m.samples.len(), 31);
}

#[test]
fn what_is_not_a_module_says_why() {
    assert!(matches!(Module::parse(&[0; 100]), Err(ModError::TooShort)));
    let mut data = module();
    data[1080..1084].copy_from_slice(b"ABCD");
    assert!(matches!(Module::parse(&data), Err(ModError::UnknownTag(t)) if &t == b"ABCD"));
}

#[test]
fn a_camera_starts_level() {
    let c = Camera::looking_at(1, 2, 3, Angle(100));
    assert_eq!((c.x, c.y, c.z, c.yaw.0, c.pitch.0, c.roll.0), (1, 2, 3, 100, 0, 0));
}

#[test]
fn the_cockpit_names_and_places_its_pictures() {
    assert_eq!(hand(0, 4, 480), "hnmm480.raw");
    assert_eq!(hand(2, 8, 200), "htfr200.raw");
    assert_eq!(hand_box(640, 480), [180, 370, 280, 110]);
    assert_eq!(hand_box(320, 200), [90, 155, 140, 45]);
    assert_eq!(knob_size(640, 480), [12, 17]);
    assert_eq!(knob_size(320, 200), [6, 7]);
}

#[test]
fn the_hud_boxes_scale_with_the_view() {
    assert_eq!(box_of(0, 640, 480), (312, 3, 80, 17));
    assert_eq!(box_of(0, 320, 240), (156, 1, 40, 8));
    assert!(is_target(0) && is_target(12) && is_target(62));
    assert!(!is_target(2) && !is_target(16) && !is_target(63));
    let l = labels();
    assert_eq!(l.len(), 11);
    assert_eq!(l[0].text, "Hull Integrity");
}

#[test]
fn a_fill_is_cut_to_the_frame_and_a_frame_rings_it() {
    let (w, h) = (6usize, 5usize);
    let mut buffer = vec![0u8; w * h];
    fill(&mut buffer, w, h, -1, 3, 3, 9, 4);
    for y in 0..h {
        for x in 0..w {
            assert_eq!(buffer[y * w + x], if x < 2 && y >= 3 { 4 } else { 0 }, "({x}, {y})");
        }
    }
    let mut buffer = vec![0u8; w * h];
    frame(&mut buffer, w, h, (2, 1, 2, 2), 7, 9);
    let expect = [
        [9, 9, 9, 9, 0, 0],
        [9, 7, 7, 9, 0, 0],
        [9, 7, 7, 9, 0, 0],
        [9, 9, 9, 9, 0, 0],
        [0, 0, 0, 0, 0, 0],
    ];
    for y in 0..h {
        for x in 0..w {
            let want = if x >= 1 { expect[y][x - 1] } else { 0 };
            assert_eq!(buffer[y * w + x], want, "({x}, {y})");
        }
    }
}

#[test]
fn the_stars_come_from_the_c_librarys_generator_seeded_with_one() {
    let s = stars();
    assert_eq!(s.len(), 2000);
    // rand() after srand(1): 41, 18467, 6334, 26500.
    assert_eq!(s[0].at, [(41 - 0x4000) * 256, 18467 * 256, (6334 - 0x4000) * 256]);
    assert_eq!(s[0].colour, (26500 / 1024) as u8);
    // The second thousand are below the horizon.
    assert!(s[1500].at[1] <= 0);
    assert!(s[500].at[1] >= 0);
}
