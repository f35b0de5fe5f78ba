//! The cutscene decoder, on movies built here byte by byte, and the claims
//! about the 32 on the disc.

use hellbender::formats::smk::{channel, sound, Bits, ByteTree, Movie, Player, Tree, Trees, RUNS};
use hellbender::formats::Error;
use hellbender::movie::Show;

/// The movies on the disc, when they are at hand. Reading the disc is the
/// program's job, so here they never are, and the claims about them skip.
fn movies() -> Vec<(String, Vec<u8>)> {
    println!("skipping: system/Story is not at hand");
    Vec::new()
}

fn fps(movie: &Movie) -> f32 {
    match movie.rate {
        0 => 10.0,
        r if r > 0 => 1000.0 / r as f32,
        r => 100_000.0 / -r as f32,
    }
}

/// A movie `width` by `height` with the given frames (each its kind byte and
/// its bytes) and packed trees.
fn movie(width: u32, height: u32, rate: i32, frames: &[(u8, Vec<u8>)], trees: &[u8]) -> Vec<u8> {
    let mut out = vec![0u8; 104];
    out[0..4].copy_from_slice(b"SMK2");
    out[4..8].copy_from_slice(&width.to_le_bytes());
    out[8..12].copy_from_slice(&height.to_le_bytes());
    out[12..16].copy_from_slice(&(frames.len() as u32).to_le_bytes());
    out[16..20].copy_from_slice(&rate.to_le_bytes());
    out[52..56].copy_from_slice(&(trees.len() as u32).to_le_bytes());
    out[72..76].copy_from_slice(&22050u32.to_le_bytes());
    for (_, bytes) in frames {
        out.extend_from_slice(&(bytes.len() as u32).to_le_bytes());
    }
    for (kind, _) in frames {
        out.push(*kind);
    }
    out.extend_from_slice(trees);
    for (_, bytes) in frames {
        out.extend_from_slice(bytes);
    }
    out
}

/// The header's arithmetic accounts for every byte of every file.
#[test]
fn the_frames_fill_the_file() {
    for (name, data) in movies() {
        let movie = Movie::parse(&data).unwrap_or_else(|_| panic!("{name} does not parse"));
        let total: usize = movie.sizes.iter().sum();
        assert_eq!(movie.first + total, data.len(), "{name} does not add up");
        assert_eq!((movie.width, movie.height), (320, 240), "{name}");
        assert_eq!(movie.flags, 0, "{name} has flags this reader does not read");
        assert!((fps(&movie) - 15.0).abs() < 0.01, "{name} runs at {}", fps(&movie));
    }
}

/// Every audio chunk unpacks to exactly the size it declares.
#[test]
fn the_sound_is_the_length_it_says() {
    for (name, data) in movies() {
        let mut player = Player::new(&data).unwrap();
        let frames = player.movie.frames;
        let (mut chunks, mut samples) = (0usize, 0usize);
        for _ in 0..frames {
            player.step(&data);
            if !player.sound.is_empty() {
                chunks += 1;
                samples += player.sound.len();
            }
        }
        let rate = (player.movie.audio_rate[0] & 0xff_ffff) as f32;
        let seconds = samples as f32 / rate;
        let runtime = frames as f32 / fps(&player.movie);
        assert!(chunks > 0, "{name} has no sound");
        assert!(
            (seconds - runtime).abs() < 0.5,
            "{name}: {seconds:.2}s of sound against {runtime:.2}s of picture"
        );
    }
}

#[test]
fn a_six_bit_channel_spreads_over_eight() {
    assert_eq!(channel(0), 0);
    assert_eq!(channel(0x3f), 0xff);
    assert_eq!(channel(1), 4);
    assert_eq!(channel(0x20), 0x82);
    // The top two bits of the byte are not part of the channel.
    assert_eq!(channel(0xc1), 4);
}

#[test]
fn runs_are_their_index_then_powers_of_two() {
    assert_eq!(RUNS[0], 1);
    assert_eq!(RUNS[58], 59);
    assert_eq!(&RUNS[59..], &[128, 256, 512, 1024, 2048]);
}

#[test]
fn bits_come_least_significant_first() {
    let data = [0b1010_0101u8, 0xff];
    let mut bits = Bits::new(&data);
    assert!(bits.read());
    assert!(!bits.read());
    assert!(bits.read());
    assert_eq!(bits.position(), 3);
    // 0, 0, 1, 0, 1 from here: 0b10100.
    assert_eq!(bits.take(5), 0b10100);
    assert_eq!(bits.take(8), 0xff);
    assert!(!bits.past_end());
    // Past the end every bit reads clear.
    assert!(!bits.read());
    assert!(bits.past_end());
    assert_eq!(bits.take(4), 0);
}

#[test]
fn a_byte_tree_of_one_leaf_is_its_value() {
    // Present, a leaf, 0x7f, and the bit after.
    let data = [0xfd, 0x01];
    let mut bits = Bits::new(&data);
    let tree = ByteTree::parse(&mut bits);
    assert!(!tree.is_empty());
    assert_eq!(bits.position(), 11);
    let mut none = Bits::new(&[]);
    assert_eq!(tree.decode(&mut none), 0x7f);
    assert_eq!(none.position(), 0);
}

#[test]
fn a_byte_tree_branch_reads_a_bit() {
    // Present, a branch, leaf 1, leaf 2, and the bit after:
    // 1 1 0 [10000000] 0 [01000000] 0.
    let bits: [u8; 21] = [1, 1, 0, 1, 0, 0, 0, 0, 0, 0, 0, 0, 0, 1, 0, 0, 0, 0, 0, 0, 0];
    let mut packed = [0u8; 3];
    for (i, &b) in bits.iter().enumerate() {
        packed[i / 8] |= b << (i % 8);
    }
    let mut reader = Bits::new(&packed);
    let tree = ByteTree::parse(&mut reader);
    assert_eq!(reader.position(), 21);
    assert_eq!(tree.decode(&mut Bits::new(&[0])), 1);
    assert_eq!(tree.decode(&mut Bits::new(&[1])), 2);
}

#[test]
fn an_absent_tree_decodes_zero_and_reads_nothing() {
    let mut bits = Bits::new(&[0]);
    let tree = ByteTree::parse(&mut bits);
    assert!(tree.is_empty());
    assert_eq!(bits.position(), 1);
    let mut big = Bits::new(&[0]);
    let mut tree = Tree::parse(&mut big);
    assert!(tree.is_empty());
    assert_eq!(tree.leaves(), 0);
    let mut reader = Bits::new(&[0xff]);
    assert_eq!(tree.decode(&mut reader), 0);
    assert_eq!(reader.position(), 0);
}

#[test]
fn four_absent_trees_take_four_bits() {
    let trees = Trees::parse(&[0]);
    assert_eq!(trees.bits, 4);
    assert!(trees.map.is_empty() && trees.colour.is_empty() && trees.full.is_empty() && trees.kind.is_empty());
}

#[test]
fn a_header_refuses_what_is_not_a_movie() {
    assert!(matches!(Movie::parse(&[0; 50]), Err(Error::Truncated { at: 0, need: 104, have: 50, .. })));
    let mut data = movie(4, 4, 100, &[], &[]);
    data[0] = b'X';
    assert!(matches!(Movie::parse(&data), Err(Error::BadTag { at: 0, .. })));
    let mut data = movie(4, 4, 100, &[(0, vec![])], &[0]);
    // Claim three frames where one is listed.
    data[12] = 3;
    assert!(matches!(Movie::parse(&data), Err(Error::Truncated { at: 104, need: 16, .. })));
}

#[test]
fn a_header_reads_its_fields() {
    let data = movie(8, 4, -6667, &[(1, vec![0; 5]), (2, vec![0; 9])], &[0, 0]);
    let m = Movie::parse(&data).unwrap();
    assert_eq!((m.width, m.height, m.frames, m.rate), (8, 4, 2, -6667));
    assert_eq!(m.sizes, vec![4, 8], "the low two bits of a size are flags");
    assert_eq!(m.kinds, vec![1, 2]);
    assert_eq!(m.trees, vec![0, 0]);
    assert_eq!(m.first, 104 + 10 + 2);
    assert_eq!(m.audio_rate[0], 22050);
    assert!(m.has_palette(0) && !m.has_palette(1) && !m.has_palette(2));
    assert_eq!(m.frame_at(0), Some((116, 4)));
    assert_eq!(m.frame_at(1), Some((120, 8)));
    assert_eq!(m.frame_at(2), None);
    assert!(m.plays_in(&data));
}

#[test]
fn an_empty_palette_frame_does_not_play() {
    let data = movie(4, 4, 100, &[(1, vec![])], &[0]);
    let m = Movie::parse(&data).unwrap();
    assert!(!m.plays_in(&data));
}

#[test]
fn sound_unpacks_eight_bit_differences() {
    // Two samples; packed, mono, eight-bit; no tree; the first sample 0x90.
    let chunk = [2, 0, 0, 0, 0x01, 0x09];
    assert_eq!(sound(&chunk), vec![4096, 4096]);
    // Not packed: nothing.
    assert_eq!(sound(&[2, 0, 0, 0, 0]), Vec::<i16>::new());
    assert_eq!(sound(&[2, 0]), Vec::<i16>::new());
}

#[test]
fn sound_unpacks_sixteen_bit_samples_high_byte_first() {
    // One sample, unpacked size 2: packed, mono, sixteen-bit; two absent
    // trees; then 0x1234 stored as 0x34 then 0x12.
    let bits: Vec<u8> = {
        let mut b = vec![1, 0, 1, 0, 0];
        let stored: u16 = 0x3412;
        for i in 0..16 {
            b.push(((stored >> i) & 1) as u8);
        }
        b
    };
    let mut packed = vec![0u8; 3];
    for (i, &b) in bits.iter().enumerate() {
        packed[i / 8] |= b << (i % 8);
    }
    let mut chunk = vec![2, 0, 0, 0];
    chunk.extend_from_slice(&packed);
    assert_eq!(sound(&chunk), vec![0x1234]);
}

#[test]
fn a_frame_of_one_block_decodes_and_the_next_does_not() {
    let data = movie(4, 4, 100, &[(0, vec![])], &[0]);
    let mut player = Player::new(&data).unwrap();
    assert_eq!(player.frame(), 0);
    assert_eq!(player.picture, vec![0; 16]);
    assert_eq!(player.palette.len(), 256);
    assert!(player.step(&data));
    assert_eq!(player.frame(), 1);
    assert!(!player.step(&data));
    assert_eq!(player.frame(), 1);
}

#[test]
fn a_palette_chunk_sets_entries() {
    // Kind 1: a palette. Its first byte is its length in fours: one four,
    // then an entry of three six-bit channels.
    let frame = vec![1, 0x3f, 0x20, 0x01];
    let data = movie(4, 4, 100, &[(1, frame)], &[0]);
    let mut player = Player::new(&data).unwrap();
    assert!(player.step(&data));
    assert_eq!(player.palette[0], [0xff, 0x82, 0x04]);
    assert_eq!(player.palette[1], [0, 0, 0]);
}

#[test]
fn a_cut_short_audio_track_stops_the_frame() {
    // Kind 2: track 0 is there, but its four bytes of length are not.
    let data = movie(4, 4, 100, &[(2, vec![])], &[0]);
    let mut player = Player::new(&data).unwrap();
    assert!(!player.step(&data));
    assert_eq!(player.frame(), 0);
    // Kind 4: track 1 has its length, at least four, then the video.
    let data = movie(4, 4, 100, &[(4, vec![1, 2, 0, 0])], &[0]);
    let mut player = Player::new(&data).unwrap();
    assert!(player.step(&data));
    assert!(player.sound.is_empty(), "only track 0 is heard");
}

#[test]
fn a_show_draws_its_picture_stretched() {
    let data = movie(4, 4, 100, &[(0, vec![])], &[0]);
    let mut show = Show::new(data, "test.smk".to_string()).unwrap();
    assert_eq!(show.size(), (4, 4));
    assert!(!show.step(5), "one frame, and it is over");
    let mut buffer = vec![7u32; 5];
    show.draw(&mut buffer, 2, 2);
    assert_eq!(&buffer[..4], &[0xff00_0000; 4]);
    assert_eq!(buffer[4], 7, "past the window nothing changes");
    let mut empty = vec![7u32; 3];
    show.draw(&mut empty, 0, 2);
    assert_eq!(empty, vec![0xff00_0000; 3]);
    // No samples: no sound.
    assert!(show.sound().is_none());
    assert!(Show::new(vec![0; 10], "x".to_string()).is_none());
}
