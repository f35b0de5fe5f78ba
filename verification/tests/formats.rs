//! The small formats and the arithmetic, on values built here.

use hellbender::formats::act::Palette;
use hellbender::formats::anim;
use hellbender::formats::colour::{BlendTable, ColourMap, Ramp};
use hellbender::formats::fixed::{distance, floor_div, mul, wrap, ONE};
use hellbender::formats::png;
use hellbender::formats::raw::{Image, Shape};
use hellbender::formats::terrain::{Altitudes, BoxFace, Indices, Scale, Shading, TextureRef, CELLS};
use hellbender::formats::Error;

fn wrong_size<T>(r: Result<T, Error>) -> (String, usize) {
    match r {
        Err(Error::WrongSize { want, have, .. }) => (want, have),
        _ => panic!("not refused for its size"),
    }
}

#[test]
fn a_palette_is_768_bytes_colour_i_at_3i() {
    let data: Vec<u8> = (0..768).map(|i| (i % 256) as u8).collect();
    let p = Palette::parse(&data).ok().unwrap();
    assert_eq!(p.rgb(0), [0, 1, 2]);
    assert_eq!(p.rgb(100), [44, 45, 46]);
    assert_eq!(wrong_size(Palette::parse(&[0; 767])), ("768 bytes".to_string(), 767));
    assert!(matches!(Palette::parse_lenient(&[]), Ok(None)));
    assert!(matches!(Palette::parse_lenient(&data), Ok(Some(_))));
    assert!(Palette::parse_lenient(&[1]).is_err());
}

#[test]
fn nearest_weighs_green_most_and_takes_the_first_of_equals() {
    let mut p = Palette::default();
    p.colours[1] = [100, 0, 0];
    p.colours[2] = [0, 100, 0];
    p.colours[3] = [0, 100, 0];
    // 29 * 10 = 290 away from 1; 29 * 90 = 2610 from 0.
    assert_eq!(p.nearest([90, 0, 0]), 1);
    // Red and green each 30 off from 1 and from 2: green costs more, so 1
    // (29 * 30 + 58 * 30 = 2610 against 29 * 70 + 58 * 70 = 6090 from 2 and
    // 29 * 70 + 58 * 30 = 3770 from 0).
    assert_eq!(p.nearest([70, 30, 0]), 1);
    assert_eq!(p.nearest([0, 90, 0]), 2, "the first of two equal colours");
    assert_eq!(p.nearest([0, 0, 0]), 0);
    // Index 0 is 0, 0, 0 as well as 4..: the first wins.
    assert_eq!(p.nearest([1, 1, 1]), 0);
}

#[test]
fn a_colour_map_is_indexed_by_five_bits_a_channel() {
    let data: Vec<u8> = (0..32_768).map(|i| (i % 251) as u8).collect();
    let m = ColourMap::parse(&data).ok().unwrap();
    assert_eq!(m.lookup(0, 0, 0), 0);
    // (255 / 8) * 1024 + (8 / 8) * 32 + 7 / 8 = 31776.
    assert_eq!(m.lookup(255, 8, 7), (31_776 % 251) as u8);
    assert_eq!(wrong_size(ColourMap::parse(&[0; 3])).1, 3);
}

#[test]
fn a_ramp_is_sixteen_rows_of_256() {
    let data: Vec<u8> = (0..4096).map(|i| (i / 2) as u8).collect();
    let r = Ramp::parse(&data).ok().unwrap();
    assert_eq!(r.levels, 16);
    assert_eq!(r.shade(1, 10), 133);
    assert_eq!(wrong_size(Ramp::parse(&[0; 300])), ("4096 bytes".to_string(), 300));
    assert!(Ramp::parse(&[]).is_err());
    // The shading database is a multiple of 256 too, and is not a ramp.
    assert!(Ramp::parse(&vec![0u8; 114_688]).is_err());
    assert!(Ramp::parse(&[0; 512]).is_err());
}

#[test]
fn a_blend_table_knows_whether_it_is_symmetric() {
    let mut data = vec![0u8; 65_536];
    for a in 0..256 {
        for b in 0..256 {
            data[a * 256 + b] = ((a + b) / 2) as u8;
        }
    }
    let t = BlendTable::parse(&data).ok().unwrap();
    assert_eq!(t.blend(10, 20), 15);
    assert!(t.is_symmetric());
    data[1] = 99;
    assert!(!BlendTable::parse(&data).ok().unwrap().is_symmetric());
}

#[test]
fn images_are_the_size_their_shape_says_or_one_that_is_known() {
    let img = Image::parse(&[1, 2, 3, 4, 5, 6], Shape::new(3, 2)).ok().unwrap();
    assert_eq!((img.shape.width, img.shape.height), (3, 2));
    assert_eq!(wrong_size(Image::parse(&[1], Shape::new(3, 2))), ("6 bytes".to_string(), 1));
    let g = Shape::guess(64_000).unwrap();
    assert_eq!((g.width, g.height), (320, 200));
    assert!(Shape::guess(100).is_none());
    assert!(matches!(Image::parse_guessed(&[]), Ok(None)));
    assert!(Image::parse_guessed(&[0; 10]).is_err());
    let knob = Image::parse_guessed(&[0; 42]).ok().unwrap().unwrap();
    assert_eq!((knob.shape.width, knob.shape.height), (6, 7));
    let mut p = Palette::default();
    p.colours[2] = [9, 8, 7];
    let two = Image::parse(&[2, 0], Shape::new(2, 1)).ok().unwrap();
    assert_eq!(two.to_rgb(&p), vec![9, 8, 7, 0, 0, 0]);
}

#[test]
fn a_png_starts_with_its_signature_and_header() {
    let file = png::rgb(1, 1, &[255, 0, 0]);
    assert_eq!(&file[..8], &[0x89, b'P', b'N', b'G', 0x0d, 0x0a, 0x1a, 0x0a]);
    assert_eq!(&file[12..16], b"IHDR");
    assert_eq!(&file[16..24], &[0, 0, 0, 1, 0, 0, 0, 1]);
    assert_eq!(&file[file.len() - 8..file.len() - 4], b"IEND");
    // The IEND chunk's CRC is the well-known AE 42 60 82.
    assert_eq!(&file[file.len() - 4..], &[0xae, 0x42, 0x60, 0x82]);
}

#[test]
fn fixed_point_products_round_toward_minus_infinity() {
    assert_eq!(ONE, 65536);
    assert_eq!(mul(3 * ONE, ONE / 2), 3 * ONE / 2);
    assert_eq!(mul(-1, 1), -1, "-1/65536 rounds down, not to zero");
    assert_eq!(mul(1, 1), 0);
    assert_eq!(floor_div(-7, 2), -4);
    assert_eq!(floor_div(7, 2), 3);
    // The short way round: the low 26 bits, signed.
    assert_eq!(wrap(0x200_0000), -0x200_0000);
    assert_eq!(wrap(0x1ff_ffff), 0x1ff_ffff);
    assert_eq!(wrap(-0x200_0001), 0x1ff_ffff);
    assert_eq!(wrap(5), 5);
}

#[test]
fn altitude_layers_scale_up_or_down() {
    let mut data = vec![0u8; CELLS];
    data[1] = 2;
    data[128 * 3 + 5] = 1;
    let up = Altitudes::parse(&data, Scale::Up).ok().unwrap();
    let down = Altitudes::parse(&data, Scale::Down).ok().unwrap();
    assert_eq!(up.at(1, 0), Scale::Up.apply(2));
    assert_eq!(down.at(5, 3), Scale::Down.apply(1));
    // The world wraps at 128 cells.
    assert_eq!(up.at(129, 0), up.at(1, 0));
    assert_eq!(up.at(-127, 128), up.at(1, 0));
    assert_eq!(wrong_size(Altitudes::parse(&[0; 10], Scale::Up)).1, 10);
}

#[test]
fn texture_words_are_twelve_bits_of_index_and_four_of_orientation() {
    let t = TextureRef(0x5123);
    assert_eq!(t.index(), 0x123);
    assert_eq!(t.orientation(), 5);
    assert!(!t.is_upright());
    assert!(TextureRef(0x0042).is_upright());
    let mut data = vec![0u8; CELLS * 2];
    data[0] = 0x23;
    data[1] = 0x51;
    let ix = Indices::parse(&data, 1, "ground colour").ok().unwrap();
    assert_eq!(ix.texture_at(0, 0, 0).index(), 0x123);
    assert_eq!(ix.at(0, 0, 0), 0x5123);
    let narrow = Indices::parse(&vec![7u8; CELLS], 1, "ground colour").ok().unwrap();
    assert_eq!(narrow.at(3, 3, 0), 7);
    assert!(Indices::parse(&[0; 9], 1, "ground colour").is_err());
}

#[test]
fn box_faces_have_their_corners_and_normals() {
    let faces = BoxFace::all();
    assert_eq!(faces.len(), 6);
    assert_eq!(BoxFace::Top.normal(), [0, 1, 0]);
    assert_eq!(BoxFace::NegZ.normal(), [0, 0, -1]);
    assert_eq!(BoxFace::Bottom.corners()[2], (1, 1, false));
}

#[test]
fn the_shading_database_is_seven_bytes_a_cell() {
    let mut data = vec![0u8; CELLS * 7];
    for (k, b) in data[..7].iter_mut().enumerate() {
        *b = k as u8 + 1;
    }
    data[7 * 5 + 5] = 0b11;
    let s = Shading::parse(&data).ok().unwrap();
    assert_eq!(s.ground_at(0, 0), [1, 2]);
    assert_eq!(s.ground_word(0, 0), 0x0201);
    assert_eq!(s.ground_intensity(0, 0), 1);
    assert!(!s.ground_flag(0, 0), "bit 8 of 0x0201 is clear");
    assert_eq!(s.chamber_at(0, 0), [4, 5, 6]);
    // Flags 6: bit 0 clear, so the floor is lit; bit 1 set, so the ceiling
    // is not.
    assert_eq!(s.chamber_intensity(0, 0, false), Some(4));
    assert_eq!(s.chamber_intensity(0, 0, true), None);
    assert_eq!(s.chamber_intensity(5, 0, false), None);
    assert_eq!(s.chamber_intensity(5, 0, true), None);
    assert!(Shading::parse(&[0; 7]).is_err());
}

#[test]
fn an_error_says_what_was_read_and_what_was_wrong() {
    let short = hellbender::formats::act::Palette::parse(&[0, 0, 0]).unwrap_err();
    assert_eq!(short.message(), "ACT palette: expected 768 bytes, got 3 bytes");
    let truncated = Error::Truncated { what: "MRGL node", at: 0x1f, need: 4, have: 2 };
    assert_eq!(truncated.message(), "MRGL node: record at 0x1f needs 4 bytes, 2 left");
    let tag = Error::BadTag { what: "MRGL", tag: 0xab, at: 0 };
    assert_eq!(tag.message(), "MRGL: undefined tag 0xab at 0x0");
    let line = Error::BadLine { what: "TEX", line: 3, saw: "a\"b".to_string() };
    assert_eq!(line.message(), "TEX: line 3 is \"a\\\"b\"");
}

#[test]
fn an_animated_model_names_the_keyword_it_wanted() {
    match anim::parse(b"frames\n1,2\n") {
        Err(Error::BadLine { what, line, saw }) => {
            assert_eq!(what, "animated model keyword");
            assert_eq!(line, 1);
            assert_eq!(saw, "\"frames\", wanted \"frameCount,timePerFrame\"");
        }
        _ => panic!("a wrong keyword was read"),
    }
    // A triple that is not three numbers is shown as the list it was.
    let data = b"frameCount,timePerFrame\n1,2\nmaterialCount\n0\nmaterialList\nangle\n1,-2\n";
    match anim::parse(data) {
        Err(Error::BadLine { what, saw, .. }) => {
            assert_eq!(what, "animated model triple");
            assert_eq!(saw, "[1, -2]");
        }
        _ => panic!("a short triple was read"),
    }
}

/// A one-part animated model whose counts' row is the given line.
fn one_part_model(counts: &str) -> String {
    let lines = [
        "frameCount,timePerFrame", "1,0", "materialCount", "0", "materialList", "angle", "0,0,0", "center",
        "0,0,0", "magPower", "1", "partCount", "1", "partName", "body", "pivot", "0,0,0", "angleList",
        "0,0,0", "centerList", "0,0,0", "parent,partHP,legFlag", "-1,10,0", "min", "0,0,0", "max", "1,1,1",
        "vertexCount,faceCount", counts, "vertexList", "material and faceList",
    ];
    lines.iter().map(|l| format!("{l}\n")).collect()
}

#[test]
fn a_counts_row_of_one_number_is_caught_before_it_is_indexed() {
    assert!(anim::parse_checked(one_part_model("3").as_bytes()).is_none());
    let model = anim::parse_checked(one_part_model("0,0").as_bytes()).unwrap().ok().unwrap();
    assert_eq!(model.parts.len(), 1);
    assert_eq!(model.parts[0].name, "body");
    assert!(model.parts[0].vertices.is_empty() && model.parts[0].polygons.is_empty());
    assert_eq!(model.parts[0].hit_points, 10);
}

#[test]
fn a_distance_is_the_whole_root_of_the_wrapped_differences() {
    assert_eq!(distance([3, 4, 0], [0, 0, 0]), 5);
    assert_eq!(distance([0, 0, 0], [3, 4, 0]), 5);
    assert_eq!(distance([1, 1, 1], [0, 0, 0]), 1, "the root of 3, truncated");
    // A difference of 1023 units is one unit the short way round.
    assert_eq!(distance([0x3ff_0000, 0, 0], [0, 0, 0]), 0x1_0000);
    assert_eq!(distance([0x100_0000, 0x100_0000, 0], [0, 0, 0]), 23_726_566);
}
