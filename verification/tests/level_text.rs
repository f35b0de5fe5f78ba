//! A level's mission and lights, on files written here.

use hellbender::formats::glt;
use hellbender::formats::nav::{navs, Data, Kind};
use hellbender::formats::Error;

#[test]
fn a_mission_is_its_points_in_order() {
    let text = b"2\r\n6\r\n0,0,0\r\nStart here\r\n0,16384,0\r\n----\r\n\
                 0\r\n1,2,3\r\n!pri\r\n0,100\r\nDestroy it\r\n2\r\n5\r\n7\r\n---\r\n";
    let points = navs(text).ok().unwrap();
    assert_eq!(points.len(), 2);
    assert_eq!(points[0].kind, Kind::Start);
    assert_eq!(points[0].text, "Start here");
    assert_eq!(points[0].data, Data::Start { angles: [0, 16384, 0] });
    assert_eq!(points[0].priority, 1, "no priority block: optional");
    assert!(!points[0].required());
    assert_eq!(points[1].kind, Kind::Destroy);
    assert_eq!(points[1].position, [1, 2, 3]);
    assert_eq!((points[1].priority, points[1].time), (0, 100));
    assert!(points[1].required());
    assert_eq!(points[1].data, Data::Targets(vec![5, 7]));
}

#[test]
fn sounds_and_long_text_are_read_the_engines_way() {
    let long = "x".repeat(90);
    let text = format!("1\r\n2\r\n5,5,5\r\n@done\r\nhit.wav extra\r\nthrown away\r\n;near\r\nnull\r\n{long}\r\n");
    let points = navs(text.as_bytes()).ok().unwrap();
    assert_eq!(points[0].kind, Kind::Checkpoint);
    assert_eq!(points[0].completion_sound.as_deref(), Some("hit.wav"));
    assert_eq!(points[0].proximity_sound, None);
    assert_eq!(points[0].text.chars().count(), 78);
    assert_eq!(points[0].data, Data::Nothing);
}

#[test]
fn a_point_of_no_known_kind_is_refused() {
    match navs(b"1\r\n99\r\n0,0,0\r\n") {
        Err(Error::BadLine { what, line, saw }) => assert_eq!((what, line, saw.as_str()), ("NAV type", 2, "99")),
        _ => panic!("an unknown kind read"),
    }
    match navs(b"1\r\n2\r\n0,0\r\n") {
        Err(Error::BadLine { what, line, .. }) => assert_eq!((what, line), ("NAV position", 3)),
        _ => panic!("a position is three numbers"),
    }
    assert!(matches!(navs(b"x\r\n"), Err(Error::BadLine { what: "NAV count", .. })));
}

#[test]
fn kinds_have_their_codes_and_the_huds_letters() {
    assert_eq!(Kind::all().len(), 15);
    assert_eq!(Kind::from_code(14), Some(Kind::Kill));
    assert_eq!(Kind::from_code(15), None);
    assert_eq!(Kind::from_code(-1), None);
    assert_eq!(Kind::Kill.code(), 14);
    assert_eq!(Kind::Kill.abbreviation(), Some("TGT"));
    assert_eq!(Kind::DropBeacon.abbreviation(), Some("RES"));
    assert_eq!(Kind::Sync.abbreviation(), None);
}

#[test]
fn a_light_is_three_textures_and_eight_numbers() {
    let text = b"2\r\non.raw\r\noff.raw\r\nbroke.raw\r\n65536,2\r\n\
                 a\r\nb\r\nc\r\n1,2,3,4,5\r\n6,7,8\r\n";
    let lights = glt::parse(text).ok().unwrap();
    assert_eq!(lights.len(), 2);
    assert_eq!(lights[0].textures(), ["on.raw", "off.raw", "broke.raw"]);
    // The short form: two numbers, the rest the loader's defaults.
    assert_eq!(lights[0].numbers, [65536, 2, 0, 6, 1, 0, 1, 0]);
    assert_eq!(lights[1].numbers, [1, 2, 3, 4, 5, 6, 7, 8]);
    assert!(glt::parse(b"1\r\na\r\nb\r\nc\r\n1,2,3\r\n").is_err());
    assert!(glt::parse(b"1\r\na\r\nb\r\nc\r\n1,2,3,4,5\r\n6\r\n").is_err());
}
