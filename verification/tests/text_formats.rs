//! The positional text formats, the settings file and the campaign order, on
//! text written here.

use hellbender::formats::brief::Brief;
use hellbender::formats::campaign::{after, campaign, first, index_of, network};
use hellbender::formats::ini::{control_defaults, default_binding, Ini};
use hellbender::formats::text::{
    expect_sentinel, integer, ints, is_sentinel, line_count, lines, name_list, optional_name,
};
use hellbender::formats::Error;

fn bad_line<T>(r: Result<T, Error>) -> (usize, String) {
    match r {
        Err(Error::BadLine { line, saw, .. }) => (line, saw),
        _ => panic!("not refused for a line"),
    }
}

#[test]
fn lines_split_on_crlf_or_lf_and_lose_trailing_blanks() {
    assert_eq!(lines(b"a\r\nb\nc\r\n\r\n"), vec!["a", "b", "c"]);
    assert_eq!(lines(b""), Vec::<String>::new());
    assert_eq!(lines(b"\r\n\r\nx"), vec!["", "", "x"]);
    // Bytes that are not UTF-8 read as the replacement character.
    assert_eq!(lines(&[0x61, 0xff, 0x62]), vec!["a\u{fffd}b"]);
    assert_eq!(line_count(&lines(b"1\n2\n")), 2);
}

#[test]
fn sentinels_are_the_eight_marks() {
    for s in [";x", "!", "@a", "=", "{", "#", "%", ":"] {
        assert!(is_sentinel(s), "{s}");
    }
    assert!(!is_sentinel("x;"));
    assert!(!is_sentinel(""));
    let l = lines(b"1\n;NewHit\n");
    assert!(expect_sentinel(&l, 1, "hit").is_ok());
    assert_eq!(bad_line(expect_sentinel(&l, 0, "hit")), (1, "1".to_string()));
    assert_eq!(bad_line(expect_sentinel(&l, 5, "hit")), (6, String::new()));
}

#[test]
fn numbers_are_whole_lines_or_comma_lists() {
    let l = lines(b" 42 \n1, -2,3\n1,,2\nx\n");
    assert_eq!(integer(&l, 0, "n").ok(), Some(42));
    assert_eq!(bad_line(integer(&l, 3, "n")), (4, "x".to_string()));
    assert_eq!(ints(&l, 1, "n").ok(), Some(vec![1, -2, 3]));
    assert_eq!(bad_line(ints(&l, 2, "n")), (3, "1,,2".to_string()));
    assert_eq!(bad_line(ints(&l, 9, "n")), (10, String::new()));
}

#[test]
fn null_names_an_empty_slot() {
    assert_eq!(optional_name("  sky.raw "), Some("sky.raw"));
    assert_eq!(optional_name("NULL"), None);
    assert_eq!(optional_name("null"), None);
    assert_eq!(optional_name("   "), None);
}

#[test]
fn a_name_list_is_a_count_then_that_many_names() {
    assert_eq!(name_list(b"2\r\na.raw\r\nb.raw\r\nextra\r\n", "TEX").ok(), Some(vec!["a.raw".to_string(), "b.raw".to_string()]));
    let (line, saw) = bad_line(name_list(b"3\r\na.raw\r\n", "TEX"));
    assert_eq!((line, saw.as_str()), (2, "declared 3, have 1"));
    assert!(name_list(b"many\r\n", "TEX").is_err());
}

#[test]
fn settings_are_sections_of_keys_without_regard_to_case() {
    let ini = Ini::parse("; a comment\n[Control]\nFireKey = 30\nbad line\nupKey=300\n[Other]\nname = x = y\n");
    assert_eq!(ini.get("control", "firekey"), Some("30"));
    assert_eq!(ini.get("OTHER", "NAME"), Some("x = y"));
    assert_eq!(ini.get("control", "name"), None);
    assert_eq!(ini.integer("Control", "fireKey"), Some(30));
    assert_eq!(ini.integer("Other", "name"), None);
    assert_eq!(ini.binding("fireKey"), Some(30));
    // Out of a scan code's range: the default.
    assert_eq!(ini.binding("upKey"), Some(72));
    assert_eq!(ini.binding("noSuchKey"), None);
}

#[test]
fn the_engine_has_a_default_for_every_binding() {
    let defaults = control_defaults();
    assert_eq!(defaults.len(), 64);
    assert_eq!(defaults[0], ("weaponKey", 33));
    assert_eq!(default_binding("fireKey"), Some(57));
    assert_eq!(default_binding("FireKey"), None, "binding names match exactly");
}

#[test]
fn the_campaign_runs_in_order_and_wraps() {
    let c = campaign();
    assert_eq!(c.len(), 23);
    assert_eq!(first(), "morbos");
    assert_eq!(index_of("IOWAH2"), Some(6));
    assert_eq!(index_of("netlvl1"), None);
    assert_eq!(after("morbos"), "morbos2");
    assert_eq!(after("ship2"), "morbos");
    assert_eq!(after("nowhere"), "morbos");
    assert_eq!(network(), ["netlvl1", "netlvl2", "netlvl3"]);
    assert_eq!((c[21].chapter, c[21].mission), (8, 1));
}

#[test]
fn a_briefing_is_a_model_a_texture_and_prose_up_to_a_dot() {
    let text = b"Globe.Bin \r\nMorbos00.Raw\r\n\r\nPLANET: Morbos\r\nMission:  Counterstrike  \r\n\r\nGo.\r\n\r\n.\r\nignored\r\n";
    let b = Brief::parse(text).ok().unwrap();
    assert_eq!(b.model, "Globe.Bin");
    assert_eq!(b.texture, "Morbos00.Raw");
    assert_eq!(b.lines, vec!["PLANET: Morbos", "Mission:  Counterstrike", "", "Go."]);
    assert_eq!(b.headline(), (Some("Morbos"), Some("Counterstrike")));
    assert!(Brief::parse(b"").is_err());
    assert!(Brief::parse(b"only a model").is_err());
    let bare = Brief::parse(b"m\r\nt\r\n").ok().unwrap();
    assert!(bare.lines.is_empty());
    assert_eq!(bare.headline(), (None, None));
}
