//! Loading a level's terrain grids through a lookup, on grids built here.

use hellbender::formats::terrain::{Scale, Terrain, TextureRef, CELLS};
use std::collections::HashSet;
use hellbender::formats::Error;

/// A grid of the right size for each extension, each byte the extension's
/// first letter, and the shading database where `lte` is asked for.
fn files(ext: &str, lte: bool) -> Option<Vec<u8>> {
    let fill = ext.as_bytes()[2];
    match ext {
        "raw" | "ra0" | "ra1" | "ra2" | "ra3" | "ra4" | "ra5" => Some(vec![fill; CELLS]),
        "clr" => Some(vec![fill; CELLS]),
        "cl0" | "cl2" => Some(vec![fill; CELLS * 6]),
        "cl1" => Some(vec![fill; CELLS * 2 * 2]),
        "lte" if lte => Some(vec![1; CELLS * 7]),
        _ => None,
    }
}

#[test]
fn all_thirteen_grids_load_in_their_layers() {
    let mut asked = Vec::new();
    let t = Terrain::load(|ext| {
        asked.push(ext.to_string());
        files(ext, true)
    })
    .ok()
    .unwrap();
    assert_eq!(asked, ["raw", "clr", "ra0", "ra1", "cl0", "ra2", "ra3", "cl1", "ra4", "ra5", "cl2", "lte"]);
    assert!(matches!(t.ground.scale, Scale::Up));
    assert!(matches!(t.chambers.floor.scale, Scale::Down));
    assert!(matches!(t.boxes_b.top.scale, Scale::Down));
    assert_eq!(t.colour.per_cell, 1);
    assert_eq!(t.boxes_a.textures.per_cell, 6);
    assert_eq!(t.chambers.textures.per_cell, 2);
    // `cl1` is two bytes a value: each little-endian pair of `1` bytes.
    assert_eq!(t.chambers.textures.values[0], 0x3131);
    assert_eq!(t.colour.values[5], b'r' as u16);
    assert!(t.shading.is_some());
}

#[test]
fn the_shading_database_may_be_absent() {
    let t = Terrain::load(|ext| files(ext, false)).ok().unwrap();
    assert!(t.shading.is_none());
}

#[test]
fn a_missing_grid_stops_the_load_there() {
    let mut asked = Vec::new();
    let r = Terrain::load(|ext| {
        asked.push(ext.to_string());
        if ext == "ra1" { None } else { files(ext, true) }
    });
    match r {
        Err(Error::WrongSize { what, want, have }) => {
            assert_eq!(what, "box A top");
            assert_eq!(want, "a file");
            assert_eq!(have, 0);
        }
        _ => panic!("a missing grid loaded"),
    }
    assert_eq!(asked, ["raw", "clr", "ra0", "ra1"]);
}

#[test]
fn a_grid_of_the_wrong_size_is_refused() {
    let r = Terrain::load(|ext| if ext == "cl0" { Some(vec![0; 5]) } else { files(ext, true) });
    match r {
        Err(Error::WrongSize { what, have, .. }) => {
            assert_eq!(what, "box A textures");
            assert_eq!(have, 5);
        }
        _ => panic!("a short grid loaded"),
    }
    let r = Terrain::load(|ext| if ext == "lte" { Some(vec![0; 3]) } else { files(ext, true) });
    assert!(matches!(r, Err(Error::WrongSize { have: 3, .. })));
}

const LO: f32 = 2.0;
const HI: f32 = 254.0;

fn uvs(code: u16) -> [(f32, f32); 4] {
    TextureRef(code << 12).corner_uvs(LO, HI)
}

#[test]
fn code_zero_leaves_v_running_against_z() {
    // a (x, z), b (x+1, z), c (x+1, z+1), d (x, z+1).
    assert_eq!(uvs(0), [(LO, HI), (HI, HI), (HI, LO), (LO, LO)]);
}

#[test]
fn the_top_two_bits_turn_a_quarter_each() {
    assert_eq!(uvs(4), [(HI, HI), (HI, LO), (LO, LO), (LO, HI)]);
    assert_eq!(uvs(8), [(HI, LO), (LO, LO), (LO, HI), (HI, HI)]);
    assert_eq!(uvs(12), [(LO, LO), (LO, HI), (HI, HI), (HI, LO)]);
}

#[test]
fn bit_one_mirrors_u_and_bit_zero_mirrors_v() {
    // Swapping a with b and d with c exchanges u at the same v.
    assert_eq!(uvs(2), [(HI, HI), (LO, HI), (LO, LO), (HI, LO)]);
    // Swapping a with d and b with c exchanges v at the same u.
    assert_eq!(uvs(1), [(LO, LO), (HI, LO), (HI, HI), (LO, HI)]);
    // Both is a half turn, the same as rotation 2.
    assert_eq!(uvs(3), uvs(8));
}

#[test]
fn every_code_is_one_of_the_eight_symmetries_of_a_square() {
    let distinct: HashSet<Vec<(i32, i32)>> = (0..16)
        .map(|c| uvs(c).iter().map(|&(u, v)| (u as i32, v as i32)).collect())
        .collect();
    assert_eq!(distinct.len(), 8);
}

#[test]
fn the_orientation_word_keeps_its_texture_index() {
    // Integers work as corners too: code 5 is a quarter turn, then v mirrored.
    let r = TextureRef(0x5123);
    assert_eq!(r.index(), 0x123);
    assert_eq!(r.corner_uvs(0u8, 1u8), [(0, 1), (0, 0), (1, 0), (1, 1)]);
}

#[test]
fn every_file_is_asked_for_in_load_order_then_the_shading() {
    let mut asked = Vec::new();
    let t = Terrain::load(|ext| {
        asked.push(ext.to_string());
        files(ext, true)
    });
    assert!(t.is_ok());
    assert_eq!(asked, ["raw", "clr", "ra0", "ra1", "cl0", "ra2", "ra3", "cl1", "ra4", "ra5", "cl2", "lte"]);
}

#[test]
fn the_files_fetched_are_put_together_in_load_order() {
    let exts = ["raw", "clr", "ra0", "ra1", "cl0", "ra2", "ra3", "cl1", "ra4", "ra5", "cl2", "lte"];
    let got: Vec<Option<Vec<u8>>> = exts.iter().map(|e| files(e, false)).collect();
    let t = Terrain::from_files(&got).ok().unwrap();
    assert!(t.shading.is_none());
    assert_eq!(t.ground.values[0], (b'w' as i16) << 7);
    // A run that stops at a missing file is that file's error.
    let r = Terrain::from_files(&[None]);
    assert!(matches!(r, Err(Error::WrongSize { what: "ground altitude", have: 0, .. })));
}
