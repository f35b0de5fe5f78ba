//! A level put together from small archives written here.

use hellbender::pod::Pod;
use hellbender::formats::act::Palette;
use hellbender::formats::colour::ColourMap;
use hellbender::formats::raw::{Image, Shape};
use hellbender::render::level::{halve, Level, LevelTables};
use std::path::PathBuf;

fn field(name: &str) -> Vec<u8> {
    let mut f = name.as_bytes().to_vec();
    f.resize(32, 0);
    f
}

/// Rules that name no extra models and no explosion.
fn no_tables() -> LevelTables {
    LevelTables { powerup_models: Vec::new(), shots: Vec::new(), muzzle: Vec::new(), blast_frames: 0 }
}

/// An archive of the given (name, body) pairs, laid end to end after the
/// directory.
fn archive(entries: &[(&str, Vec<u8>)]) -> Pod {
    let mut out = Vec::new();
    out.extend_from_slice(&(entries.len() as u32).to_le_bytes());
    out.extend_from_slice(&[0u8; 80]);
    let mut offset = 0x54 + 40 * entries.len();
    for (name, body) in entries {
        out.extend_from_slice(&field(name));
        out.extend_from_slice(&(body.len() as u32).to_le_bytes());
        out.extend_from_slice(&(offset as u32).to_le_bytes());
        offset += body.len();
    }
    for (_, body) in entries {
        out.extend_from_slice(body);
    }
    Pod::parse(PathBuf::from("x.pod"), out).unwrap()
}

/// A manifest naming `float.*` files, with the quake, navigation and sky
/// slots unused.
fn manifest() -> Vec<u8> {
    let lines = [
        "4", "float.brf", "float.raw", "float.clr", "float.act", "float.tex", "null", "null", "null",
        "float.tdf", "null", "null", "float.def", "null", "float.mod", "float.fog", "float.lte",
        "0,-65536,0", "32768", "0,-65536,0", "32768", "0", ";New story stuff", "null", "null", "null",
        "null", "null", "!New ground additions", "0", "float.crs", "float.glt", "0",
        "@Redbook Audio Track", "0", "=New Cinematic Info", "null", "null", "{ Weather", "0",
        "655360,655360", "983040,1966080",
    ];
    lines.iter().map(|l| format!("{l}\r\n")).collect::<String>().into_bytes()
}

/// The eleven terrain files of a flat level, every file its narrow size.
fn terrain() -> Vec<(&'static str, Vec<u8>)> {
    let cells = 16384;
    vec![
        ("DATA\\FLOAT.RAW", vec![0; cells]),
        ("DATA\\FLOAT.CLR", vec![0; cells]),
        ("DATA\\FLOAT.RA0", vec![0; cells]),
        ("DATA\\FLOAT.RA1", vec![0; cells]),
        ("DATA\\FLOAT.CL0", vec![0; cells * 6]),
        ("DATA\\FLOAT.RA2", vec![0; cells]),
        ("DATA\\FLOAT.RA3", vec![0; cells]),
        ("DATA\\FLOAT.CL1", vec![0; cells * 2]),
        ("DATA\\FLOAT.RA4", vec![0; cells]),
        ("DATA\\FLOAT.RA5", vec![0; cells]),
        ("DATA\\FLOAT.CL2", vec![0; cells * 6]),
    ]
}

#[test]
fn a_level_in_neither_archive_is_refused_by_name() {
    let game = archive(&[]);
    match Level::load(&game, None, "float", &no_tables()) {
        Err(why) => assert_eq!(why, "no levels\\float.lvl"),
        Ok(_) => panic!("loaded a level that is not there"),
    }
}

#[test]
fn a_manifest_that_is_not_one_is_refused_with_its_reader_s_words() {
    let game = archive(&[("LEVELS\\FLOAT.LVL", b"hello\r\n".to_vec())]);
    match Level::load(&game, None, "float", &no_tables()) {
        Err(why) => assert_eq!(why, "LVL: line 1 is \"expected 42 lines, got 1\""),
        Ok(_) => panic!("loaded a manifest of one line"),
    }
}

#[test]
fn a_level_without_its_ground_is_refused_at_the_first_terrain_file() {
    let game = archive(&[("LEVELS\\FLOAT.LVL", manifest())]);
    match Level::load(&game, None, "float", &no_tables()) {
        Err(why) => assert_eq!(why, "ground altitude: expected a file, got 0 bytes"),
        Ok(_) => panic!("loaded a level with no ground"),
    }
}

#[test]
fn the_front_end_archive_is_consulted_for_what_the_game_lacks() {
    let game = archive(&[]);
    let startup = archive(&[("LEVELS\\FLOAT.LVL", manifest())]);
    match Level::load(&game, Some(&startup), "FLOAT", &no_tables()) {
        Err(why) => assert_eq!(why, "ground altitude: expected a file, got 0 bytes"),
        Ok(_) => panic!("loaded a level with no ground"),
    }
}

#[test]
fn a_level_without_its_texture_list_is_refused_by_name() {
    let mut entries = vec![("LEVELS\\FLOAT.LVL", manifest())];
    entries.extend(terrain());
    let game = archive(&entries);
    match Level::load(&game, None, "float", &no_tables()) {
        Err(why) => assert_eq!(why, "no data\\float.tex"),
        Ok(_) => panic!("loaded a level with no texture list"),
    }
}

#[test]
fn a_palette_of_the_wrong_size_refuses_the_level() {
    let mut entries = vec![("LEVELS\\FLOAT.LVL", manifest())];
    entries.extend(terrain());
    entries.push(("DATA\\FLOAT.TEX", b"0\r\n".to_vec()));
    entries.push(("ART\\FLOAT.ACT", vec![0; 767]));
    let game = archive(&entries);
    match Level::load(&game, None, "float", &no_tables()) {
        Err(why) => assert_eq!(why, "ACT palette: expected 768 bytes, got 767 bytes"),
        Ok(_) => panic!("loaded a level with a short palette"),
    }
}

#[test]
fn a_level_of_flat_ground_and_no_types_loads() {
    let mut entries = vec![("LEVELS\\FLOAT.LVL", manifest())];
    entries.extend(terrain());
    entries.push(("DATA\\FLOAT.TEX", b"2\r\nGRASS.RAW\r\nROCK.RAW\r\n".to_vec()));
    entries.push(("ART\\FLOAT.ACT", vec![7; 768]));
    entries.push(("DATA\\FLOAT.DEF", b"0\r\n".to_vec()));
    entries.push(("ART\\GRASS.RAW", vec![3; 64 * 64]));
    entries.push(("FOG\\FLOAT.LTE", vec![1; 4096]));
    let game = archive(&entries);
    let level = Level::load(&game, None, "float", &no_tables()).ok().unwrap();
    assert_eq!(level.stem, "float");
    assert_eq!(level.texture_names, vec!["GRASS.RAW".to_string(), "ROCK.RAW".to_string()]);
    assert_eq!(level.textures.len(), 2);
    let grass = level.textures[0].as_ref().unwrap();
    assert_eq!((grass.shape.width, grass.shape.height), (64, 64));
    assert!(level.textures[1].is_none(), "ROCK.RAW is in neither archive");
    assert_eq!(level.resolved_textures(), 1);
    assert_eq!(level.palette.rgb(5), [7, 7, 7]);
    assert!(level.light.is_some(), "the light slot names FLOAT.LTE");
    assert!(level.fog.is_none(), "FLOAT.FOG is not there");
    assert!(level.terrain.shading.is_none(), "no shading database");
    assert!(level.kinds.is_empty() && level.destroy_sound.is_empty());
    assert!(level.sky.is_none() && level.stars.is_empty() && level.star_passes == 0);
    assert!(level.navs.is_empty() && level.courses.is_empty());
    assert!(level.quake.ground.is_empty() && level.quake.boxes.is_empty());
    assert!(level.sky_remap.is_none(), "no sky palette");
    let [half, quarter] = &level.mips[0];
    let half = half.as_ref().unwrap();
    assert_eq!((half.shape.width, half.shape.height), (32, 32));
    assert_eq!(half.pixels, vec![0; 32 * 32], "every colour is (7, 7, 7): entry 0 is the first nearest");
    assert_eq!(quarter.as_ref().unwrap().shape.width, 16);
    assert!(level.mips[1][0].is_none() && level.mips[1][1].is_none());
}

#[test]
fn a_half_size_image_averages_each_block_and_looks_the_colour_up() {
    let mut colours = [[0u8; 3]; 256];
    colours[1] = [10, 20, 30];
    colours[2] = [30, 40, 50];
    colours[9] = [20, 30, 40];
    let mut act = Vec::new();
    for c in colours {
        act.extend_from_slice(&c);
    }
    let palette = Palette::parse(&act).ok().unwrap();
    let image = Image { shape: Shape::new(2, 2), pixels: vec![1, 2, 1, 2] };
    let near = halve(&image, &palette, None).unwrap();
    assert_eq!((near.shape.width, near.shape.height), (1, 1));
    assert_eq!(near.pixels, vec![9], "the mean (20, 30, 40) is entry 9 exactly");
    let mut table = vec![0u8; 32_768];
    table[(20 / 8) * 1024 + (30 / 8) * 32 + 40 / 8] = 77;
    let map = ColourMap::parse(&table).ok().unwrap();
    assert_eq!(halve(&image, &palette, Some(&map)).unwrap().pixels, vec![77]);
    let odd = Image { shape: Shape::new(3, 2), pixels: vec![0; 6] };
    assert!(halve(&odd, &palette, None).is_none());
}

/// A shipped level, when the game's archives are at hand; opening them is
/// the program's job, so here they never are and the test skips.
fn shipped(stem: &str) -> Option<Level> {
    println!("skipping: GAME.POD is not at hand for {stem}");
    let game: Option<Pod> = None;
    let game = game?;
    Some(Level::load(&game, None, stem, &no_tables()).ok().unwrap())
}

#[test]
fn nothing_falls_on_a_clear_level() {
    let Some(level) = shipped("jurasic") else { return };
    assert!(!level.manifest.has_snow() && !level.manifest.has_rain());
}

/// A `.DEF` record for a type of the given model, wreck and destroy sound.
fn record(model: &str, wreck: &str, sound: &str) -> String {
    let mut lines = vec!["0".to_string(); 25];
    lines[0] = format!("0,0,65536,0,0,0,{model},{wreck}");
    for at in [4, 6, 9, 11, 16, 20, 22] {
        lines[at] = ";".to_string();
    }
    lines[8] = "Walker".to_string();
    lines[15] = "-1".to_string();
    lines[24] = sound.to_string();
    lines.iter().map(|l| format!("{l}\r\n")).collect()
}

/// A one-part animated model with no vertices.
fn walker() -> Vec<u8> {
    let lines = [
        "frameCount,timePerFrame", "1,0", "materialCount", "0", "materialList", "angle", "0,0,0", "center",
        "0,0,0", "magPower", "1", "partCount", "1", "partName", "body", "pivot", "0,0,0", "angleList",
        "0,0,0", "centerList", "0,0,0", "parent,partHP,legFlag", "-1,10,0", "min", "0,0,0", "max", "1,1,1",
        "vertexCount,faceCount", "0,0", "vertexList", "material and faceList",
    ];
    lines.iter().map(|l| format!("{l}\n")).collect::<String>().into_bytes()
}

#[test]
fn each_type_gets_its_mesh_and_its_destroy_sound() {
    let mut entries = vec![("LEVELS\\FLOAT.LVL", manifest())];
    entries.extend(terrain());
    entries.push(("DATA\\FLOAT.TEX", b"0\r\n".to_vec()));
    entries.push(("ART\\FLOAT.ACT", vec![7; 768]));
    let def = format!("2\r\n{}{}", record("WALKER.TXT", "cube.bin", " boom.wav "), record("tower.bin", "ruin.bin", "NULL"));
    entries.push(("DATA\\FLOAT.DEF", def.into_bytes()));
    entries.push(("MODELS\\WALKER.TXT", walker()));
    entries.push(("SOUND\\BOOM.WAV", b"bang".to_vec()));
    entries.push(("ART\\BLAST1.RAW", vec![1; 4096]));
    let game = archive(&entries);
    let tables = LevelTables {
        powerup_models: vec!["shield.bin".to_string()],
        shots: vec![(0, "shot.bin".to_string()), (2, "x.bin".to_string()), (1, String::new())],
        muzzle: vec!["flash.bin".to_string()],
        blast_frames: 2,
    };
    let level = Level::load(&game, None, "float", &tables).ok().unwrap();
    assert_eq!(level.powerup_mesh, vec![None], "shield.bin is in neither archive");
    assert_eq!(level.shot_mesh, vec![None, None, None]);
    assert_eq!(level.muzzle_mesh, vec![None]);
    assert_eq!(level.blast.len(), 2);
    assert!(level.blast[0].is_some() && level.blast[1].is_none());
    assert_eq!(level.kinds.len(), 2);
    assert_eq!(level.meshes.len(), 2, "neither wreck loads");
    let walker = level.meshes[0].as_ref().unwrap();
    assert!(walker.vertices.is_empty() && walker.polygons.is_empty() && walker.materials.is_empty());
    assert!(level.meshes[1].is_none(), "tower.bin is in neither archive");
    assert_eq!(level.wreck_mesh, vec![None, None]);
    assert!(level.mesh_textures.iter().all(|t| t.is_empty()));
    assert_eq!(level.destroy_sound, vec![Some(b"bang".to_vec()), None]);
    assert_eq!(level.animated[0].as_ref().unwrap().parts[0].name, "body");
    assert!(level.animated[1].is_none(), "tower.bin is not animated");
    assert!(level.mesh_flipbooks.iter().all(|f| f.is_empty()));
}
