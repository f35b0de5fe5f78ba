use hellbender::pod::{Error, Pod};
use std::path::PathBuf;

fn field(name: &[u8]) -> Vec<u8> {
    let mut f = name.to_vec();
    f.resize(32, 0);
    f
}

/// An archive of the given (name field, body) pairs, laid end to end after
/// the directory.
fn archive(comment: &str, entries: &[(Vec<u8>, &[u8])]) -> Vec<u8> {
    let mut out = Vec::new();
    out.extend_from_slice(&(entries.len() as u32).to_le_bytes());
    let mut c = comment.as_bytes().to_vec();
    c.resize(80, 0);
    out.extend_from_slice(&c);
    let mut offset = 0x54 + 40 * entries.len();
    for (name, body) in entries {
        out.extend_from_slice(&field(name));
        out.extend_from_slice(&(body.len() as u32).to_le_bytes());
        out.extend_from_slice(&(offset as u32).to_le_bytes());
        offset += body.len();
    }
    for (_, body) in entries {
        out.extend_from_slice(body);
    }
    out
}

#[test]
fn an_archive_reads_back_its_directory() {
    let data = archive(
        "Startup Hellbender 1.0",
        &[(b"ART\\AFTR0000.RAW\0VGA.ACT".to_vec(), b"abcd"), (b"DATA\\FLOAT.RA0".to_vec(), b"xyz")],
    );
    let pod = Pod::parse(PathBuf::from("x.pod"), data).unwrap();
    assert_eq!(pod.comment(), "Startup Hellbender 1.0");
    assert_eq!(pod.entries().len(), 2);
    let e = &pod.entries()[0];
    assert_eq!(e.name, "ART\\AFTR0000.RAW");
    assert_eq!(e.palette, "VGA.ACT");
    assert_eq!(e.dir(), "art");
    assert_eq!(e.file_name(), "aftr0000.raw");
    assert_eq!(e.ext(), "raw");
    assert_eq!(e.path(), "ART/AFTR0000.RAW");
    assert_eq!(pod.entries()[1].palette, "");
    assert_eq!(pod.bytes(e), b"abcd");
    assert_eq!(pod.read("Data", "Float.ra0").unwrap(), b"xyz");
    assert!(pod.is_gapless());
    match pod.read("data", "nothing") {
        Err(Error::NotFound(what)) => assert_eq!(what, "data\\nothing"),
        _ => panic!("expected NotFound"),
    }
}

#[test]
fn a_short_file_is_truncated() {
    match Pod::parse(PathBuf::from("x"), vec![0; 10]) {
        Err(Error::Truncated { need, have }) => assert_eq!((need, have), (0x54, 10)),
        _ => panic!(),
    }
    let mut data = archive("", &[]);
    data[0] = 2;
    match Pod::parse(PathBuf::from("x"), data) {
        Err(Error::Truncated { need, have }) => assert_eq!((need, have), (0x54 + 80, 0x54)),
        _ => panic!(),
    }
}

#[test]
fn an_entry_past_the_end_is_refused() {
    let mut data = archive("", &[(b"A\\B".to_vec(), b"12")]);
    let n = data.len();
    data.truncate(n - 1);
    match Pod::parse(PathBuf::from("x"), data) {
        Err(Error::EntryOutOfBounds { name, offset, size }) => {
            assert_eq!((name.as_str(), offset, size), ("A\\B", 0x54 + 40, 2))
        }
        _ => panic!(),
    }
}

#[test]
fn padding_is_a_gap() {
    let mut data = archive("", &[(b"A\\B".to_vec(), b"12")]);
    data.push(0);
    let pod = Pod::parse(PathBuf::from("x"), data).unwrap();
    assert!(!pod.is_gapless());
}

#[test]
fn overlapping_entries_with_a_gap_are_not_gapless() {
    // Two entries of ten bytes at 164 and 169 in a 184-byte file: bytes 169
    // to 173 belong to both and 179 to 183 to neither, though the sizes add
    // up to the bytes after the directory.
    let mut d = vec![0u8; 184];
    d[0..4].copy_from_slice(&2u32.to_le_bytes());
    d[0x54] = b'A';
    d[0x74..0x78].copy_from_slice(&10u32.to_le_bytes());
    d[0x78..0x7c].copy_from_slice(&164u32.to_le_bytes());
    d[0x7c] = b'B';
    d[0x9c..0xa0].copy_from_slice(&10u32.to_le_bytes());
    d[0xa0..0xa4].copy_from_slice(&169u32.to_le_bytes());
    let pod = Pod::parse(PathBuf::from("x"), d).unwrap();
    assert!(!pod.is_gapless());
}

#[test]
fn the_extension_is_the_file_names_own() {
    let pod = Pod::parse(
        PathBuf::from("x"),
        archive("", &[(b"MY.DIR\\README".to_vec(), b"1"), (b"ART\\AFTR0000.RAW".to_vec(), b"2")]),
    )
    .unwrap();
    assert_eq!(pod.entries()[0].ext(), "");
    assert_eq!(pod.entries()[1].ext(), "raw");
}
