use gibfonts::archive::{extract_fonts, select_font, FontFile};
use gibfonts::error::ExtractError;
use std::io::Write;

fn tar_xz(entries: &[(&str, &[u8])]) -> Vec<u8> {
    let mut builder = tar::Builder::new(Vec::new());
    for (path, content) in entries {
        let mut header = tar::Header::new_gnu();
        header.set_size(content.len() as u64);
        header.set_mode(0o644);
        header.set_cksum();
        builder.append_data(&mut header, path, *content).unwrap();
    }
    let plain = builder.into_inner().unwrap();
    let mut encoder = xz2::write::XzEncoder::new(Vec::new(), 6);
    encoder.write_all(&plain).unwrap();
    encoder.finish().unwrap()
}

fn font(name: &str, content: &[u8]) -> FontFile {
    FontFile { name: name.as_bytes().to_vec(), content: content.to_vec() }
}

#[test]
fn fonts_are_extracted_flat_and_others_skipped() {
    let data = tar_xz(&[
        ("a.ttf", b"alpha"),
        ("b.otf", b"beta"),
        ("c.txt", b"gamma"),
        ("d/e.ttf", b"epsilon"),
    ]);
    let extraction = extract_fonts(&data);
    assert_eq!(extraction.failure, None);
    assert_eq!(
        extraction.files,
        vec![font("a.ttf", b"alpha"), font("b.otf", b"beta"), font("e.ttf", b"epsilon")]
    );
}

#[test]
fn select_font_rejects_path_without_file_name() {
    assert_eq!(select_font(b"..", Vec::new()), Err(ExtractError::MissingFileName));
}

#[test]
fn select_font_keeps_a_font_under_its_file_name() {
    assert_eq!(select_font(b"d/e.ttf", b"xyz".to_vec()), Ok(Some(font("e.ttf", b"xyz"))));
    assert_eq!(select_font(b"b.otf", Vec::new()), Ok(Some(font("b.otf", b""))));
}

#[test]
fn select_font_skips_what_is_no_font() {
    assert_eq!(select_font(b"c.txt", b"xyz".to_vec()), Ok(None));
    assert_eq!(select_font(b"fonts/", Vec::new()), Ok(None));
    assert_eq!(select_font(b"a.TTF", Vec::new()), Ok(None));
    assert_eq!(select_font(b"dir/.ttf", Vec::new()), Ok(None));
}

#[test]
fn select_font_rejects_every_path_without_file_name() {
    for path in ["", ".", "./", "/", "a/..", ".."] {
        assert_eq!(
            select_font(path.as_bytes(), Vec::new()),
            Err(ExtractError::MissingFileName),
            "path {:?}",
            path
        );
    }
}

#[test]
fn an_empty_archive_holds_no_fonts() {
    let extraction = extract_fonts(&tar_xz(&[]));
    assert_eq!(extraction.files, Vec::new());
    assert_eq!(extraction.failure, None);
}

#[test]
fn an_archive_without_fonts_gives_none() {
    let extraction = extract_fonts(&tar_xz(&[("LICENSE", b"mit"), ("readme.md", b"hello")]));
    assert_eq!(extraction.files, Vec::new());
    assert_eq!(extraction.failure, None);
}

#[test]
fn fonts_with_one_file_name_are_all_handed_out() {
    let data = tar_xz(&[("x/a.ttf", b"first"), ("y/a.ttf", b"second")]);
    let extraction = extract_fonts(&data);
    assert_eq!(extraction.files, vec![font("a.ttf", b"first"), font("a.ttf", b"second")]);
    assert_eq!(extraction.failure, None);
}

#[test]
fn the_content_of_a_font_comes_out_whole() {
    let content: Vec<u8> = (0..100_000u32).map(|i| (i % 251) as u8).collect();
    let data = tar_xz(&[("doc.txt", b"skip me"), ("big.otf", &content), ("z.ttf", b"")]);
    let extraction = extract_fonts(&data);
    assert_eq!(extraction.failure, None);
    assert_eq!(extraction.files.len(), 2);
    assert_eq!(extraction.files[0].name, b"big.otf".to_vec());
    assert_eq!(extraction.files[0].content, content);
    assert_eq!(extraction.files[1], font("z.ttf", b""));
}

#[test]
fn an_entry_without_file_name_ends_the_walk() {
    let data = tar_xz(&[("a.ttf", b"alpha"), ("./", b""), ("b.otf", b"beta")]);
    let extraction = extract_fonts(&data);
    assert_eq!(extraction.files, vec![font("a.ttf", b"alpha")]);
    assert_eq!(extraction.failure, Some(ExtractError::MissingFileName));
}

#[test]
fn bytes_that_are_no_archive_are_refused() {
    let extraction = extract_fonts(b"not an archive");
    assert_eq!(extraction.files, Vec::new());
    assert!(matches!(extraction.failure, Some(ExtractError::InvalidArchive(_))));
    let extraction = extract_fonts(b"");
    assert_eq!(extraction.files, Vec::new());
    assert!(matches!(extraction.failure, Some(ExtractError::InvalidArchive(_))));
}

#[test]
fn a_tar_archive_that_is_not_compressed_is_refused() {
    let mut builder = tar::Builder::new(Vec::new());
    let mut header = tar::Header::new_gnu();
    header.set_size(5);
    header.set_mode(0o644);
    header.set_cksum();
    builder.append_data(&mut header, "a.ttf", &b"alpha"[..]).unwrap();
    let plain = builder.into_inner().unwrap();
    let extraction = extract_fonts(&plain);
    assert_eq!(extraction.files, Vec::new());
    assert!(matches!(extraction.failure, Some(ExtractError::InvalidArchive(_))));
}

#[test]
fn compressed_bytes_that_are_no_tar_archive_are_refused() {
    let mut encoder = xz2::write::XzEncoder::new(Vec::new(), 6);
    encoder.write_all(&[7u8; 2000]).unwrap();
    let data = encoder.finish().unwrap();
    let extraction = extract_fonts(&data);
    assert_eq!(extraction.files, Vec::new());
    assert!(matches!(extraction.failure, Some(ExtractError::InvalidArchive(_))));
}

#[test]
fn an_archive_that_breaks_off_keeps_the_fonts_before_the_break() {
    let mut builder = tar::Builder::new(Vec::new());
    for (path, content) in [("a.ttf", &b"alpha"[..]), ("b.otf", &b"beta"[..])] {
        let mut header = tar::Header::new_gnu();
        header.set_size(content.len() as u64);
        header.set_mode(0o644);
        header.set_cksum();
        builder.append_data(&mut header, path, content).unwrap();
    }
    let mut plain = builder.into_inner().unwrap();
    // The second header starts at 1024: spoil its checksum.
    plain[1024 + 148] = b'9';
    plain[1024 + 149] = b'9';
    let mut encoder = xz2::write::XzEncoder::new(Vec::new(), 6);
    encoder.write_all(&plain).unwrap();
    let data = encoder.finish().unwrap();
    let extraction = extract_fonts(&data);
    assert_eq!(extraction.files, vec![font("a.ttf", b"alpha")]);
    assert!(matches!(extraction.failure, Some(ExtractError::InvalidArchive(_))));
}

#[test]
fn a_compressed_stream_that_is_cut_short_is_refused() {
    let content: Vec<u8> = (0..50_000u32).map(|i| (i * 7919 % 256) as u8).collect();
    let data = tar_xz(&[("a.ttf", &content)]);
    let cut = &data[..data.len() / 2];
    let extraction = extract_fonts(cut);
    assert_eq!(extraction.files, Vec::new());
    assert!(matches!(extraction.failure, Some(ExtractError::InvalidArchive(_))));
}
