use std::io::Write;

use base64::Engine;
use stcli_core::artifact::charx::{extract_charx, is_charx, is_media_path as is_archive_media, safe_archive_path, ArchiveEntry};
use stcli_core::artifact::exif::{extract_exif_user_comment, ContainerError};
use stcli_core::artifact::png::{decode_itxt_text, decode_json_payload, extract_png_card};
use stcli_core::artifact::webp::{decode_webp_json_payload, extract_webp_card, is_webp};
use stcli_core::artifact::xmp::extract_xmp_description;

const CARD: &[u8] = b"{\"spec\":\"chara_card_v2\"}";
const LIMIT: u64 = 1048576;

fn base64(bytes: &[u8]) -> Vec<u8> {
    base64::engine::general_purpose::STANDARD.encode(bytes).into_bytes()
}

fn chunk(kind: &[u8], data: &[u8]) -> Vec<u8> {
    let mut hasher = crc32fast::Hasher::new();
    hasher.update(kind);
    hasher.update(data);
    let mut out = (data.len() as u32).to_be_bytes().to_vec();
    out.extend_from_slice(kind);
    out.extend_from_slice(data);
    out.extend_from_slice(&hasher.finalize().to_be_bytes());
    out
}

fn png(chunks: &[Vec<u8>]) -> Vec<u8> {
    let mut out = b"\x89PNG\r\n\x1a\n".to_vec();
    for part in chunks {
        out.extend_from_slice(part);
    }
    out.extend_from_slice(&chunk(b"IEND", b""));
    out
}

fn text_chunk(keyword: &[u8], text: &[u8]) -> Vec<u8> {
    let mut data = keyword.to_vec();
    data.push(0);
    data.extend_from_slice(text);
    chunk(b"tEXt", &data)
}

fn international(keyword: &[u8], flag: u8, method: u8, text: &[u8]) -> Vec<u8> {
    let mut data = keyword.to_vec();
    data.push(0);
    data.push(flag);
    data.push(method);
    data.extend_from_slice(b"en\0card\0");
    data.extend_from_slice(text);
    chunk(b"iTXt", &data)
}

fn deflate(bytes: &[u8]) -> Vec<u8> {
    let mut encoder = flate2::write::ZlibEncoder::new(Vec::new(), flate2::Compression::default());
    encoder.write_all(bytes).unwrap();
    encoder.finish().unwrap()
}

#[test]
fn plain_png_text_holds_a_card() {
    let picture = png(&[chunk(b"IHDR", b"1234567890123"), text_chunk(b"chara", &base64(CARD))]);
    assert_eq!(extract_png_card(&picture, LIMIT).unwrap(), CARD);
    let bare = png(&[text_chunk(b"chara", b" {\"a\":1}\n")]);
    assert_eq!(extract_png_card(&bare, LIMIT).unwrap(), b"{\"a\":1}");
}

#[test]
fn first_png_text_of_a_kind_counts() {
    let picture = png(&[text_chunk(b"chara", b"{1}"), text_chunk(b"chara", b"{2}")]);
    assert_eq!(extract_png_card(&picture, LIMIT).unwrap(), b"{1}");
}

#[test]
fn third_version_counts_before_others() {
    let picture = png(&[
        text_chunk(b"chara", b"{plain}"),
        international(b"chara", 0, 0, b"{international}"),
        international(b"ccv3", 0, 0, b"{third}"),
    ]);
    assert_eq!(extract_png_card(&picture, LIMIT).unwrap(), b"{third}");
    let without = png(&[
        text_chunk(b"chara", b"{plain}"),
        international(b"chara", 0, 0, b"{international}"),
    ]);
    assert_eq!(extract_png_card(&without, LIMIT).unwrap(), b"{international}");
}

#[test]
fn compressed_png_text_is_unpacked() {
    let packed = deflate(&base64(CARD));
    let picture = png(&[international(b"ccv3", 1, 0, &packed)]);
    assert_eq!(extract_png_card(&picture, LIMIT).unwrap(), CARD);
    let long = deflate(b"{\"a\":1}trailing");
    let cut = png(&[international(b"ccv3", 1, 0, &long)]);
    assert_eq!(extract_png_card(&cut, 7).unwrap(), b"{\"a\":1}");
    let broken = png(&[international(b"ccv3", 1, 0, b"not packed")]);
    assert!(matches!(
        extract_png_card(&broken, LIMIT),
        Err(ContainerError::InvalidCompressedPngMetadata(_))
    ));
}

#[test]
fn damaged_png_pictures_are_refused() {
    assert!(matches!(
        extract_png_card(&b"GIF89a".to_vec(), LIMIT),
        Err(ContainerError::InvalidPng("invalid PNG signature"))
    ));
    let mut cut = png(&[text_chunk(b"chara", CARD)]);
    cut.pop();
    assert!(matches!(extract_png_card(&cut, LIMIT), Err(ContainerError::TruncatedPng)));
    let mut endless = b"\x89PNG\r\n\x1a\n".to_vec();
    endless.extend_from_slice(&text_chunk(b"chara", CARD));
    assert!(matches!(extract_png_card(&endless, LIMIT), Err(ContainerError::TruncatedPng)));
    let mut wrong = png(&[text_chunk(b"chara", CARD)]);
    wrong[20] ^= 1;
    assert!(matches!(
        extract_png_card(&wrong, LIMIT),
        Err(ContainerError::InvalidPng("chunk CRC mismatch"))
    ));
    let mut full = b"\x89PNG\r\n\x1a\n".to_vec();
    full.extend_from_slice(&chunk(b"IEND", b"x"));
    assert!(matches!(
        extract_png_card(&full, LIMIT),
        Err(ContainerError::InvalidPng("IEND chunk is not empty"))
    ));
    assert!(matches!(
        extract_png_card(&png(&[text_chunk(b"comment", CARD)]), LIMIT),
        Err(ContainerError::MissingPngMetadata)
    ));
    assert!(matches!(
        extract_png_card(&png(&[text_chunk(b"chara", b"***")]), LIMIT),
        Err(ContainerError::InvalidBase64PngMetadata(_))
    ));
}

#[test]
fn international_text_faults_are_told() {
    let faults: [(&[u8], &str); 5] = [
        (b"\0", "truncated iTXt chunk"),
        (b"\0\0en", "truncated iTXt language tag"),
        (b"\0\0en\0card", "truncated iTXt translated keyword"),
        (b"\x02\0\0\0x", "invalid iTXt compression flag"),
        (b"\x01\x07\0\0x", "unsupported iTXt compression method"),
    ];
    for (data, message) in faults {
        match decode_itxt_text(&data.to_vec(), LIMIT) {
            Err(ContainerError::InvalidPng(found)) => assert_eq!(found, message),
            other => panic!("{other:?}"),
        }
    }
    assert_eq!(decode_itxt_text(&b"\0\0\0\0text".to_vec(), LIMIT).unwrap(), b"text");
}

#[test]
fn png_payloads_are_json_or_base64() {
    assert_eq!(decode_json_payload(&b"\t{}\r\n".to_vec()).unwrap(), b"{}");
    assert_eq!(decode_json_payload(&b"eyJhIjoxfQ==".to_vec()).unwrap(), b"{\"a\":1}");
}

fn webp(chunks: &[(&[u8], Vec<u8>)]) -> Vec<u8> {
    let mut body = b"WEBP".to_vec();
    for (kind, data) in chunks {
        body.extend_from_slice(kind);
        body.extend_from_slice(&(data.len() as u32).to_le_bytes());
        body.extend_from_slice(data);
        if data.len() % 2 == 1 {
            body.push(0);
        }
    }
    let mut out = b"RIFF".to_vec();
    out.extend_from_slice(&(body.len() as u32).to_le_bytes());
    out.extend_from_slice(&body);
    out
}

fn exif(comment: &[u8]) -> Vec<u8> {
    let mut out = b"Exif\0\0II\x2a\0\x08\0\0\0\x01\0".to_vec();
    out.extend_from_slice(&0x9286u16.to_le_bytes());
    out.extend_from_slice(&7u16.to_le_bytes());
    out.extend_from_slice(&(comment.len() as u32).to_le_bytes());
    out.extend_from_slice(&26u32.to_le_bytes());
    out.extend_from_slice(&0u32.to_le_bytes());
    out.extend_from_slice(comment);
    out
}

#[test]
fn webp_comments_hold_a_card() {
    let mut comment = b"ASCII\0\0\0".to_vec();
    comment.extend_from_slice(CARD);
    let picture = webp(&[(b"VP8 ", b"abc".to_vec()), (b"EXIF", exif(&comment))]);
    assert!(is_webp(&picture));
    assert_eq!(extract_webp_card(&picture).unwrap(), CARD);
    let coded = webp(&[(b"EXIF", exif(&base64(CARD)))]);
    assert_eq!(extract_webp_card(&coded).unwrap(), CARD);
}

#[test]
fn webp_unicode_comments_are_read() {
    let mut comment = b"UNICODE\0".to_vec();
    for unit in "{\"n\":\"\u{1f600}\u{e9}\"}\0".encode_utf16() {
        comment.extend_from_slice(&unit.to_le_bytes());
    }
    assert_eq!(
        extract_exif_user_comment(&exif(&comment)).unwrap().unwrap(),
        "{\"n\":\"\u{1f600}\u{e9}\"}".as_bytes()
    );
    assert!(matches!(
        extract_exif_user_comment(&exif(b"UNICODE\0\x00\xd8")),
        Err(ContainerError::InvalidWebpExif("invalid Unicode UserComment"))
    ));
    assert!(matches!(
        extract_exif_user_comment(&exif(b"UNICODE\0a")),
        Err(ContainerError::InvalidWebpExif("odd-length Unicode UserComment"))
    ));
    assert!(matches!(
        extract_exif_user_comment(&exif(b"JIS\0\0\0\0\0abc")),
        Err(ContainerError::InvalidWebpExif("JIS UserComment encoding is unsupported"))
    ));
}

#[test]
fn webp_comments_behind_a_pointer_are_read() {
    let mut out = b"MM\0\x2a\0\0\0\x08\0\x01".to_vec();
    out.extend_from_slice(&0x8769u16.to_be_bytes());
    out.extend_from_slice(&4u16.to_be_bytes());
    out.extend_from_slice(&1u32.to_be_bytes());
    out.extend_from_slice(&26u32.to_be_bytes());
    out.extend_from_slice(&0u32.to_be_bytes());
    out.extend_from_slice(b"\0\x01");
    out.extend_from_slice(&0x9286u16.to_be_bytes());
    out.extend_from_slice(&2u16.to_be_bytes());
    out.extend_from_slice(&3u32.to_be_bytes());
    out.extend_from_slice(b"{}\0\0");
    out.extend_from_slice(&0u32.to_be_bytes());
    assert_eq!(extract_exif_user_comment(&out).unwrap().unwrap(), b"{}");
    assert!(matches!(
        extract_exif_user_comment(&b"XX\0\x2a\0\0\0\x08".to_vec()),
        Err(ContainerError::InvalidWebpExif("invalid TIFF byte order"))
    ));
    assert!(matches!(
        extract_exif_user_comment(&b"II\0".to_vec()),
        Err(ContainerError::InvalidWebpExif("truncated TIFF header"))
    ));
}

#[test]
fn webp_descriptions_are_unescaped() {
    let xmp = b"<x><!-- <dc:description> --><dc:description><rdf:Alt><rdf:li a=\"1\">{&quot;a&quot;:&#49;<![CDATA[}]]></rdf:li></rdf:Alt></dc:description></x>".to_vec();
    assert_eq!(extract_xmp_description(&xmp).unwrap().unwrap(), b"{\"a\":1}");
    let picture = webp(&[(b"XMP ", xmp)]);
    assert_eq!(extract_webp_card(&picture).unwrap(), b"{\"a\":1}");
    assert!(extract_xmp_description(&b"<x></x>".to_vec()).unwrap().is_none());
    assert!(matches!(
        extract_xmp_description(&b"<dc:description/>".to_vec()),
        Err(ContainerError::EmptyWebpDescription)
    ));
    assert!(matches!(
        extract_xmp_description(&b"<![CDATA[".to_vec()),
        Err(ContainerError::InvalidWebpXmp("unterminated CDATA section"))
    ));
}

#[test]
fn damaged_webp_pictures_are_refused() {
    assert!(!is_webp(&b"RIFF".to_vec()));
    assert!(matches!(
        extract_webp_card(&b"RIFF".to_vec()),
        Err(ContainerError::InvalidWebp("invalid RIFF WebP signature"))
    ));
    assert!(matches!(
        extract_webp_card(&b"RIFF\0\0\0\0WEBP".to_vec()),
        Err(ContainerError::InvalidWebp("RIFF size does not match input length"))
    ));
    assert!(matches!(
        extract_webp_card(&webp(&[])),
        Err(ContainerError::MissingWebpMetadata)
    ));
    let mut padded = webp(&[(b"XMP ", b"a".to_vec())]);
    let last = padded.len() - 1;
    padded[last] = 1;
    assert!(matches!(
        extract_webp_card(&padded),
        Err(ContainerError::InvalidWebp("non-zero chunk padding byte"))
    ));
    assert!(matches!(
        decode_webp_json_payload(&b" \n".to_vec()),
        Err(ContainerError::EmptyWebpDescription)
    ));
    assert!(matches!(
        decode_webp_json_payload(&b"***".to_vec()),
        Err(ContainerError::InvalidBase64WebpMetadata(_))
    ));
}

fn archive(files: &[(&str, &[u8])]) -> Vec<u8> {
    let mut writer = zip::ZipWriter::new(std::io::Cursor::new(Vec::new()));
    let options = zip::write::SimpleFileOptions::default()
        .compression_method(zip::CompressionMethod::Deflated);
    for (name, bytes) in files {
        if name.ends_with('/') {
            writer.add_directory(*name, options).unwrap();
        } else {
            writer.start_file(*name, options).unwrap();
            writer.write_all(bytes).unwrap();
        }
    }
    writer.finish().unwrap().into_inner()
}

#[test]
fn archives_hold_cards_books_and_media() {
    let source = archive(&[
        ("assets/", b""),
        ("card.json", CARD),
        ("books/lorebook.json", b"{\"entries\":[]}"),
        ("lorebook.json", b"{}"),
        ("assets/icon.PNG", b"picture"),
        ("notes.txt", b"skipped"),
    ]);
    assert!(is_charx(&source));
    let found = extract_charx(&source, LIMIT).unwrap();
    assert_eq!(found.card_json, CARD);
    assert_eq!(found.lorebooks, vec![b"{\"entries\":[]}".to_vec(), b"{}".to_vec()]);
    assert_eq!(found.assets.len(), 1);
    assert_eq!(found.assets[0].logical_path, "assets/icon.PNG");
    assert_eq!(found.assets[0].bytes, b"picture");
}

#[test]
fn ordinary_names_are_unpacked() {
    for name in ["a.png", "a/b c/d.png", "..a/b..png", "日本/絵.png"] {
        let source = archive(&[("card.json", CARD), (name, b"picture")]);
        let found = extract_charx(&source, LIMIT).unwrap();
        assert_eq!(found.assets[0].logical_path, name);
    }
}

#[test]
fn unsafe_archives_are_refused() {
    for name in ["../card.json", "/card.json", "a\\b.json", "a/./b", "a//b", "a\0b"] {
        match extract_charx(&archive(&[(name, b"{}")]), LIMIT) {
            Err(ContainerError::UnsafeArchivePath(found)) => assert_eq!(found, name),
            Err(other) => panic!("{other:?}"),
            Ok(_) => panic!("accepted {name:?}"),
        }
    }
    let twice = archive(&[("a", b"{}"), ("a/", b"")]);
    assert!(
        matches!(extract_charx(&twice, LIMIT), Err(ContainerError::DuplicateArchivePath(path)) if path == "a")
    );
    assert!(matches!(
        extract_charx(&archive(&[("a.txt", b"")]), LIMIT),
        Err(ContainerError::MissingCharxCard)
    ));
    assert!(matches!(
        extract_charx(&b"PK\x03\x04".to_vec(), LIMIT),
        Err(ContainerError::InvalidCharx(_))
    ));
}

#[test]
fn links_in_archives_are_refused() {
    let mut writer = zip::ZipWriter::new(std::io::Cursor::new(Vec::new()));
    writer.add_symlink("link", "card.json", zip::write::SimpleFileOptions::default()).unwrap();
    let source = writer.finish().unwrap().into_inner();
    assert!(
        matches!(extract_charx(&source, LIMIT), Err(ContainerError::UnsupportedArchiveEntry(path)) if path == "link")
    );
}

#[test]
fn archives_are_unpacked_up_to_a_limit() {
    let source = archive(&[("card.json", b"1234"), ("b.txt", b"567")]);
    assert!(extract_charx(&source, 7).is_ok());
    assert!(matches!(
        extract_charx(&source, 6),
        Err(ContainerError::CharxTooLarge { size: 7, limit: 6 })
    ));
}

#[test]
fn damaged_archive_entries_are_refused() {
    let mut source = archive(&[("card.json", b"{\"key\":\"value\"}")]);
    let at = source.windows(9).position(|part| part == b"card.json").unwrap() + 9;
    source[at + 3] ^= 0x55;
    assert!(matches!(extract_charx(&source, LIMIT), Err(ContainerError::ReadCharx(_))));
}

fn entry(raw_name: &[u8]) -> ArchiveEntry {
    ArchiveEntry {
        raw_name: raw_name.to_vec(),
        name: "shown".to_owned(),
        enclosed: true,
        symlink: false,
        file: true,
        directory: false,
        encrypted: false,
        size: 0,
    }
}

#[test]
fn entry_names_become_paths() {
    assert_eq!(safe_archive_path(&entry(b"a/b/")).unwrap(), "a/b");
    assert!(
        matches!(safe_archive_path(&entry(b"\xff")), Err(ContainerError::UnsafeArchivePath(name)) if name == "shown")
    );
    let mut outside = entry(b"a");
    outside.enclosed = false;
    assert!(
        matches!(safe_archive_path(&outside), Err(ContainerError::UnsafeArchivePath(name)) if name == "a")
    );
    assert!(is_archive_media("x/y.Jpeg"));
    assert!(!is_archive_media("png"));
    assert!(!is_archive_media("a.png.txt"));
}
