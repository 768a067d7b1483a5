//! AppImages and their metadata.

use buzzardos_guest::inspector::{
    bounded_child_output, check_png, check_size, collect_output, fallback_display_name, hex_text,
    identity_key, inspect_metadata, inspected_icon, memmem, normalize_png, parse_desktop_metadata, parse_listing,
    sanitize_icon_name, sanitize_name, select_desktop_entry, select_png_entry,
    validate_absolute_path, validate_elf_header, validate_metadata_path,
    validate_squashfs_superblock, FileObservation, InspectionError, ProcessStep, SquashfsScan,
    ELF_HEADER_SIZE, MAX_ICON_BYTES, SQUASHFS_SUPERBLOCK_SIZE,
};
use buzzardos_guest::paths::FilePath;

fn path(text: &str) -> FilePath {
    FilePath {
        bytes: text.as_bytes().to_vec(),
    }
}

fn elf_prefix() -> Vec<u8> {
    let mut bytes = vec![0u8; 4096];
    bytes[..4].copy_from_slice(b"\x7fELF");
    bytes[4] = 2;
    bytes[5] = 1;
    bytes[6] = 1;
    bytes[8..11].copy_from_slice(b"AI\x02");
    bytes[16..18].copy_from_slice(&3u16.to_le_bytes());
    bytes[18..20].copy_from_slice(&62u16.to_le_bytes());
    bytes[20..24].copy_from_slice(&1u32.to_le_bytes());
    bytes[52..54].copy_from_slice(&(ELF_HEADER_SIZE as u16).to_le_bytes());
    bytes
}

fn append_synthetic_squashfs(mut bytes: Vec<u8>) -> Vec<u8> {
    let offset = bytes.len();
    bytes.resize(offset + SQUASHFS_SUPERBLOCK_SIZE, 0);
    let block = &mut bytes[offset..];
    block[..4].copy_from_slice(b"hsqs");
    block[4..8].copy_from_slice(&1u32.to_le_bytes());
    block[12..16].copy_from_slice(&131_072u32.to_le_bytes());
    block[20..22].copy_from_slice(&1u16.to_le_bytes());
    block[22..24].copy_from_slice(&17u16.to_le_bytes());
    block[28..30].copy_from_slice(&4u16.to_le_bytes());
    block[30..32].copy_from_slice(&0u16.to_le_bytes());
    block[40..48].copy_from_slice(&(SQUASHFS_SUPERBLOCK_SIZE as u64).to_le_bytes());
    bytes
}

/// Searches a file piece by piece, as it is read.
fn find_squashfs(bytes: &[u8], piece: usize) -> Option<u64> {
    let mut scan = SquashfsScan::new();
    loop {
        let length = scan.next_length(bytes.len() as u64).min(piece);
        if length == 0 {
            return None;
        }
        let start = scan.offset as usize;
        for candidate in scan.advance(&bytes[start..start + length].to_vec()) {
            let at = candidate as usize;
            if at + SQUASHFS_SUPERBLOCK_SIZE <= bytes.len()
                && validate_squashfs_superblock(
                    &bytes[at..at + SQUASHFS_SUPERBLOCK_SIZE],
                    candidate,
                    bytes.len() as u64,
                )
            {
                return Some(candidate);
            }
        }
    }
}

#[test]
fn validates_x86_64_type2_and_rejects_fake_markers() {
    let valid = append_synthetic_squashfs(elf_prefix());
    assert_eq!(check_size(valid.len() as u64), Ok(()));
    assert_eq!(validate_elf_header(&valid[..ELF_HEADER_SIZE]), Ok(()));
    for piece in [1, 3, 97, 1 << 20] {
        assert_eq!(find_squashfs(&valid, piece), Some(4096));
    }

    let mut fake = elf_prefix();
    fake[18..20].copy_from_slice(&183u16.to_le_bytes());
    assert_eq!(
        validate_elf_header(&fake[..ELF_HEADER_SIZE]),
        Err(InspectionError::InvalidHeader)
    );
}

#[test]
fn headers_and_blocks_are_held_to_every_field() {
    let mut odd = elf_prefix();
    odd[16] = 1;
    assert_eq!(
        validate_elf_header(&odd[..ELF_HEADER_SIZE]),
        Err(InspectionError::InvalidType)
    );
    assert_eq!(check_size(159), Err(InspectionError::TooShort));
    assert_eq!(find_squashfs(&elf_prefix(), 512), None);
    for (at, value) in [(0, 0), (4, 0), (12, 1), (20, 0), (22, 16), (28, 5), (30, 1), (40, 1)] {
        let mut bytes = append_synthetic_squashfs(elf_prefix());
        bytes[4096 + at] = value;
        assert_eq!(find_squashfs(&bytes, 4096), None, "{at}");
    }
}

#[test]
fn listing_rejects_absolute_parent_and_excessive_paths() {
    for listing in [
        b"/absolute\n".as_slice(),
        b"squashfs-root/../escape\n".as_slice(),
    ] {
        assert!(matches!(
            parse_listing(listing),
            Err(InspectionError::UnsafeMetadataListing)
        ));
    }
}

#[test]
fn listings_are_ordered_by_their_parts() {
    let entries = parse_listing(
        b"squashfs-root\nsquashfs-root/a-b\r\n  squashfs-root/a/b  \nsquashfs-root/a//b\nz\n",
    )
    .unwrap();
    assert_eq!(entries, vec![path("a/b"), path("a-b"), path("z")]);
    assert!(parse_listing(b"\xff\n").is_err());
    let many = "x\n".repeat(16385);
    assert!(parse_listing(many.as_bytes()).is_err());
    let long = "x".repeat(4097);
    assert!(parse_listing(long.as_bytes()).is_err());
}

#[test]
fn paths_stay_inside() {
    assert_eq!(validate_metadata_path(&path("a/./b")), Ok(()));
    for unsafe_path in ["/a", "./a", "a/../b", ".."] {
        assert_eq!(
            validate_metadata_path(&path(unsafe_path)),
            Err(InspectionError::UnsafeMetadataListing)
        );
    }
    assert_eq!(validate_absolute_path(&path("/a/./b")), Ok(()));
    for invalid in ["a", "/", "//", "/./", "/a/..", ""] {
        assert_eq!(
            validate_absolute_path(&path(invalid)),
            Err(InspectionError::InvalidPath),
            "{invalid}"
        );
    }
}

#[test]
fn desktop_metadata_is_sanitized_without_using_exec() {
    let application = "Application".to_string();
    let (name, icon) = parse_desktop_metadata(
        &application,
        &"Useful Tool".to_string(),
        &Some("tool-icon".to_string()),
    )
    .unwrap();
    assert_eq!(name, "Useful Tool");
    assert_eq!(icon.as_deref(), Some("tool-icon"));
    assert!(
        parse_desktop_metadata(&application, &"Bad\x01Control".to_string(), &None).is_err()
    );
}

#[test]
fn names_that_cannot_be_shown_are_refused() {
    assert_eq!(
        parse_desktop_metadata(&"Link".to_string(), &"x".to_string(), &None),
        Err(InspectionError::NotAnApplication)
    );
    assert_eq!(sanitize_name("  a  ").unwrap(), "a");
    assert_eq!(sanitize_name("   "), Err(InspectionError::UnsafeName));
    assert_eq!(
        sanitize_name(&"x".repeat(513)),
        Err(InspectionError::UnsafeName)
    );
    assert_eq!(sanitize_icon_name(" a_1.png ").unwrap(), "a_1.png");
    for unsafe_name in ["", ".", "..", "a/b", "ä"] {
        assert_eq!(
            sanitize_icon_name(unsafe_name),
            Err(InspectionError::UnsafeIconName)
        );
    }
}

#[test]
fn names_come_from_files_where_nothing_else_gives_one() {
    assert_eq!(
        fallback_display_name(&path("/opt/My Tool.AppImage")).unwrap(),
        "My Tool"
    );
    assert_eq!(
        fallback_display_name(&path("/opt/tool.appimage")).unwrap(),
        "tool"
    );
    assert_eq!(
        fallback_display_name(&FilePath {
            bytes: b"/opt/\xff".to_vec()
        }),
        Err(InspectionError::NameNotText)
    );
    assert_eq!(
        fallback_display_name(&path("/opt/.AppImage")),
        Err(InspectionError::UnsafeName)
    );
}

#[test]
fn identities_ignore_case_and_punctuation() {
    assert_eq!(identity_key("Ünicode Tool-2.0"), "ünicodetool20");
    assert_eq!(identity_key("ΑΣ"), "ας".replace('ς', "σ"));
    let observation = FileObservation {
        device: 1,
        inode: 2,
        size: 3,
    };
    let inspected = inspect_metadata("Fallback".into(), None, observation, 4096, None);
    assert_eq!(inspected.identity_key, "fallback");
    let inspected =
        inspect_metadata("Fallback".into(), Some("A B".into()), observation, 4096, None);
    assert_eq!(inspected.display_name, "A B");
    assert_eq!(inspected.identity_key, "ab");
}

#[test]
fn the_nearest_description_and_the_best_icon_are_taken() {
    let entries: Vec<FilePath> = [
        "a.txt",
        "long-name.desktop",
        "tool.desktop",
        "usr/share/t.desktop",
        "usr/share/icons/128x128/tool.png",
        "usr/share/icons/256x256/tool.png",
        "tool.png",
    ]
    .iter()
    .map(|text| path(text))
    .collect();
    assert_eq!(select_desktop_entry(&entries), Some(2));
    assert_eq!(select_png_entry(&entries, "tool"), Some(5));
    assert_eq!(select_png_entry(&entries, "tool.svg"), Some(5));
    assert_eq!(select_png_entry(&entries, "other"), None);
    assert_eq!(select_desktop_entry(&Vec::new()), None);
}

fn png_header(width: u32, height: u32) -> Vec<u8> {
    let mut bytes = b"\x89PNG\r\n\x1a\n\0\0\0\rIHDR".to_vec();
    bytes.extend_from_slice(&width.to_be_bytes());
    bytes.extend_from_slice(&height.to_be_bytes());
    bytes
}

#[test]
fn icons_are_checked_before_they_are_decoded() {
    assert_eq!(check_png(&png_header(256, 256)), Ok(()));
    assert_eq!(check_png(&png_header(4096, 4096)), Ok(()));
    assert_eq!(
        check_png(&png_header(0, 1)),
        Err(InspectionError::UnsafeIconSize)
    );
    assert_eq!(
        check_png(&png_header(4097, 1)),
        Err(InspectionError::UnsafeIconSize)
    );
    assert_eq!(check_png(b"GIF"), Err(InspectionError::InvalidIcon));
    let mut large = png_header(1, 1);
    large.resize(MAX_ICON_BYTES + 1, 0);
    assert_eq!(check_png(&large), Err(InspectionError::InvalidIcon));
}

#[test]
fn icons_carry_the_digest_of_their_bytes() {
    let icon = inspected_icon(&path("usr/tool.png"), b"abc".to_vec());
    assert_eq!(icon.source_name, "tool.png");
    assert_eq!(
        icon.content_sha256,
        "ba7816bf8f01cfea414140de5dae2223b00361a396177a9cb410ff61f20015ad"
    );
    assert_eq!(icon.png_256, b"abc");
    assert_eq!(hex_text(&vec![0, 255, 16]), "00ff10");
}

fn png_of(image: &image::RgbaImage) -> Vec<u8> {
    let mut bytes = Vec::new();
    image::ImageEncoder::write_image(
        image::codecs::png::PngEncoder::new(&mut bytes),
        image.as_raw(),
        image.width(),
        image.height(),
        image::ExtendedColorType::Rgba8,
    )
    .unwrap();
    bytes
}

#[test]
fn png_normalization_is_bounded_and_deterministic() {
    let mut source = image::RgbaImage::new(32, 16);
    source.fill(255);
    source.put_pixel(0, 0, image::Rgba([255, 0, 0, 255]));
    let bytes = png_of(&source);
    let first = normalize_png(&path("tool.png"), &bytes, (256, 128)).unwrap();
    let second = normalize_png(&path("tool.png"), &bytes, (256, 128)).unwrap();
    assert_eq!(first, second);
    assert_eq!(first.source_name, "tool.png");
    assert_eq!(first.content_sha256.len(), 64);
    let decoded = image::load_from_memory(&first.png_256).unwrap();
    assert_eq!((decoded.width(), decoded.height()), (256, 256));
}

#[test]
fn icons_stand_in_the_middle_of_a_square() {
    let source = image::RgbaImage::from_fn(256, 100, |x, y| {
        image::Rgba([x as u8, y as u8, 7, 255])
    });
    let icon = normalize_png(&path(".."), &png_of(&source), (256, 100)).unwrap();
    assert_eq!(icon.source_name, "icon.png");
    let framed = image::load_from_memory(&icon.png_256).unwrap().into_rgba8();
    assert_eq!(framed.get_pixel(9, 77).0, [0, 0, 0, 0]);
    assert_eq!(framed.get_pixel(9, 78).0, [9, 0, 7, 255]);
    assert_eq!(framed.get_pixel(200, 177).0, [200, 99, 7, 255]);
    assert_eq!(framed.get_pixel(200, 178).0, [0, 0, 0, 0]);
}

#[test]
fn icons_that_cannot_be_read_are_refused() {
    let name = path("tool.png");
    assert_eq!(
        normalize_png(&name, b"GIF", (1, 1)),
        Err(InspectionError::InvalidIcon)
    );
    assert_eq!(
        normalize_png(&name, &png_header(0, 1), (1, 1)),
        Err(InspectionError::UnsafeIconSize)
    );
    assert_eq!(
        normalize_png(&name, &png_header(1, 1), (256, 256)),
        Err(InspectionError::UndecodableIcon)
    );
}

#[test]
fn parsers_are_bounded() {
    let mut output = Vec::new();
    assert!(!collect_output(&mut output, &vec![1, 2, 3], 4));
    assert!(collect_output(&mut output, &vec![4, 5], 4));
    assert_eq!(output, [1, 2, 3, 4]);
    assert_eq!(
        bounded_child_output(true, false, None),
        ProcessStep::Kill(InspectionError::ParserOutputLimit)
    );
    assert_eq!(
        bounded_child_output(false, true, None),
        ProcessStep::Kill(InspectionError::ParserTimeout)
    );
    assert_eq!(
        bounded_child_output(false, false, Some(false)),
        ProcessStep::Fail(InspectionError::ParserFailed)
    );
    assert_eq!(
        bounded_child_output(false, false, Some(true)),
        ProcessStep::Accept
    );
    assert_eq!(bounded_child_output(false, false, None), ProcessStep::Wait);
}

#[test]
fn every_place_of_a_needle_is_found() {
    assert_eq!(memmem(b"aaaa", b"aa"), [0, 1, 2]);
    assert_eq!(memmem(b"xhsqsxhsqs", b"hsqs"), [1, 6]);
    assert!(memmem(b"hsq", b"hsqs").is_empty());
}
