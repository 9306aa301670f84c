use dllup::config::Config;
use dllup::dispatch::ResizeDispatcher;
use dllup::exif::{ensure_exif_header, insert_exif_segment, normalize_exif_orientation, summarize_exif, ExifField, NumVal};
use dllup::image_processor::{
    bytes_eq, dimension_cache_path, dimension_sidecar_content, extension_for_format,
    image_format_from_extension, is_remote, local_source_path, looks_like_svg, numbered_filename,
    parse_cached_dimensions, plan_original_cache, sanitize_filename, CacheEntry, Codec,
    ImageError, ImageProcessor, SourceFormat, VariantSpec,
};

fn processor() -> ImageProcessor {
    ImageProcessor::new(&Config::default())
}

#[test]
fn detects_webp_extension() {
    assert!(matches!(
        image_format_from_extension("webp"),
        Some(Codec::WebP)
    ));
}

#[test]
fn webp_extension_roundtrip() {
    assert_eq!(extension_for_format(Codec::WebP), Some("webp"));
}

#[test]
fn display_dimensions_wide_landscape() {
    let (w, h, wide) = dllup::dims::compute_display_dimensions(4000, 1000, 1200);
    assert!(wide);
    assert_eq!(w, 2400);
    assert_eq!(h, 600);
}

#[test]
fn display_dimensions_portrait() {
    let (w, h, wide) = dllup::dims::compute_display_dimensions(800, 1200, 1200);
    assert!(!wide);
    assert_eq!(h, 1200);
    assert_eq!(w, 800);
}

#[test]
fn display_dimensions_landscape() {
    let (w, h, wide) = dllup::dims::compute_display_dimensions(1600, 900, 1200);
    assert!(!wide);
    assert_eq!(w, 1200);
    assert_eq!(h, 675);
}

#[test]
fn display_dimensions_always_positive_and_wide_iff_double() {
    let cases = [
        (1u32, 1u32, 1u32),
        (10, 5, 7),
        (9, 5, 7),
        (5, 10, 100),
        (4000, 1000, 1200),
        (1, 4000, 10),
        (2, 1, 3),
    ];
    for (w, h, l) in cases {
        let (dw, dh, wide) = dllup::dims::compute_display_dimensions(w, h, l);
        assert!(dw >= 1 && dh >= 1);
        assert_eq!(wide, w >= 2 * h);
    }
}

#[test]
fn target_widths_are_ascending_and_below_original() {
    let p = processor();
    let widths = p.target_resize_widths(2000, 1200);
    assert_eq!(widths, vec![480, 800, 1200]);
    let widths = p.target_resize_widths(1000, 1200);
    assert_eq!(widths, vec![480, 800]);
    let widths = p.target_resize_widths(480, 0);
    assert!(widths.is_empty() || widths.iter().all(|w| *w < 480));
    let widths = p.target_resize_widths(100, 50);
    assert_eq!(widths, vec![50]);
}

#[test]
fn cache_plan_numbers_conflicting_contents() {
    let c1: Vec<u8> = vec![1, 2, 3];
    let c2: Vec<u8> = vec![9, 9];
    let mut dir: Vec<CacheEntry> = Vec::new();
    let (name, write) = plan_original_cache(&dir, "name.ext", &c1).unwrap();
    assert_eq!(name, "name.ext");
    assert!(write);
    dir.push(CacheEntry { name: "name.ext".into(), content: c1.clone() });
    let (name, write) = plan_original_cache(&dir, "name.ext", &c2).unwrap();
    assert_eq!(name, "name-2.ext");
    assert!(write);
    dir.push(CacheEntry { name: "name-2.ext".into(), content: c2.clone() });
    // Re-processing either content reuses its file without a new slot.
    let (name, write) = plan_original_cache(&dir, "name.ext", &c1).unwrap();
    assert_eq!(name, "name.ext");
    assert!(!write);
    let (name, write) = plan_original_cache(&dir, "name.ext", &c2).unwrap();
    assert_eq!(name, "name-2.ext");
    assert!(!write);
}

#[test]
fn dispatcher_counts_scheduled_and_finished_jobs() {
    let mut d = ResizeDispatcher::new();
    assert!(d.is_idle());
    d.spawn();
    d.spawn();
    d.spawn();
    assert_eq!(d.pending(), 3);
    assert!(!d.is_idle());
    d.job_finished();
    d.job_finished();
    assert_eq!(d.pending(), 1);
    assert!(!d.is_idle());
    d.job_finished();
    assert_eq!(d.pending(), 0);
    assert!(d.is_idle());
}

#[test]
fn exif_segment_inserted_after_app_segments_before_scan() {
    // SOI + one non-EXIF APPn (APP0, declared length 4) + SOS.
    let mut jpeg: Vec<u8> = vec![
        0xff, 0xd8, // SOI
        0xff, 0xe0, 0x00, 0x04, 0xaa, 0xbb, // APP0, length 4
        0xff, 0xda, 0x00, 0x02, // SOS
    ];
    let payload: Vec<u8> = b"Exif\0\0ABCD".to_vec();
    insert_exif_segment(&mut jpeg, &payload);
    let mut expected: Vec<u8> = vec![0xff, 0xd8, 0xff, 0xe0, 0x00, 0x04, 0xaa, 0xbb];
    expected.extend_from_slice(&[0xff, 0xe1, 0x00, 0x0c]);
    expected.extend_from_slice(&payload);
    expected.extend_from_slice(&[0xff, 0xda, 0x00, 0x02]);
    assert_eq!(jpeg, expected);
}

#[test]
fn exif_segment_replaces_existing_one() {
    let mut jpeg: Vec<u8> = vec![
        0xff, 0xd8, // SOI
        0xff, 0xe1, 0x00, 0x04, 0x01, 0x02, // old APP1
        0xff, 0xda, 0x00, 0x02, // SOS
    ];
    let payload: Vec<u8> = b"Exif\0\0X".to_vec();
    insert_exif_segment(&mut jpeg, &payload);
    let mut expected: Vec<u8> = vec![0xff, 0xd8, 0xff, 0xe1, 0x00, 0x09];
    expected.extend_from_slice(&payload);
    expected.extend_from_slice(&[0xff, 0xda, 0x00, 0x02]);
    assert_eq!(jpeg, expected);
}

#[test]
fn exif_segment_left_alone_without_soi() {
    let mut not_jpeg: Vec<u8> = vec![1, 2, 3];
    insert_exif_segment(&mut not_jpeg, &vec![9]);
    assert_eq!(not_jpeg, vec![1, 2, 3]);
}

#[test]
fn exif_header_prefixed_only_when_missing() {
    let with = ensure_exif_header(b"Exif\0\0data".to_vec());
    assert_eq!(with, b"Exif\0\0data".to_vec());
    let without = ensure_exif_header(b"data".to_vec());
    assert_eq!(without, b"Exif\0\0data".to_vec());
}

#[test]
fn orientation_normalized_little_endian() {
    // Exif\0\0 + "II" TIFF header, IFD at offset 8 with one entry whose
    // tag is the orientation tag and whose value is six.
    let mut block: Vec<u8> = Vec::new();
    block.extend_from_slice(b"Exif\0\0");
    block.extend_from_slice(b"II");
    block.extend_from_slice(&[0x2a, 0x00]);
    block.extend_from_slice(&[0x08, 0x00, 0x00, 0x00]);
    block.extend_from_slice(&[0x01, 0x00]); // one entry
    block.extend_from_slice(&[0x12, 0x01]); // orientation tag
    block.extend_from_slice(&[0x03, 0x00]); // type
    block.extend_from_slice(&[0x01, 0x00, 0x00, 0x00]); // count
    block.extend_from_slice(&[0x06, 0x00, 0x00, 0x00]); // value: 6
    let value_offset = block.len() - 4;
    normalize_exif_orientation(&mut block);
    assert_eq!(block[value_offset], 1);
    assert_eq!(block[value_offset + 1], 0);
}

#[test]
fn orientation_normalized_big_endian() {
    let mut block: Vec<u8> = Vec::new();
    block.extend_from_slice(b"Exif\0\0");
    block.extend_from_slice(b"MM");
    block.extend_from_slice(&[0x00, 0x2a]);
    block.extend_from_slice(&[0x00, 0x00, 0x00, 0x08]);
    block.extend_from_slice(&[0x00, 0x01]);
    block.extend_from_slice(&[0x01, 0x12]);
    block.extend_from_slice(&[0x00, 0x03]);
    block.extend_from_slice(&[0x00, 0x00, 0x00, 0x01]);
    block.extend_from_slice(&[0x00, 0x06, 0x00, 0x00]);
    let value_offset = block.len() - 4;
    normalize_exif_orientation(&mut block);
    assert_eq!(block[value_offset], 0);
    assert_eq!(block[value_offset + 1], 1);
}

#[test]
fn sidecar_content_round_trips() {
    let content = dimension_sidecar_content(123, 456);
    assert_eq!(content, "123 456\n");
    assert_eq!(parse_cached_dimensions(&content), Some((123, 456)));
    assert_eq!(parse_cached_dimensions("800 600"), Some((800, 600)));
    assert_eq!(parse_cached_dimensions("junk"), None);
    assert_eq!(parse_cached_dimensions(""), None);
}

#[test]
fn sidecar_path_replaces_extension() {
    assert_eq!(dimension_cache_path("img/photo.jpg"), "img/photo.txt");
    assert_eq!(dimension_cache_path("img/photo"), "img/photo.txt");
}

#[test]
fn filenames_are_sanitized() {
    assert_eq!(sanitize_filename("http://x/a b.jpg?q=1"), "a_b.jpg");
    assert_eq!(sanitize_filename("___x___"), "x");
    assert_eq!(sanitize_filename("dir/sub/n#frag"), "n");
}

#[test]
fn numbered_filenames_keep_extensions() {
    assert_eq!(numbered_filename("name.ext", 2), "name-2.ext");
    assert_eq!(numbered_filename("name", 3), "name-3");
}

#[test]
fn public_urls_honor_prefixes() {
    let mut cfg = Config::default();
    let p = ImageProcessor::new(&cfg);
    assert_eq!(p.public_url_for("img/foo.jpg"), "/img/foo.jpg");

    cfg.images.img_root_url = Some("https://pics.example".into());
    let p = ImageProcessor::new(&cfg);
    assert_eq!(p.public_url_for("img/foo.jpg"), "https://pics.example/foo.jpg");

    let mut cfg = Config::default();
    cfg.root_url = Some("https://example.com".into());
    let p = ImageProcessor::new(&cfg);
    assert_eq!(p.public_url_for("img/foo.jpg"), "https://example.com/img/foo.jpg");

    let mut cfg = Config::default();
    cfg.root_url = Some("/".into());
    let p = ImageProcessor::new(&cfg);
    assert_eq!(p.public_url_for("img/foo.jpg"), "/img/foo.jpg");
}

#[test]
fn remote_candidates_stay_in_cache_dir() {
    let p = processor();
    let candidates = p.remote_cache_candidates("https://host/path/photo.jpg?sig=1");
    assert!(!candidates.is_empty() && candidates.len() <= 3);
    assert_eq!(candidates[0], "img/photo.jpg");
    for c in &candidates {
        assert!(c.starts_with("img/"));
    }
}

#[test]
fn local_paths_resolve_against_asset_root() {
    assert_eq!(local_source_path("./a.png", "root"), "root/./a.png");
    assert_eq!(local_source_path("a.png", "root"), "root/a.png");
    assert_eq!(local_source_path("/abs/a.png", "root"), "/abs/a.png");
}

#[test]
fn remote_references_are_detected_case_insensitively() {
    assert!(is_remote("HTTP://x"));
    assert!(is_remote("https://x"));
    assert!(!is_remote("ftp://x"));
    assert!(!is_remote("dir/file.png"));
}

#[test]
fn svg_detection_by_reference_and_content() {
    assert!(looks_like_svg("logo.SVG", &vec![]));
    assert!(looks_like_svg("x", &b"   <SVG xmlns='u'>".to_vec()));
    assert!(!looks_like_svg("x.png", &b"\x89PNG".to_vec()));
}

#[test]
fn detect_format_sniffs_and_falls_back() {
    let png_magic: Vec<u8> = vec![0x89, 0x50, 0x4e, 0x47, 0x0d, 0x0a, 0x1a, 0x0a, 0, 0];
    assert!(matches!(
        dllup::raster::detect_format("x", &png_magic),
        Ok(SourceFormat::Raster(Codec::Png))
    ));
    assert!(matches!(
        dllup::raster::detect_format("x.svg", &vec![]),
        Ok(SourceFormat::Svg)
    ));
    assert!(matches!(
        dllup::raster::detect_format("noext", &vec![0, 1, 2, 3]),
        Err(ImageError::UnsupportedFormat)
    ));
    assert!(matches!(
        dllup::raster::detect_format("photo.jpeg", &vec![0, 1, 2, 3]),
        Ok(SourceFormat::Raster(Codec::Jpeg))
    ));
}

#[test]
fn variants_batch_resizes_and_encodes() {
    // A 10x4 image encoded as PNG, resized to one 5-wide variant.
    let img = image::DynamicImage::new_rgb8(10, 4);
    let mut bytes: Vec<u8> = Vec::new();
    img.write_to(
        &mut std::io::Cursor::new(&mut bytes),
        image::ImageOutputFormat::Png,
    )
    .unwrap();
    let jobs = vec![VariantSpec {
        width: 5,
        height: 2,
        path: "img/v-5.png".to_string(),
    }];
    let out = dllup::raster::render_variants_batch(&bytes, Codec::Png, None, &jobs, &None, 85)
        .expect("decode should succeed");
    assert_eq!(out.len(), 1);
    assert_eq!(out[0].0, "img/v-5.png");
    let encoded = out[0].1.as_ref().expect("encode should succeed");
    let back = image::load_from_memory(encoded).expect("variant should decode");
    assert_eq!(back.width(), 5);
    assert_eq!(back.height(), 2);
}

#[test]
fn svg_dimensions_from_attributes_and_viewbox() {
    let svg = b"<svg width=\"100\" height=\"50\"></svg>".to_vec();
    let dims = dllup::svg::estimate_svg_dimensions(&svg).unwrap();
    assert_eq!(dims, ((100, 1), (50, 1)));
    let svg = b"<svg viewBox=\"0 0 300 150\"></svg>".to_vec();
    let dims = dllup::svg::estimate_svg_dimensions(&svg).unwrap();
    assert_eq!(dims, ((300, 1), (150, 1)));
    let svg = b"<svg width=\"100%\" viewBox=\"0 0 20 10\"></svg>".to_vec();
    let dims = dllup::svg::estimate_svg_dimensions(&svg).unwrap();
    assert_eq!(dims, ((20, 1), (10, 1)));
}

#[test]
fn svg_display_size_upscales_small_documents() {
    let svg = b"<svg width=\"100\" height=\"50\"></svg>".to_vec();
    let (w, h, wide) = dllup::svg::svg_display_dimensions(&svg, 1200);
    assert!(wide);
    assert_eq!(w, 1200);
    assert_eq!(h, 600);
}

#[test]
fn parse_dimension_handles_units_and_fractions() {
    assert_eq!(dllup::svg::parse_dimension("12.5px"), Some((125, 10)));
    assert_eq!(dllup::svg::parse_dimension(" 640 "), Some((640, 1)));
    assert_eq!(dllup::svg::parse_dimension("50%"), None);
    assert_eq!(dllup::svg::parse_dimension("abc"), None);
}

#[test]
fn config_normalization_repairs_fields() {
    let mut cfg = Config::default();
    cfg.images.sizes = vec![800, 0, 480, 800];
    cfg.images.jpeg_quality = 3;
    cfg.images.layout_width = 0;
    cfg.images.remote_fetch_timeout_secs = 0;
    cfg.images.img_root_url = Some("  https://pics.example//  ".into());
    cfg.root_url = Some("https://example.com/".into());
    cfg.normalize();
    assert_eq!(cfg.images.sizes, vec![480, 800]);
    assert_eq!(cfg.images.jpeg_quality, 10);
    assert_eq!(cfg.images.layout_width, 1200);
    assert_eq!(cfg.images.remote_fetch_timeout_secs, 10);
    assert_eq!(cfg.images.img_root_url.as_deref(), Some("https://pics.example"));
    assert_eq!(cfg.root_url.as_deref(), Some("https://example.com"));
}

#[test]
fn default_config_path_sits_beside_input() {
    assert_eq!(
        dllup::config::default_config_path("posts/a.dllu"),
        "posts/dllup.toml"
    );
    assert_eq!(dllup::config::default_config_path("a.dllu"), "dllup.toml");
}

#[test]
fn byte_vectors_compare_exactly() {
    assert!(bytes_eq(&vec![1, 2], &vec![1, 2]));
    assert!(!bytes_eq(&vec![1, 2], &vec![1, 3]));
    assert!(!bytes_eq(&vec![1], &vec![1, 2]));
}

#[test]
fn processed_image_respects_variant_invariant() {
    let p = processor();
    let specs = p.plan_raster_variants("img/photo.jpg", Codec::Jpeg, 2000, 1000);
    let processed =
        p.build_raster_processed("photo.jpg", "img/photo.jpg", Codec::Jpeg, 2000, 1000, &specs, None);
    let widths: Vec<u32> = processed.variants.iter().map(|v| v.width).collect();
    assert_eq!(widths, vec![480, 800, 1200]);
    assert!(widths.windows(2).all(|w| w[0] < w[1]));
    assert!(widths.iter().all(|w| *w < 2000));
    assert_eq!(processed.variants[0].url, "/img/photo-480.jpg");
    let original = processed.original.as_ref().unwrap();
    assert_eq!(original.width, 2000);
    assert_eq!(original.height, 1000);
}

#[test]
fn gif_sources_pass_through_with_their_size() {
    let img = image::DynamicImage::new_rgb8(7, 3);
    let mut bytes: Vec<u8> = Vec::new();
    img.write_to(
        &mut std::io::Cursor::new(&mut bytes),
        image::ImageOutputFormat::Gif,
    )
    .unwrap();
    let p = processor();
    let processed = p
        .process_gif_bytes("anim.gif", "img/anim.gif", &bytes)
        .expect("gif should decode");
    assert!(processed.variants.is_empty());
    let original = processed.original.unwrap();
    assert_eq!(original.width, 7);
    assert_eq!(original.height, 3);
    assert_eq!(original.mime_type, "image/gif");
    assert!(matches!(
        p.process_gif_bytes("x.gif", "img/x.gif", &vec![1, 2, 3]),
        Err(ImageError::Decode(_))
    ));
}

#[test]
fn probed_dimensions_follow_orientation() {
    let img = image::DynamicImage::new_rgb8(10, 4);
    let mut bytes: Vec<u8> = Vec::new();
    img.write_to(
        &mut std::io::Cursor::new(&mut bytes),
        image::ImageOutputFormat::Png,
    )
    .unwrap();
    assert_eq!(
        dllup::image_processor::probe_oriented_dimensions(&bytes, None),
        Some((10, 4))
    );
    assert_eq!(
        dllup::image_processor::probe_oriented_dimensions(&bytes, Some(6)),
        Some((4, 10))
    );
    assert_eq!(
        dllup::image_processor::probe_oriented_dimensions(&vec![0, 1], None),
        None
    );
}

#[test]
fn exif_orientation_read_from_real_metadata() {
    // A minimal JPEG: SOI, one APP1 metadata segment whose TIFF block has
    // a single orientation entry with value six, then SOS and EOI.
    let mut tiff: Vec<u8> = Vec::new();
    tiff.extend_from_slice(b"II");
    tiff.extend_from_slice(&[0x2a, 0x00]);
    tiff.extend_from_slice(&[0x08, 0x00, 0x00, 0x00]);
    tiff.extend_from_slice(&[0x01, 0x00]);
    tiff.extend_from_slice(&[0x12, 0x01]); // orientation tag
    tiff.extend_from_slice(&[0x03, 0x00]); // unsigned short
    tiff.extend_from_slice(&[0x01, 0x00, 0x00, 0x00]);
    tiff.extend_from_slice(&[0x06, 0x00, 0x00, 0x00]);
    tiff.extend_from_slice(&[0x00, 0x00, 0x00, 0x00]);
    let mut payload: Vec<u8> = b"Exif\0\0".to_vec();
    payload.extend_from_slice(&tiff);
    let seg_len = (payload.len() + 2) as u16;
    let mut jpeg: Vec<u8> = vec![0xff, 0xd8, 0xff, 0xe1];
    jpeg.extend_from_slice(&seg_len.to_be_bytes());
    jpeg.extend_from_slice(&payload);
    jpeg.extend_from_slice(&[0xff, 0xda, 0x00, 0x02, 0xff, 0xd9]);
    let (_block, orientation, _summary) = dllup::image_processor::prepare_exif(&jpeg);
    assert_eq!(orientation, Some(6));
}

#[test]
fn variant_names_use_the_codec_extension() {
    let p = processor();
    let specs = p.plan_raster_variants("img/photo.jpeg", Codec::Jpeg, 2000, 1000);
    assert!(specs.iter().all(|s| s.path.starts_with("img/photo-")));
    assert!(specs.iter().all(|s| s.path.ends_with(".jpg")));
}

#[test]
fn oversized_exif_payload_is_dropped() {
    let original: Vec<u8> = vec![0xff, 0xd8, 0xff, 0xda, 0x00, 0x02];
    let mut jpeg = original.clone();
    let huge: Vec<u8> = vec![0u8; 0x10000];
    insert_exif_segment(&mut jpeg, &huge);
    assert_eq!(jpeg, original);
}

#[test]
fn decimal_formatting_and_parsing() {
    assert_eq!(dllup::strutil::u64_to_string(0), "0");
    assert_eq!(dllup::strutil::u64_to_string(120), "120");
    assert_eq!(dllup::strutil::u64_to_string(98765), "98765");
    // A value beyond u32 is rejected by the sidecar parser.
    assert_eq!(parse_cached_dimensions("4294967296 1"), None);
    assert_eq!(parse_cached_dimensions("4294967295 1"), Some((4294967295, 1)));
}

#[test]
fn summary_entries_keep_fixed_order_and_skip_unusable_values() {
    let fields = vec![
        ExifField {
            tag: 0x9003,
            readable: " 2021:01:02 03:04:05 ".into(),
            numeric: NumVal::Other,
        },
        ExifField {
            tag: 0x010f,
            readable: "ACME".into(),
            numeric: NumVal::Other,
        },
        ExifField {
            tag: 0x0110,
            readable: "acme Snapper".into(),
            numeric: NumVal::Other,
        },
        ExifField {
            tag: 0xa434,
            readable: "None".into(),
            numeric: NumVal::Other,
        },
        ExifField {
            tag: 0x8827,
            readable: "  ".into(),
            numeric: NumVal::Other,
        },
    ];
    let summary = summarize_exif(&fields);
    let labels: Vec<&str> = summary.entries.iter().map(|e| e.0.as_str()).collect();
    // The model starts with the make, so the make is dropped; the lens
    // reads "None" and the ISO is blank, so both are skipped.
    assert_eq!(labels, vec!["Camera", "Date"]);
    assert_eq!(summary.entries[0].1, "acme Snapper");
    assert_eq!(summary.entries[1].1, "2021:01:02 03:04:05");
}

#[test]
fn orientation_untouched_when_structure_is_unreadable() {
    let mut garbage: Vec<u8> = b"Exif\0\0XXxxxxxxxxxxxxxx".to_vec();
    let before = garbage.clone();
    normalize_exif_orientation(&mut garbage);
    assert_eq!(garbage, before);
}

#[test]
fn cache_fast_path_needs_every_variant() {
    let p = processor();
    let missing = vec![true, true, false];
    assert!(p
        .try_build_processed_from_cache("r", "img/a.jpg", Codec::Jpeg, 2000, 1000, &missing)
        .is_none());
    let all = vec![true, true, true];
    let processed = p
        .try_build_processed_from_cache("r", "img/a.jpg", Codec::Jpeg, 2000, 1000, &all)
        .expect("fast path should apply");
    assert_eq!(
        processed.variants.iter().map(|v| v.width).collect::<Vec<_>>(),
        vec![480, 800, 1200]
    );
}

#[test]
fn non_svg_roots_are_not_estimated() {
    let xml = b"<html width=\"10\" height=\"10\"></html>".to_vec();
    assert_eq!(dllup::svg::estimate_svg_dimensions(&xml), None);
}
