use comic_enc::archive::{
    compression_for, page_entry_name, plan_volume, ArchiveLayout, ChapterPages, Compression,
    VolumeProgress,
};
use comic_enc::scan::{has_image_ext, needs_transcode};
use comic_enc::transcode::{prepare_for_webp, preparation, PixelLayout, Preparation, TranscodeError};
use comic_enc::volume::{
    check_staging, final_path, publish_action, should_skip, start_build, BuildMethod,
    EachOptions, OutputCollision, PublishAction, RangesOptions, Start,
};

fn layout(each: bool, webp: bool) -> ArchiveLayout {
    ArchiveLayout {
        each,
        volume: 2,
        vol_num_len: 2,
        chapter_num_len: 3,
        label: "'Ch 1'".to_string(),
        compress_webp: webp,
    }
}

fn chapter(number: usize, n: usize) -> ChapterPages {
    ChapterPages {
        number,
        name: format!("Chapter {}", number),
        pages: (0..n).map(|i| format!("/in/{}/p{}.png", number, i)).collect(),
    }
}

#[test]
fn image_extensions() {
    assert!(has_image_ext("a/p1.png", false));
    assert!(has_image_ext("a/p1.JPG", false));
    assert!(has_image_ext("a/p1.Jpeg", false));
    assert!(!has_image_ext("a/p1.tiff", false));
    assert!(has_image_ext("a/p1.tiff", true));
    assert!(!has_image_ext("a/notes.txt", true));
    assert!(!has_image_ext("a/png", true));
}

#[test]
fn webp_sources_are_copied() {
    assert!(!needs_transcode(true, "a/p.webp"));
    assert!(!needs_transcode(true, "a/p.WEBP"));
    assert!(needs_transcode(true, "a/p.png"));
    assert!(!needs_transcode(false, "a/p.png"));
}

#[test]
fn compression_choice() {
    assert_eq!(compression_for(true), Compression::Deflated);
    assert_eq!(compression_for(false), Compression::Stored);
}

#[test]
fn entry_names() {
    let ch = chapter(7, 12);
    assert_eq!(page_entry_name(&layout(false, false), &ch, 3), "Vol_02_Chapter_007_Pic_03.png");
    assert_eq!(page_entry_name(&layout(false, true), &ch, 11), "Vol_02_Chapter_007_Pic_11.webp");
    assert_eq!(page_entry_name(&layout(true, false), &ch, 0), "'Ch 1'_Pic_00.png");
}

#[test]
fn plan_counts_and_nests_pages() {
    let chs = vec![chapter(1, 3), chapter(2, 0), chapter(3, 11)];
    let plan = plan_volume(&layout(false, false), &chs);
    assert_eq!(plan.len(), 3 + 3 + 11);
    let pages: Vec<_> = plan.iter().filter(|e| e.page.is_some()).collect();
    assert_eq!(pages.len(), 14);
    assert_eq!(plan[0].path, "Vol_02_Chapter_001");
    assert_eq!(plan[1].path, "Vol_02_Chapter_001/Vol_02_Chapter_001_Pic_0.png");
    assert_eq!(plan[4].path, "Vol_02_Chapter_002");
    assert_eq!(plan[5].path, "Vol_02_Chapter_003");
    assert_eq!(plan[16].path, "Vol_02_Chapter_003/Vol_02_Chapter_003_Pic_10.png");
    for e in &plan {
        if e.page.is_some() {
            let dirs: Vec<_> = plan
                .iter()
                .filter(|d| d.page.is_none() && e.path.starts_with(&format!("{}/", d.path)))
                .collect();
            assert_eq!(dirs.len(), 1);
            assert_eq!(dirs[0].chapter, e.chapter);
        }
    }
    assert_eq!(final_path("out/Volume-02", true, pages.len()), "out/Volume-02 (14 pages).cbz");
}

#[test]
fn skip_only_for_each_with_existing_output() {
    let each = BuildMethod::Each(EachOptions { skip_existing: true, display_full_names: false });
    let ranges = BuildMethod::Ranges(RangesOptions {
        append_chapters_range: false,
        debug_chapters_path: false,
    });
    assert!(should_skip(each, true));
    assert!(!should_skip(each, false));
    assert!(!should_skip(ranges, true));
    assert!(!should_skip(BuildMethod::Single, true));
}

#[test]
fn staging_and_publish_policy() {
    assert_eq!(check_staging(true, false), Err(OutputCollision::AlreadyExists));
    assert_eq!(check_staging(true, true), Ok(()));
    assert_eq!(check_staging(false, false), Ok(()));
    assert_eq!(publish_action(false, false, false), Ok(PublishAction::Rename));
    assert_eq!(publish_action(true, false, false), Err(OutputCollision::AlreadyExists));
    assert_eq!(publish_action(true, true, true), Err(OutputCollision::IsADirectory));
    assert_eq!(publish_action(true, false, true), Ok(PublishAction::ReplaceThenRename));
}

#[test]
fn layouts_prepared_for_webp() {
    assert_eq!(preparation(PixelLayout::Gray8), Preparation::PromoteToRgb);
    assert_eq!(preparation(PixelLayout::GrayAlpha8), Preparation::PromoteToRgb);
    assert_eq!(preparation(PixelLayout::Rgb8), Preparation::AsIs);
    assert_eq!(preparation(PixelLayout::Rgba8), Preparation::AsIs);
    assert_eq!(preparation(PixelLayout::Other), Preparation::Unsupported);
}

#[test]
fn undecodable_bytes_fail() {
    assert_eq!(prepare_for_webp(b"not an image").err(), Some(TranscodeError::Undecodable));
}

#[test]
fn grayscale_becomes_rgb() {
    let gray = image::GrayImage::from_pixel(4, 3, image::Luma([128u8]));
    let mut bytes = std::io::Cursor::new(Vec::new());
    image::DynamicImage::ImageLuma8(gray)
        .write_to(&mut bytes, image::ImageOutputFormat::Png)
        .unwrap();
    let im = prepare_for_webp(bytes.get_ref()).unwrap();
    assert_eq!(im.color(), image::ColorType::Rgb8);
    assert_eq!(im.width(), 4);
    let webp = webp::Encoder::from_image(&im).unwrap().encode(60.0);
    assert!(webp.len() > 0);
}

#[test]
fn progress_counts_pages_written() {
    let chs = vec![chapter(4, 2), chapter(5, 3)];
    let mut progress = VolumeProgress::new(&layout(false, true), &chs);
    let mut seen = 0;
    while let Some(entry) = progress.next_entry() {
        if entry.page.is_some() {
            seen += 1;
        }
        progress.advance();
    }
    assert!(progress.is_done());
    assert_eq!(seen, 5);
    assert_eq!(progress.pages, 5);
    assert_eq!(progress.final_path("out/Volume-02", true), "out/Volume-02 (5 pages).cbz");
    assert_eq!(progress.final_path("out/Volume-02", false), "out/Volume-02.cbz");
}

#[test]
fn start_checks() {
    let each = BuildMethod::Each(EachOptions { skip_existing: true, display_full_names: false });
    assert_eq!(start_build(each, true, true, false), Ok(Start::Skip));
    assert_eq!(start_build(each, false, true, false), Err(OutputCollision::AlreadyExists));
    assert_eq!(start_build(each, false, true, true), Ok(Start::Write));
    assert_eq!(start_build(BuildMethod::Single, true, false, false), Ok(Start::Write));
}

#[test]
fn second_build_onto_published_volume() {
    // after a first build: staging renamed away, final file present
    assert_eq!(start_build(BuildMethod::Single, false, false, false), Ok(Start::Write));
    assert_eq!(publish_action(true, false, false), Err(OutputCollision::AlreadyExists));
    assert_eq!(publish_action(true, false, true), Ok(PublishAction::ReplaceThenRename));
}

#[test]
fn rgb_image_kept_as_is() {
    let rgb = image::RgbImage::from_pixel(2, 2, image::Rgb([1u8, 2, 3]));
    let mut bytes = std::io::Cursor::new(Vec::new());
    image::DynamicImage::ImageRgb8(rgb).write_to(&mut bytes, image::ImageOutputFormat::Png).unwrap();
    let im = prepare_for_webp(bytes.get_ref()).unwrap();
    assert_eq!(im.color(), image::ColorType::Rgb8);
}

#[test]
fn sixteen_bit_image_unsupported() {
    let gray = image::ImageBuffer::<image::Luma<u16>, Vec<u16>>::from_pixel(2, 2, image::Luma([300u16]));
    let mut bytes = std::io::Cursor::new(Vec::new());
    image::DynamicImage::ImageLuma16(gray).write_to(&mut bytes, image::ImageOutputFormat::Png).unwrap();
    assert_eq!(prepare_for_webp(bytes.get_ref()).err(), Some(TranscodeError::UnsupportedLayout));
}
