use comic_enc::naming::{decimal, extension, join, pad_num, strip_extension, truncate_label};
use comic_enc::volume::{
    file_name, final_path, resolve_names, volume_range_name, BuildMethod, BuildVolumeArgs,
    Chapter, EachOptions, EncodingOptions, RangesOptions,
};

fn opts() -> EncodingOptions {
    EncodingOptions {
        overwrite: false,
        compress_losslessly: false,
        compress_webp: false,
        accept_extended_image_formats: false,
        simple_sorting: false,
        append_pages_count: false,
    }
}

fn chapters(start: usize, n: usize) -> Vec<Chapter> {
    (start..start + n)
        .map(|i| Chapter { number: i, path: format!("/in/ch{}", i), name: format!("ch{}", i) })
        .collect()
}

fn ranges_args(append: bool) -> BuildVolumeArgs {
    BuildVolumeArgs {
        method: BuildMethod::Ranges(RangesOptions {
            append_chapters_range: append,
            debug_chapters_path: false,
        }),
        enc_opts: opts(),
        output: "out".to_string(),
        volume: 3,
        volumes: 4,
        vol_num_len: 2,
        chapter_num_len: 3,
        start_chapter: 10,
        chapters: chapters(10, 5),
    }
}

#[test]
fn decimal_and_padding() {
    assert_eq!(decimal(0), "0");
    assert_eq!(decimal(1520), "1520");
    assert_eq!(pad_num(7, 3), "007");
    assert_eq!(pad_num(1234, 2), "1234");
    assert_eq!(pad_num(0, 0), "0");
}

#[test]
fn ranges_name_with_chapter_span() {
    assert_eq!(volume_range_name(3, 2, 3, 10, 5, true), "Volume-03 (c010-c014)");
    let names = resolve_names(&ranges_args(true));
    assert_eq!(names.base, "out/Volume-03 (c010-c014)");
    assert_eq!(names.staging, "out/Volume-03 (c010-c014).comic-enc-partial");
    assert_eq!(names.label, "03");
}

#[test]
fn ranges_name_without_span_or_chapters() {
    assert_eq!(volume_range_name(3, 2, 3, 10, 5, false), "Volume-03");
    assert_eq!(volume_range_name(3, 2, 3, 10, 0, true), "Volume-03");
    assert_eq!(resolve_names(&ranges_args(false)).base, "out/Volume-03");
}

#[test]
fn names_are_the_same_on_every_call() {
    let a = ranges_args(true);
    let first = resolve_names(&a);
    let second = resolve_names(&a);
    assert_eq!(first.base, second.base);
    assert_eq!(first.staging, second.staging);
    assert_eq!(first.label, second.label);
    assert_eq!(final_path(&first.base, true, 12), final_path(&second.base, true, 12));
}

#[test]
fn each_names_use_directory_name() {
    let long = "x".repeat(60);
    let mut a = ranges_args(false);
    a.method = BuildMethod::Each(EachOptions { skip_existing: false, display_full_names: false });
    a.chapters = vec![Chapter { number: 1, path: format!("/in/{}", long), name: long.clone() }];
    let names = resolve_names(&a);
    assert_eq!(names.base, format!("out/{}", long));
    assert_eq!(names.label, format!("'{}...'", "x".repeat(50)));
    a.method = BuildMethod::Each(EachOptions { skip_existing: false, display_full_names: true });
    assert_eq!(resolve_names(&a).label, format!("'{}'", long));
}

#[test]
fn single_strips_extension() {
    let mut a = ranges_args(false);
    a.method = BuildMethod::Single;
    a.output = "dir.v2/book.cbz".to_string();
    let names = resolve_names(&a);
    assert_eq!(names.base, "dir.v2/book");
    assert_eq!(names.staging, "dir.v2/book.comic-enc-partial");
    assert_eq!(names.label, "'book'");
}

#[test]
fn final_path_with_and_without_page_count() {
    assert_eq!(final_path("out/Volume-1", true, 42), "out/Volume-1 (42 pages).cbz");
    assert_eq!(final_path("out/Volume-1", false, 42), "out/Volume-1.cbz");
}

#[test]
fn path_helpers() {
    assert_eq!(strip_extension("a/b.c/file"), "a/b.c/file");
    assert_eq!(strip_extension("a/.hidden"), "a/.hidden");
    assert_eq!(strip_extension("a/x.tar.gz"), "a/x.tar");
    assert_eq!(extension("p/page01.JPG"), "JPG");
    assert_eq!(extension("noext"), "");
    assert_eq!(join("out", "v"), "out/v");
    assert_eq!(join("out/", "v"), "out/v");
    assert_eq!(join("", "v"), "v");
    assert_eq!(file_name("a/b/c"), "c");
    assert_eq!(file_name("c"), "c");
    assert_eq!(truncate_label("short"), "short");
    assert_eq!(truncate_label(&"é".repeat(51)), format!("{}...", "é".repeat(50)));
}
