use crate::naming::{
    dec, join, join_path, pad_num, padded, strip_ext, strip_extension, truncate_label, truncated,
    decimal,
};
use vstd::prelude::*;
use vstd::string::*;

verus! {

/// Options of the build method that groups contiguous chapters into volumes.
#[derive(Clone, Copy, Debug, PartialEq, Eq, Structural)]
pub struct RangesOptions {
    /// Append the covered chapter span to the volume's file name.
    pub append_chapters_range: bool,
    /// Report each chapter's source directory while building.
    pub debug_chapters_path: bool,
}

/// Options of the build method that makes one volume per chapter directory.
#[derive(Clone, Copy, Debug, PartialEq, Eq, Structural)]
pub struct EachOptions {
    /// Skip the build when the volume's final file exists already.
    pub skip_existing: bool,
    /// Show the directory's full name rather than a cut one.
    pub display_full_names: bool,
}

/// How chapters map to volumes and how the volumes are named.
#[derive(Clone, Copy, Debug, PartialEq, Eq, Structural)]
pub enum BuildMethod {
    /// Volumes are contiguous ranges of chapters.
    Ranges(RangesOptions),
    /// One volume per chapter directory.
    Each(EachOptions),
    /// One explicit output file.
    Single,
}

/// Policy shared by every build.
#[derive(Clone, Copy, Debug, PartialEq, Eq, Structural)]
pub struct EncodingOptions {
    pub overwrite: bool,
    pub compress_losslessly: bool,
    pub compress_webp: bool,
    pub accept_extended_image_formats: bool,
    pub simple_sorting: bool,
    pub append_pages_count: bool,
}

/// One chapter of a volume: its number, its directory and that directory's name.
#[derive(Clone, Debug)]
pub struct Chapter {
    pub number: usize,
    pub path: String,
    pub name: String,
}

/// Everything one volume build needs.
#[derive(Clone, Debug)]
pub struct BuildVolumeArgs {
    pub method: BuildMethod,
    pub enc_opts: EncodingOptions,
    /// Output directory (or, for `Single`, output file).
    pub output: String,
    /// This volume's number, from 1.
    pub volume: usize,
    /// The number of volumes of the job.
    pub volumes: usize,
    /// Width the volume number is padded to.
    pub vol_num_len: usize,
    /// Width chapter numbers are padded to.
    pub chapter_num_len: usize,
    /// Number of the volume's first chapter.
    pub start_chapter: usize,
    pub chapters: Vec<Chapter>,
}

impl BuildVolumeArgs {
    /// An `Each` build holds exactly one chapter, and the chapter span of a
    /// `Ranges` volume fits in a machine word.
    pub open spec fn wf(&self) -> bool {
        &&& (self.method is Each ==> self.chapters@.len() == 1)
        &&& self.start_chapter + self.chapters@.len() <= usize::MAX + 1
    }
}

/// File name of a `Ranges` volume, before any extension.
pub open spec fn ranges_name(
    volume: nat,
    vol_num_len: nat,
    chapter_num_len: nat,
    start: nat,
    count: nat,
    append_range: bool,
) -> Seq<char> {
    let head = "Volume-"@ + padded(volume, vol_num_len);
    if append_range && count > 0 {
        head + " (c"@ + padded(start, chapter_num_len) + "-c"@ + padded(
            (start + count - 1) as nat,
            chapter_num_len,
        ) + ")"@
    } else {
        head
    }
}

/// The volume's output path without extension.
pub open spec fn base_path(args: BuildVolumeArgs) -> Seq<char> {
    match args.method {
        BuildMethod::Ranges(o) => join_path(
            args.output@,
            ranges_name(
                args.volume as nat,
                args.vol_num_len as nat,
                args.chapter_num_len as nat,
                args.start_chapter as nat,
                args.chapters@.len(),
                o.append_chapters_range,
            ),
        ),
        BuildMethod::Each(_) => join_path(args.output@, args.chapters@[0].name@),
        BuildMethod::Single => strip_ext(args.output@),
    }
}

/// Extension of a volume while it is being written.
pub open spec fn staging_suffix() -> Seq<char> {
    ".comic-enc-partial"@
}

/// Extension of a finished volume.
pub open spec fn final_suffix() -> Seq<char> {
    ".cbz"@
}

/// Path of the archive while it is written.
pub open spec fn staging_path_of(base: Seq<char>) -> Seq<char> {
    base + staging_suffix()
}

/// Path of the finished archive, with ` (<pages> pages)` before the
/// extension when asked for.
pub open spec fn final_path_of(base: Seq<char>, append_pages: bool, pages: nat) -> Seq<char> {
    if append_pages {
        base + " ("@ + dec(pages) + " pages)"@ + final_suffix()
    } else {
        base + final_suffix()
    }
}

/// Index of the last `/` in `s[0..i]`, or -1.
pub open spec fn last_slash(s: Seq<char>, i: int) -> int
    decreases i,
{
    if i <= 0 {
        -1
    } else if s[i - 1] == '/' {
        i - 1
    } else {
        last_slash(s, i - 1)
    }
}

/// Last component of a path.
pub open spec fn file_name_of(s: Seq<char>) -> Seq<char> {
    s.subrange(last_slash(s, s.len() as int) + 1, s.len() as int)
}

/// Label of the volume in progress and success reports.
pub open spec fn volume_label(args: BuildVolumeArgs) -> Seq<char> {
    match args.method {
        BuildMethod::Ranges(_) => padded(args.volume as nat, args.vol_num_len as nat),
        BuildMethod::Each(o) => "'"@ + (if o.display_full_names {
            args.chapters@[0].name@
        } else {
            truncated(args.chapters@[0].name@)
        }) + "'"@,
        BuildMethod::Single => "'"@ + file_name_of(base_path(args)) + "'"@,
    }
}

/// The names a volume build resolves before writing anything.
#[derive(Clone, Debug)]
pub struct VolumeNames {
    /// Output path without extension.
    pub base: String,
    /// Path the archive is written to.
    pub staging: String,
    /// Label of the volume in reports.
    pub label: String,
}

proof fn lemma_last_slash_bound(s: Seq<char>, i: int)
    ensures
        -1 <= last_slash(s, i) < i || (i <= 0 && last_slash(s, i) == -1),
    decreases i,
{
    if i > 0 {
        lemma_last_slash_bound(s, i - 1);
    }
}

/// Last component of a path.
pub fn file_name(s: &str) -> (r: String)
    ensures
        r@ == file_name_of(s@),
{
    let n = s.unicode_len();
    let mut i = n;
    while i > 0 && s.get_char(i - 1) != '/'
        invariant
            i <= n == s@.len(),
            last_slash(s@, n as int) == last_slash(s@, i as int),
        decreases i,
    {
        i = i - 1;
    }
    proof {
        lemma_last_slash_bound(s@, n as int);
    }
    String::from_str(s.substring_char(i, n))
}

/// File name of a `Ranges` volume, before any extension.
pub fn volume_range_name(
    volume: usize,
    vol_num_len: usize,
    chapter_num_len: usize,
    start: usize,
    count: usize,
    append_range: bool,
) -> (r: String)
    requires
        start + count <= usize::MAX + 1,
    ensures
        r@ == ranges_name(
            volume as nat,
            vol_num_len as nat,
            chapter_num_len as nat,
            start as nat,
            count as nat,
            append_range,
        ),
{
    let mut r = String::from_str("Volume-");
    let v = pad_num(volume, vol_num_len);
    r.append(v.as_str());
    if append_range && count > 0 {
        r.append(" (c");
        let s = pad_num(start, chapter_num_len);
        r.append(s.as_str());
        r.append("-c");
        let e = pad_num(start + (count - 1), chapter_num_len);
        r.append(e.as_str());
        r.append(")");
    }
    r
}

/// Output path of the volume without extension.
pub fn volume_base_path(args: &BuildVolumeArgs) -> (r: String)
    requires
        args.wf(),
    ensures
        r@ == base_path(*args),
{
    match args.method {
        BuildMethod::Ranges(o) => {
            let name = volume_range_name(
                args.volume,
                args.vol_num_len,
                args.chapter_num_len,
                args.start_chapter,
                args.chapters.len(),
                o.append_chapters_range,
            );
            join(args.output.as_str(), name.as_str())
        },
        BuildMethod::Each(_) => join(args.output.as_str(), args.chapters[0].name.as_str()),
        BuildMethod::Single => strip_extension(args.output.as_str()),
    }
}

/// Resolves the base path, the staging path and the label of a volume.
/// The result depends on the arguments alone.
pub fn resolve_names(args: &BuildVolumeArgs) -> (r: VolumeNames)
    requires
        args.wf(),
    ensures
        r.base@ == base_path(*args),
        r.staging@ == staging_path_of(base_path(*args)),
        r.label@ == volume_label(*args),
{
    let base = volume_base_path(args);
    let mut staging = base.clone();
    staging.append(".comic-enc-partial");
    let label = match args.method {
        BuildMethod::Ranges(_) => pad_num(args.volume, args.vol_num_len),
        BuildMethod::Each(o) => {
            let mut l = String::from_str("'");
            if o.display_full_names {
                l.append(args.chapters[0].name.as_str());
            } else {
                let t = truncate_label(args.chapters[0].name.as_str());
                l.append(t.as_str());
            }
            l.append("'");
            l
        },
        BuildMethod::Single => {
            let mut l = String::from_str("'");
            let f = file_name(base.as_str());
            l.append(f.as_str());
            l.append("'");
            l
        },
    };
    VolumeNames { base, staging, label }
}

/// Naming has no hidden input: two builds that agree on the method, the output
/// path, the volume number, the widths, the first chapter and the chapters'
/// directory names get the same base, staging, final and display names,
/// whatever else differs between them.
pub proof fn lemma_names_pure(a: BuildVolumeArgs, b: BuildVolumeArgs, append_pages: bool, pages: nat)
    requires
        a.wf(),
        a.method == b.method,
        a.output@ == b.output@,
        a.volume == b.volume,
        a.vol_num_len == b.vol_num_len,
        a.chapter_num_len == b.chapter_num_len,
        a.start_chapter == b.start_chapter,
        a.chapters@.len() == b.chapters@.len(),
        forall|i: int| 0 <= i < a.chapters@.len() ==> (#[trigger] a.chapters@[i]).name@ == b.chapters@[i].name@,
    ensures
        base_path(a) == base_path(b),
        staging_path_of(base_path(a)) == staging_path_of(base_path(b)),
        final_path_of(base_path(a), append_pages, pages) == final_path_of(base_path(b), append_pages, pages),
        volume_label(a) == volume_label(b),
{
    if a.method is Each {
        assert(a.chapters@[0].name@ == b.chapters@[0].name@);
    }
}

/// Path of the finished archive for a volume of `pages` pages.
pub fn final_path(base: &str, append_pages: bool, pages: usize) -> (r: String)
    ensures
        r@ == final_path_of(base@, append_pages, pages as nat),
{
    let mut r = String::from_str(base);
    if append_pages {
        r.append(" (");
        let d = decimal(pages);
        r.append(d.as_str());
        r.append(" pages)");
    }
    r.append(".cbz");
    r
}

/// Why a volume cannot be written where it should go.
#[derive(Clone, Copy, Debug, PartialEq, Eq, Structural)]
pub enum OutputCollision {
    /// The file exists and overwriting was not allowed.
    AlreadyExists,
    /// The final path is a directory.
    IsADirectory,
}

/// How a finished archive is published under its final path.
#[derive(Clone, Copy, Debug, PartialEq, Eq, Structural)]
pub enum PublishAction {
    /// Rename the staging file to the final path.
    Rename,
    /// Delete the existing file at the final path, then rename.
    ReplaceThenRename,
}

/// A build is skipped only for a one-chapter volume that asks to skip
/// existing output, when its final file exists.
pub open spec fn skips(method: BuildMethod, final_exists: bool) -> bool {
    match method {
        BuildMethod::Each(o) => o.skip_existing && final_exists,
        _ => false,
    }
}

/// Whether the build is skipped, before anything is written.
pub fn should_skip(method: BuildMethod, final_exists: bool) -> (r: bool)
    ensures
        r == skips(method, final_exists),
{
    match method {
        BuildMethod::Each(o) => o.skip_existing && final_exists,
        _ => false,
    }
}

/// How a build goes on after its first checks.
#[derive(Clone, Copy, Debug, PartialEq, Eq, Structural)]
pub enum Start {
    /// The volume exists and is kept: nothing is written.
    Skip,
    /// The staging archive is to be created.
    Write,
}

/// Outcome of the checks made before anything is written.
pub open spec fn start_decision(
    method: BuildMethod,
    final_exists: bool,
    staging_exists: bool,
    overwrite: bool,
) -> Result<Start, OutputCollision> {
    if skips(method, final_exists) {
        Ok(Start::Skip)
    } else if staging_exists && !overwrite {
        Err(OutputCollision::AlreadyExists)
    } else {
        Ok(Start::Write)
    }
}

/// The checks made before anything is written: an existing volume is
/// skipped where the method asks for it, and otherwise a staging file in the
/// way fails the build unless overwriting is allowed.
pub fn start_build(method: BuildMethod, final_exists: bool, staging_exists: bool, overwrite: bool) -> (r:
    Result<Start, OutputCollision>)
    ensures
        r == start_decision(method, final_exists, staging_exists, overwrite),
{
    if should_skip(method, final_exists) {
        Ok(Start::Skip)
    } else {
        match check_staging(staging_exists, overwrite) {
            Ok(()) => Ok(Start::Write),
            Err(e) => Err(e),
        }
    }
}

/// Outcome of the check on the staging path.
pub open spec fn staging_check(staging_exists: bool, overwrite: bool) -> Result<(), OutputCollision> {
    if staging_exists && !overwrite {
        Err(OutputCollision::AlreadyExists)
    } else {
        Ok(())
    }
}

/// A staging file in the way fails the build unless overwriting is allowed.
pub fn check_staging(staging_exists: bool, overwrite: bool) -> (r: Result<(), OutputCollision>)
    ensures
        r == staging_check(staging_exists, overwrite),
{
    if staging_exists && !overwrite {
        Err(OutputCollision::AlreadyExists)
    } else {
        Ok(())
    }
}

/// Outcome of publishing onto the final path.
pub open spec fn publish_decision(exists: bool, is_dir: bool, overwrite: bool) -> Result<
    PublishAction,
    OutputCollision,
> {
    if !exists {
        Ok(PublishAction::Rename)
    } else if !overwrite {
        Err(OutputCollision::AlreadyExists)
    } else if is_dir {
        Err(OutputCollision::IsADirectory)
    } else {
        Ok(PublishAction::ReplaceThenRename)
    }
}

/// Decides how the finished archive goes to its final path: a free path is
/// renamed onto; an existing file fails without `overwrite` and is replaced
/// with it; a directory there fails.
pub fn publish_action(exists: bool, is_dir: bool, overwrite: bool) -> (r: Result<
    PublishAction,
    OutputCollision,
>)
    ensures
        r == publish_decision(exists, is_dir, overwrite),
{
    if !exists {
        Ok(PublishAction::Rename)
    } else if !overwrite {
        Err(OutputCollision::AlreadyExists)
    } else if is_dir {
        Err(OutputCollision::IsADirectory)
    } else {
        Ok(PublishAction::ReplaceThenRename)
    }
}

/// What is on disk at a volume's staging and final paths.
#[derive(Clone, Copy, Debug, PartialEq, Eq, Structural)]
pub struct OutputState {
    pub staging_exists: bool,
    pub final_exists: bool,
    pub final_is_dir: bool,
}

/// One build of a volume, as its checks see the disk: the outcome, and what
/// is on disk afterwards (a staging file may stay behind a failed publish).
pub open spec fn build_step(s: OutputState, overwrite: bool) -> (
    Result<PublishAction, OutputCollision>,
    OutputState,
) {
    match staging_check(s.staging_exists, overwrite) {
        Err(e) => (Err(e), s),
        Ok(_) => match publish_decision(s.final_exists, s.final_is_dir, overwrite) {
            Ok(a) => (
                Ok(a),
                OutputState { staging_exists: false, final_exists: true, final_is_dir: false },
            ),
            Err(e) => (Err(e), OutputState { staging_exists: true, ..s }),
        },
    }
}

/// Building a volume again onto the file a successful build published fails
/// with an existing-output error without `overwrite`, and with `overwrite`
/// replaces the file and succeeds.
pub proof fn lemma_overwrite_policy(s: OutputState, overwrite: bool)
    requires
        build_step(s, overwrite).0 is Ok,
    ensures
        build_step(build_step(s, overwrite).1, false).0 == Err::<PublishAction, OutputCollision>(
            OutputCollision::AlreadyExists,
        ),
        build_step(build_step(s, overwrite).1, true).0 == Ok::<PublishAction, OutputCollision>(
            PublishAction::ReplaceThenRename,
        ),
        build_step(build_step(s, overwrite).1, true).1 == build_step(s, overwrite).1,
{
}

} // verus!
