use crate::naming::{dec, dec_value, lemma_padded_value, decimal, ext_of, extension, join, join_path, pad_num, padded};
use crate::volume::{final_path_of, final_suffix};
use vstd::prelude::*;
use vstd::string::*;

verus! {

/// How the entries of an archive are compressed: never lossy.
#[derive(Clone, Copy, Debug, PartialEq, Eq, Structural)]
pub enum Compression {
    Stored,
    Deflated,
}

/// Deflate when lossless compression is asked for, else store.
pub fn compression_for(compress_losslessly: bool) -> (r: Compression)
    ensures
        r == (if compress_losslessly {
            Compression::Deflated
        } else {
            Compression::Stored
        }),
{
    if compress_losslessly {
        Compression::Deflated
    } else {
        Compression::Stored
    }
}

/// What names the entries of one volume's archive.
#[derive(Clone, Debug)]
pub struct ArchiveLayout {
    /// Chapters are directories named as themselves (one volume per chapter).
    pub each: bool,
    pub volume: usize,
    pub vol_num_len: usize,
    pub chapter_num_len: usize,
    /// The volume's label, which starts page names of `each` volumes.
    pub label: String,
    /// Pages are transcoded to WebP.
    pub compress_webp: bool,
}

/// A chapter with its page files, in the order they are archived.
#[derive(Clone, Debug)]
pub struct ChapterPages {
    pub number: usize,
    pub name: String,
    pub pages: Vec<String>,
}

/// One entry of the archive: a chapter's directory (`page` is `None`) or
/// one page of chapter `chapter` (an index into the planned chapters).
#[derive(Clone, Debug)]
pub struct ArchiveEntry {
    pub path: String,
    pub chapter: usize,
    pub page: Option<usize>,
}

impl View for ArchiveEntry {
    /// Path, chapter index, and page index (-1 for a directory).
    type V = (Seq<char>, int, int);

    open spec fn view(&self) -> (Seq<char>, int, int) {
        (
            self.path@,
            self.chapter as int,
            match self.page {
                Some(p) => p as int,
                None => -1,
            },
        )
    }
}

pub open spec fn entries_view(v: Seq<ArchiveEntry>) -> Seq<(Seq<char>, int, int)> {
    v.map_values(|e: ArchiveEntry| e@)
}

/// `Vol_<volume>_Chapter_<chapter>` with both numbers padded.
pub open spec fn vol_chapter(l: ArchiveLayout, number: nat) -> Seq<char> {
    "Vol_"@ + padded(l.volume as nat, l.vol_num_len as nat) + "_Chapter_"@ + padded(
        number,
        l.chapter_num_len as nat,
    )
}

/// Name of a chapter's directory in the archive.
pub open spec fn dir_name(l: ArchiveLayout, ch: ChapterPages) -> Seq<char> {
    if l.each {
        ch.name@
    } else {
        vol_chapter(l, ch.number as nat)
    }
}

/// Extension a page has in the archive.
pub open spec fn page_ext(l: ArchiveLayout, file: Seq<char>) -> Seq<char> {
    if l.compress_webp {
        "webp"@
    } else {
        ext_of(file)
    }
}

/// Name of page `p` of a chapter in the archive; the page number is padded
/// to the width of the chapter's page count.
pub open spec fn page_name(l: ArchiveLayout, ch: ChapterPages, p: int) -> Seq<char> {
    let tail = "_Pic_"@ + padded(p as nat, dec(ch.pages@.len()).len()) + "."@ + page_ext(
        l,
        ch.pages@[p]@,
    );
    if l.each {
        l.label@ + tail
    } else {
        vol_chapter(l, ch.number as nat) + tail
    }
}

/// The entries of one chapter: its directory, then each page under it.
pub open spec fn chapter_plan(l: ArchiveLayout, ch: ChapterPages, ci: int) -> Seq<
    (Seq<char>, int, int),
> {
    seq![(dir_name(l, ch), ci, -1)] + Seq::new(
        ch.pages@.len(),
        |p: int| (join_path(dir_name(l, ch), page_name(l, ch, p)), ci, p),
    )
}

/// The entries of a volume, chapter after chapter.
pub open spec fn volume_plan(l: ArchiveLayout, chs: Seq<ChapterPages>) -> Seq<
    (Seq<char>, int, int),
>
    decreases chs.len(),
{
    if chs.len() == 0 {
        Seq::empty()
    } else {
        volume_plan(l, chs.drop_last()) + chapter_plan(l, chs.last(), chs.len() - 1)
    }
}

/// The number of page entries.
pub open spec fn page_entries(s: Seq<(Seq<char>, int, int)>) -> nat
    decreases s.len(),
{
    if s.len() == 0 {
        0
    } else {
        page_entries(s.drop_last()) + (if s.last().2 >= 0 {
            1nat
        } else {
            0nat
        })
    }
}

/// The number of pages of all chapters.
pub open spec fn total_pages(chs: Seq<ChapterPages>) -> nat
    decreases chs.len(),
{
    if chs.len() == 0 {
        0
    } else {
        total_pages(chs.drop_last()) + chs.last().pages@.len()
    }
}

proof fn lemma_page_entries_add(a: Seq<(Seq<char>, int, int)>, b: Seq<(Seq<char>, int, int)>)
    ensures
        page_entries(a + b) == page_entries(a) + page_entries(b),
    decreases b.len(),
{
    if b.len() > 0 {
        lemma_page_entries_add(a, b.drop_last());
        assert((a + b).drop_last() =~= a + b.drop_last());
    }
}

proof fn lemma_pages_prefix(l: ArchiveLayout, ch: ChapterPages, ci: int, k: int)
    requires
        0 <= k <= ch.pages@.len(),
    ensures
        page_entries(chapter_plan(l, ch, ci).subrange(0, k + 1)) == k,
    decreases k,
{
    let cp = chapter_plan(l, ch, ci);
    if k == 0 {
        assert(cp.subrange(0, 1).drop_last() =~= Seq::<(Seq<char>, int, int)>::empty());
        assert(cp[0].2 == -1);
        assert(cp.subrange(0, 1).last() == cp[0]);
        assert(page_entries(Seq::<(Seq<char>, int, int)>::empty()) == 0);
    } else {
        lemma_pages_prefix(l, ch, ci, k - 1);
        assert(cp.subrange(0, k + 1).drop_last() =~= cp.subrange(0, k));
        assert(cp.subrange(0, k + 1).last() == cp[k]);
        assert(cp[k].2 == k - 1);
    }
}

proof fn lemma_plan_structure(l: ArchiveLayout, chs: Seq<ChapterPages>)
    ensures
        page_entries(volume_plan(l, chs)) == total_pages(chs),
        forall|i: int|
            0 <= i < volume_plan(l, chs).len() ==> 0 <= (#[trigger] volume_plan(l, chs)[i]).1 < chs.len(),
        forall|i: int|
            0 <= i < volume_plan(l, chs).len() && (#[trigger] volume_plan(l, chs)[i]).2 >= 0 ==> ({
                let e = volume_plan(l, chs)[i];
                exists|d: int|
                    0 <= d < volume_plan(l, chs).len() && (#[trigger] volume_plan(l, chs)[d]).2 == -1
                        && volume_plan(l, chs)[d].1 == e.1 && e.0 == join_path(
                        volume_plan(l, chs)[d].0,
                        page_name(l, chs[e.1], e.2),
                    )
            }),
        forall|d1: int, d2: int|
            0 <= d1 < volume_plan(l, chs).len() && 0 <= d2 < volume_plan(l, chs).len()
                && (#[trigger] volume_plan(l, chs)[d1]).2 == -1 && (#[trigger] volume_plan(
                l,
                chs,
            )[d2]).2 == -1 && volume_plan(l, chs)[d1].1 == volume_plan(l, chs)[d2].1 ==> d1 == d2,
        forall|d: int|
            0 <= d < volume_plan(l, chs).len() && (#[trigger] volume_plan(l, chs)[d]).2 == -1
                ==> volume_plan(l, chs)[d].0 == dir_name(l, chs[volume_plan(l, chs)[d].1]),
        forall|ci: int| 0 <= ci < chs.len() ==> #[trigger] has_dir_entry(volume_plan(l, chs), ci),
    decreases chs.len(),
{
    if chs.len() > 0 {
        let pre = chs.drop_last();
        let ci = chs.len() - 1;
        let ch = chs.last();
        lemma_plan_structure(l, pre);
        let a = volume_plan(l, pre);
        let cp = chapter_plan(l, ch, ci);
        let v = volume_plan(l, chs);
        assert(v == a + cp);
        lemma_page_entries_add(a, cp);
        lemma_pages_prefix(l, ch, ci, ch.pages@.len() as int);
        assert(cp.subrange(0, ch.pages@.len() as int + 1) =~= cp);
        assert forall|i: int| 0 <= i < v.len() implies 0 <= (#[trigger] v[i]).1 < chs.len() by {
            if i < a.len() {
                assert(v[i] == a[i]);
            }
        }
        assert forall|i: int| 0 <= i < v.len() && (#[trigger] v[i]).2 >= 0 implies ({
            let e = v[i];
            exists|d: int|
                0 <= d < v.len() && (#[trigger] v[d]).2 == -1 && v[d].1 == e.1 && e.0 == join_path(
                    v[d].0,
                    page_name(l, chs[e.1], e.2),
                )
        }) by {
            if i < a.len() {
                assert(v[i] == a[i]);
                let d = choose|d: int|
                    0 <= d < a.len() && (#[trigger] a[d]).2 == -1 && a[d].1 == a[i].1 && a[i].0
                        == join_path(a[d].0, page_name(l, pre[a[i].1], a[i].2));
                assert(v[d] == a[d]);
                assert(pre[a[i].1] == chs[a[i].1]);
            } else {
                assert(v[a.len() as int] == cp[0]);
                assert(v[i] == cp[i - a.len()]);
            }
        }
        assert forall|d1: int, d2: int|
            0 <= d1 < v.len() && 0 <= d2 < v.len() && (#[trigger] v[d1]).2 == -1
                && (#[trigger] v[d2]).2 == -1 && v[d1].1 == v[d2].1 implies d1 == d2 by {
            if d1 < a.len() {
                assert(v[d1] == a[d1]);
            } else {
                assert(v[d1] == cp[d1 - a.len()]);
            }
            if d2 < a.len() {
                assert(v[d2] == a[d2]);
            } else {
                assert(v[d2] == cp[d2 - a.len()]);
            }
        }
        assert forall|d: int| 0 <= d < v.len() && (#[trigger] v[d]).2 == -1 implies v[d].0 == dir_name(
            l,
            chs[v[d].1],
        ) by {
            if d < a.len() {
                assert(v[d] == a[d]);
                assert(pre[a[d].1] == chs[a[d].1]);
            } else {
                assert(v[d] == cp[d - a.len()]);
            }
        }
        assert forall|c: int| 0 <= c < chs.len() implies #[trigger] has_dir_entry(v, c) by {
            if c < pre.len() {
                assert(has_dir_entry(a, c));
                let d = choose|d: int| 0 <= d < a.len() && (#[trigger] a[d]).2 == -1 && a[d].1 == c;
                assert(v[d] == a[d]);
            } else {
                assert(v[a.len() as int] == cp[0]);
            }
        }
    }
}

/// Some directory entry of `s` belongs to chapter `ci`.
pub open spec fn has_dir_entry(s: Seq<(Seq<char>, int, int)>, ci: int) -> bool {
    exists|d: int| 0 <= d < s.len() && (#[trigger] s[d]).2 == -1 && s[d].1 == ci
}

proof fn lemma_vol_chapter_injective(l: ArchiveLayout, n1: nat, n2: nat)
    requires
        vol_chapter(l, n1) == vol_chapter(l, n2),
    ensures
        n1 == n2,
{
    let pre = "Vol_"@ + padded(l.volume as nat, l.vol_num_len as nat) + "_Chapter_"@;
    let p1 = padded(n1, l.chapter_num_len as nat);
    let p2 = padded(n2, l.chapter_num_len as nat);
    assert(vol_chapter(l, n1) == pre + p1);
    assert(vol_chapter(l, n2) == pre + p2);
    assert((pre + p1).subrange(pre.len() as int, (pre + p1).len() as int) =~= p1);
    assert((pre + p2).subrange(pre.len() as int, (pre + p2).len() as int) =~= p2);
    lemma_padded_value(n1, l.chapter_num_len as nat);
    lemma_padded_value(n2, l.chapter_num_len as nat);
}

/// Structure of every planned archive: the number of page entries equals
/// the number of pages of all chapters; each chapter has exactly one
/// directory entry, so there are as many directory entries as chapters; each
/// page entry lies under its own chapter's directory entry; and, where the
/// chapters' numbers differ (or a one-chapter-per-volume layout holds at most
/// one chapter), no two directory entries share a name.
pub proof fn lemma_archive_structure(l: ArchiveLayout, chs: Seq<ChapterPages>)
    requires
        l.each ==> chs.len() <= 1,
        !l.each ==> forall|i: int, j: int|
            0 <= i < j < chs.len() ==> (#[trigger] chs[i]).number != (#[trigger] chs[j]).number,
    ensures
        page_entries(volume_plan(l, chs)) == total_pages(chs),
        volume_plan(l, chs).len() == chs.len() + page_entries(volume_plan(l, chs)),
        forall|ci: int| 0 <= ci < chs.len() ==> #[trigger] has_dir_entry(volume_plan(l, chs), ci),
        forall|d: int|
            0 <= d < volume_plan(l, chs).len() && (#[trigger] volume_plan(l, chs)[d]).2 == -1
                ==> volume_plan(l, chs)[d].0 == dir_name(l, chs[volume_plan(l, chs)[d].1]),
        forall|i: int|
            0 <= i < volume_plan(l, chs).len() && (#[trigger] volume_plan(l, chs)[i]).2 >= 0 ==> ({
                let e = volume_plan(l, chs)[i];
                exists|d: int|
                    0 <= d < volume_plan(l, chs).len() && (#[trigger] volume_plan(l, chs)[d]).2 == -1
                        && volume_plan(l, chs)[d].1 == e.1 && e.0 == join_path(
                        volume_plan(l, chs)[d].0,
                        page_name(l, chs[e.1], e.2),
                    )
            }),
        forall|d1: int, d2: int|
            0 <= d1 < volume_plan(l, chs).len() && 0 <= d2 < volume_plan(l, chs).len()
                && (#[trigger] volume_plan(l, chs)[d1]).2 == -1 && (#[trigger] volume_plan(
                l,
                chs,
            )[d2]).2 == -1 && volume_plan(l, chs)[d1].1 == volume_plan(l, chs)[d2].1 ==> d1 == d2,
        forall|d1: int, d2: int|
            0 <= d1 < volume_plan(l, chs).len() && 0 <= d2 < volume_plan(l, chs).len() && d1 != d2
                && (#[trigger] volume_plan(l, chs)[d1]).2 == -1 && (#[trigger] volume_plan(
                l,
                chs,
            )[d2]).2 == -1 ==> volume_plan(l, chs)[d1].0 != volume_plan(l, chs)[d2].0,
{
    lemma_plan_structure(l, chs);
    lemma_plan_length(l, chs);
    let v = volume_plan(l, chs);
    assert forall|d1: int, d2: int|
        0 <= d1 < v.len() && 0 <= d2 < v.len() && d1 != d2 && (#[trigger] v[d1]).2 == -1
            && (#[trigger] v[d2]).2 == -1 implies v[d1].0 != v[d2].0 by {
        let c1 = v[d1].1;
        let c2 = v[d2].1;
        assert(c1 != c2);
        if !l.each && v[d1].0 == v[d2].0 {
            if c1 < c2 {
                assert(chs[c1].number != chs[c2].number);
            } else {
                assert(chs[c2].number != chs[c1].number);
            }
            lemma_vol_chapter_injective(l, chs[c1].number as nat, chs[c2].number as nat);
        }
    }
}

proof fn lemma_plan_length(l: ArchiveLayout, chs: Seq<ChapterPages>)
    ensures
        volume_plan(l, chs).len() == chs.len() + total_pages(chs),
    decreases chs.len(),
{
    if chs.len() > 0 {
        lemma_plan_length(l, chs.drop_last());
    }
}

/// A volume whose file name carries its page count names exactly the number
/// of pages of all its chapters, which is the number of page entries written.
pub proof fn lemma_page_count_in_name(l: ArchiveLayout, chs: Seq<ChapterPages>, base: Seq<char>)
    ensures
        final_path_of(base, true, page_entries(volume_plan(l, chs))) == base + " ("@ + dec(
            total_pages(chs),
        ) + " pages)"@ + final_suffix(),
{
    lemma_plan_structure(l, chs);
}

proof fn lemma_page_entries_bound(s: Seq<(Seq<char>, int, int)>)
    ensures
        page_entries(s) <= s.len(),
    decreases s.len(),
{
    if s.len() > 0 {
        lemma_page_entries_bound(s.drop_last());
    }
}

/// A volume's archive being written: its planned entries, how many of them
/// are written, and the page counter.
pub struct VolumeProgress {
    pub entries: Vec<ArchiveEntry>,
    pub next: usize,
    pub pages: usize,
}

impl VolumeProgress {
    pub open spec fn plan(&self) -> Seq<(Seq<char>, int, int)> {
        entries_view(self.entries@)
    }

    /// The counter holds the number of page entries among those written.
    pub open spec fn wf(&self) -> bool {
        &&& self.next <= self.entries@.len()
        &&& self.pages == page_entries(self.plan().subrange(0, self.next as int))
    }

    /// Starts a volume with the entries `plan_volume` gives, none written.
    pub fn new(l: &ArchiveLayout, chs: &Vec<ChapterPages>) -> (r: VolumeProgress)
        ensures
            r.wf(),
            r.plan() == volume_plan(*l, chs@),
            r.next == 0,
    {
        let entries = plan_volume(l, chs);
        let r = VolumeProgress { entries, next: 0, pages: 0 };
        assert(r.plan().subrange(0, 0) =~= Seq::<(Seq<char>, int, int)>::empty());
        r
    }

    /// The entry to write next, if any is left.
    pub fn next_entry(&self) -> (r: Option<&ArchiveEntry>)
        requires
            self.wf(),
        ensures
            self.next < self.entries@.len() ==> r == Some(&self.entries@[self.next as int]),
            self.next == self.entries@.len() ==> r is None,
    {
        if self.next < self.entries.len() {
            Some(&self.entries[self.next])
        } else {
            None
        }
    }

    /// Records that the next entry was written; a page entry counts one page.
    pub fn advance(&mut self)
        requires
            old(self).wf(),
            old(self).next < old(self).entries@.len(),
        ensures
            final(self).wf(),
            final(self).entries == old(self).entries,
            final(self).next == old(self).next + 1,
            final(self).pages == old(self).pages + (if old(self).entries@[old(self).next as int].page is Some {
                1int
            } else {
                0int
            }),
    {
        let len = self.entries.len();
        let ghost s = self.plan();
        let ghost n = self.next as int;
        proof {
            assert(s.subrange(0, n).len() == n);
            lemma_page_entries_bound(s.subrange(0, n));
            assert(s.subrange(0, n + 1).drop_last() =~= s.subrange(0, n));
            assert(s.subrange(0, n + 1).last() == s[n]);
            assert(self.pages <= n);
        }
        if self.entries[self.next].page.is_some() {
            self.pages = self.pages + 1;
        }
        self.next = self.next + 1;
    }

    /// Whether every planned entry is written.
    pub fn is_done(&self) -> (r: bool)
        ensures
            r == (self.next == self.entries@.len()),
    {
        self.next == self.entries.len()
    }

    /// Final path of the finished volume, carrying the page counter when
    /// asked for; the counter then is the number of page entries of the plan.
    pub fn final_path(&self, base: &str, append_pages: bool) -> (r: String)
        requires
            self.wf(),
            self.next == self.entries@.len(),
        ensures
            r@ == final_path_of(base@, append_pages, page_entries(self.plan())),
    {
        assert(self.plan().subrange(0, self.next as int) =~= self.plan());
        crate::volume::final_path(base, append_pages, self.pages)
    }
}

/// Name of a chapter's directory in the archive.
pub fn chapter_dir_name(l: &ArchiveLayout, ch: &ChapterPages) -> (r: String)
    ensures
        r@ == dir_name(*l, *ch),
{
    if l.each {
        return ch.name.clone();
    }
    vol_chapter_name(l, ch.number)
}

fn vol_chapter_name(l: &ArchiveLayout, number: usize) -> (r: String)
    ensures
        r@ == vol_chapter(*l, number as nat),
{
    let mut r = String::from_str("Vol_");
    let v = pad_num(l.volume, l.vol_num_len);
    r.append(v.as_str());
    r.append("_Chapter_");
    let c = pad_num(number, l.chapter_num_len);
    r.append(c.as_str());
    r
}

/// Name of page `p` of a chapter in the archive.
pub fn page_entry_name(l: &ArchiveLayout, ch: &ChapterPages, p: usize) -> (r: String)
    requires
        p < ch.pages@.len(),
    ensures
        r@ == page_name(*l, *ch, p as int),
{
    let mut r = if l.each {
        l.label.clone()
    } else {
        vol_chapter_name(l, ch.number)
    };
    r.append("_Pic_");
    let width = decimal(ch.pages.len());
    let num = pad_num(p, width.as_str().unicode_len());
    r.append(num.as_str());
    r.append(".");
    if l.compress_webp {
        r.append("webp");
    } else {
        let e = extension(ch.pages[p].as_str());
        r.append(e.as_str());
    }
    r
}

/// The entries of a volume's archive in the order they are written: for each
/// chapter its directory, then each of its pages under that directory.
pub fn plan_volume(l: &ArchiveLayout, chs: &Vec<ChapterPages>) -> (r: Vec<ArchiveEntry>)
    ensures
        entries_view(r@) == volume_plan(*l, chs@),
{
    let mut r: Vec<ArchiveEntry> = Vec::new();
    let mut ci: usize = 0;
    while ci < chs.len()
        invariant
            ci <= chs@.len(),
            entries_view(r@) == volume_plan(*l, chs@.subrange(0, ci as int)),
        decreases chs@.len() - ci,
    {
        let ch = &chs[ci];
        let ghost before = entries_view(r@);
        let ghost cp = chapter_plan(*l, *ch, ci as int);
        let dir = chapter_dir_name(l, ch);
        r.push(ArchiveEntry { path: dir.clone(), chapter: ci, page: None });
        assert(entries_view(r@) =~= before + cp.subrange(0, 1));
        let mut p: usize = 0;
        while p < ch.pages.len()
            invariant
                ci < chs@.len(),
                *ch == chs@[ci as int],
                p <= ch.pages@.len(),
                dir@ == dir_name(*l, *ch),
                cp == chapter_plan(*l, *ch, ci as int),
                entries_view(r@) == before + cp.subrange(0, p + 1),
            decreases ch.pages@.len() - p,
        {
            let name = page_entry_name(l, ch, p);
            let path = join(dir.as_str(), name.as_str());
            let ghost prev = r@;
            r.push(ArchiveEntry { path, chapter: ci, page: Some(p) });
            assert(entries_view(r@) =~= entries_view(prev).push(cp[p + 1]));
            assert(cp.subrange(0, p + 2) =~= cp.subrange(0, p + 1).push(cp[p + 1]));
            p = p + 1;
        }
        assert(cp.subrange(0, p + 1) =~= cp);
        assert(chs@.subrange(0, ci + 1).drop_last() =~= chs@.subrange(0, ci as int));
        ci = ci + 1;
    }
    assert(chs@.subrange(0, ci as int) =~= chs@);
    r
}

} // verus!
