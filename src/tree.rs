//! File and directory records, and the directory tree they form.
use vstd::prelude::*;

verus! {

/// What a `String` option holds, as characters.
pub open spec fn opt_view(o: Option<String>) -> Option<Seq<char>> {
    match o {
        Some(s) => Some(s@),
        None => None,
    }
}

/// A copy of a `String` option.
pub fn clone_opt(o: &Option<String>) -> (r: Option<String>)
    ensures
        opt_view(r) == opt_view(*o),
{
    match o {
        Some(s) => Some(s.clone()),
        None => None,
    }
}

/// One classified file.
pub struct FileInfo {
    /// Path relative to the analysed root.
    pub path: String,
    pub name: String,
    pub extension: Option<String>,
    /// Byte size, as the file system reports it.
    pub size: u64,
    pub lines_of_code: Option<u32>,
    pub blank_lines: Option<u32>,
    pub comment_lines: Option<u32>,
    pub language: Option<String>,
    pub mime_type: Option<String>,
    pub is_binary: bool,
    pub is_text: bool,
    pub encoding: Option<String>,
    /// Lowercase hexadecimal MD5 digest of the raw bytes.
    pub hash: String,
    /// The first lines of a text file, joined by newlines.
    pub content_preview: Option<String>,
}

/// The value of a `FileInfo`, with its strings as character sequences.
pub struct FileInfoView {
    pub path: Seq<char>,
    pub name: Seq<char>,
    pub extension: Option<Seq<char>>,
    pub size: u64,
    pub lines_of_code: Option<u32>,
    pub blank_lines: Option<u32>,
    pub comment_lines: Option<u32>,
    pub language: Option<Seq<char>>,
    pub mime_type: Option<Seq<char>>,
    pub is_binary: bool,
    pub is_text: bool,
    pub encoding: Option<Seq<char>>,
    pub hash: Seq<char>,
    pub content_preview: Option<Seq<char>>,
}

impl View for FileInfo {
    type V = FileInfoView;

    open spec fn view(&self) -> FileInfoView {
        FileInfoView {
            path: self.path@,
            name: self.name@,
            extension: opt_view(self.extension),
            size: self.size,
            lines_of_code: self.lines_of_code,
            blank_lines: self.blank_lines,
            comment_lines: self.comment_lines,
            language: opt_view(self.language),
            mime_type: opt_view(self.mime_type),
            is_binary: self.is_binary,
            is_text: self.is_text,
            encoding: opt_view(self.encoding),
            hash: self.hash@,
            content_preview: opt_view(self.content_preview),
        }
    }
}

impl Clone for FileInfo {
    fn clone(&self) -> (r: Self)
        ensures
            r@ == self@,
    {
        FileInfo {
            path: self.path.clone(),
            name: self.name.clone(),
            extension: clone_opt(&self.extension),
            size: self.size,
            lines_of_code: self.lines_of_code,
            blank_lines: self.blank_lines,
            comment_lines: self.comment_lines,
            language: clone_opt(&self.language),
            mime_type: clone_opt(&self.mime_type),
            is_binary: self.is_binary,
            is_text: self.is_text,
            encoding: clone_opt(&self.encoding),
            hash: self.hash.clone(),
            content_preview: clone_opt(&self.content_preview),
        }
    }
}

/// The views of a sequence of files.
pub open spec fn views(s: Seq<FileInfo>) -> Seq<FileInfoView> {
    s.map_values(|f: FileInfo| f@)
}

/// One directory level: its files and its subdirectories, in enumeration order.
pub struct DirectoryInfo {
    pub path: String,
    pub name: String,
    pub file_count: u32,
    pub subdirectory_count: u32,
    /// Bytes of all files at this level and below.
    pub total_size: u64,
    pub files: Vec<FileInfo>,
    pub subdirectories: Vec<DirectoryInfo>,
}

/// Sum of the sizes of `fs`.
pub open spec fn files_size(fs: Seq<FileInfo>) -> int
    decreases fs.len(),
{
    if fs.len() == 0 {
        0
    } else {
        files_size(fs.drop_last()) + fs.last().size
    }
}

/// Sum of the recorded total sizes of `ds`.
pub open spec fn dirs_size(ds: Seq<DirectoryInfo>) -> int
    decreases ds.len(),
{
    if ds.len() == 0 {
        0
    } else {
        dirs_size(ds.drop_last()) + ds.last().total_size
    }
}

impl DirectoryInfo {
    /// The counts and the total size of this level agree with its contents.
    pub open spec fn level_ok(&self) -> bool {
        &&& self.file_count == self.files@.len()
        &&& self.subdirectory_count == self.subdirectories@.len()
        &&& self.total_size == files_size(self.files@) + dirs_size(self.subdirectories@)
    }

    /// Every level of the tree rooted here is consistent.
    pub open spec fn wf(&self) -> bool
        decreases self,
    {
        &&& self.level_ok()
        &&& forall|i: int|
            0 <= i < self.subdirectories@.len() ==> (#[trigger] self.subdirectories@[i]).wf()
    }

    /// A directory with nothing in it yet.
    pub fn new(path: String, name: String) -> (r: Self)
        ensures
            r.wf(),
            r.path@ == path@,
            r.name@ == name@,
            r.files@.len() == 0,
            r.subdirectories@.len() == 0,
    {
        DirectoryInfo {
            path,
            name,
            file_count: 0,
            subdirectory_count: 0,
            total_size: 0,
            files: Vec::new(),
            subdirectories: Vec::new(),
        }
    }

    /// Appends a file to this level and adds its size to the total.
    pub fn add_file(&mut self, f: FileInfo)
        requires
            old(self).wf(),
            old(self).total_size + f.size <= u64::MAX,
            old(self).file_count < u32::MAX,
        ensures
            final(self).wf(),
            final(self).files@ == old(self).files@.push(f),
            final(self).subdirectories@ == old(self).subdirectories@,
            final(self).total_size == old(self).total_size + f.size,
            final(self).path == old(self).path,
            final(self).name == old(self).name,
    {
        let ghost old_files = self.files@;
        self.total_size = self.total_size + f.size;
        self.file_count = self.file_count + 1;
        self.files.push(f);
        assert(self.files@.drop_last() =~= old_files);
        assert(self.wf());
    }

    /// Appends a consistent subdirectory and adds its total to this level's.
    pub fn add_subdirectory(&mut self, d: DirectoryInfo)
        requires
            old(self).wf(),
            d.wf(),
            old(self).total_size + d.total_size <= u64::MAX,
            old(self).subdirectory_count < u32::MAX,
        ensures
            final(self).wf(),
            final(self).files@ == old(self).files@,
            final(self).subdirectories@ == old(self).subdirectories@.push(d),
            final(self).total_size == old(self).total_size + d.total_size,
            final(self).path == old(self).path,
            final(self).name == old(self).name,
    {
        let ghost old_dirs = self.subdirectories@;
        self.total_size = self.total_size + d.total_size;
        self.subdirectory_count = self.subdirectory_count + 1;
        self.subdirectories.push(d);
        assert(self.subdirectories@.drop_last() =~= old_dirs);
        assert forall|i: int| 0 <= i < self.subdirectories@.len() implies (
        #[trigger] self.subdirectories@[i]).wf() by {
            if i < old_dirs.len() {
                assert(self.subdirectories@[i] == old_dirs[i]);
            }
        }
        assert(self.wf());
    }
}

/// Every file of the tree rooted at `d`, in pre-order: the files of a level
/// first, then those below each subdirectory in turn.
pub open spec fn flatten(d: DirectoryInfo) -> Seq<FileInfoView>
    decreases d,
{
    views(d.files@) + flatten_all(d.subdirectories@)
}

/// The files of the trees rooted at each of `ds`, one tree after another.
pub open spec fn flatten_all(ds: Seq<DirectoryInfo>) -> Seq<FileInfoView>
    decreases ds,
{
    if ds.len() == 0 {
        Seq::empty()
    } else {
        flatten_all(ds.drop_last()) + flatten(ds.last())
    }
}

/// Sum of the sizes of the files in `fs`.
pub open spec fn view_size(fs: Seq<FileInfoView>) -> int
    decreases fs.len(),
{
    if fs.len() == 0 {
        0
    } else {
        view_size(fs.drop_last()) + fs.last().size
    }
}

pub proof fn lemma_view_size_append(a: Seq<FileInfoView>, b: Seq<FileInfoView>)
    ensures
        view_size(a + b) == view_size(a) + view_size(b),
    decreases b.len(),
{
    if b.len() > 0 {
        assert((a + b).drop_last() =~= a + b.drop_last());
        lemma_view_size_append(a, b.drop_last());
    } else {
        assert(a + b =~= a);
    }
}

proof fn lemma_files_size_views(fs: Seq<FileInfo>)
    ensures
        view_size(views(fs)) == files_size(fs),
    decreases fs.len(),
{
    if fs.len() > 0 {
        assert(views(fs).drop_last() =~= views(fs.drop_last()));
        lemma_files_size_views(fs.drop_last());
    }
}

/// A consistent directory's total size is the sum of the sizes of all files
/// anywhere below it.
pub proof fn lemma_total_size_is_file_sum(d: DirectoryInfo)
    requires
        d.wf(),
    ensures
        d.total_size == view_size(flatten(d)),
    decreases d,
{
    lemma_files_size_views(d.files@);
    lemma_all_sizes(d.subdirectories@);
    lemma_view_size_append(views(d.files@), flatten_all(d.subdirectories@));
}

proof fn lemma_all_sizes(ds: Seq<DirectoryInfo>)
    requires
        forall|i: int| 0 <= i < ds.len() ==> (#[trigger] ds[i]).wf(),
    ensures
        dirs_size(ds) == view_size(flatten_all(ds)),
    decreases ds,
{
    if ds.len() > 0 {
        let init = ds.drop_last();
        assert forall|i: int| 0 <= i < init.len() implies (#[trigger] init[i]).wf() by {
            assert(init[i] == ds[i]);
        }
        lemma_all_sizes(init);
        assert(ds[ds.len() - 1].wf());
        lemma_total_size_is_file_sum(ds.last());
        lemma_view_size_append(flatten_all(init), flatten(ds.last()));
    }
}

/// A consistent directory's total size is the sum of its own files' sizes
/// plus the total sizes of its subdirectories.
pub proof fn lemma_total_size_composition(d: DirectoryInfo)
    requires
        d.wf(),
    ensures
        d.total_size == files_size(d.files@) + dirs_size(d.subdirectories@),
{
}

/// Appends the files of the tree rooted at `dir` to `all_files`, in
/// pre-order.
pub fn collect_files(dir: &DirectoryInfo, all_files: &mut Vec<FileInfo>)
    ensures
        views(final(all_files)@) == views(old(all_files)@) + flatten(*dir),
    decreases dir,
{
    let ghost start = views(all_files@);
    let mut i: usize = 0;
    while i < dir.files.len()
        invariant
            i <= dir.files@.len(),
            views(all_files@) == start + views(dir.files@.take(i as int)),
        decreases dir.files.len() - i,
    {
        let ghost pre = all_files@;
        all_files.push(dir.files[i].clone());
        assert(views(all_files@) =~= views(pre).push(dir.files@[i as int]@));
        assert(views(dir.files@.take(i + 1)) =~= views(dir.files@.take(i as int)).push(
            dir.files@[i as int]@,
        ));
        i = i + 1;
    }
    assert(dir.files@.take(i as int) =~= dir.files@);
    let ghost mid = views(all_files@);
    let mut j: usize = 0;
    while j < dir.subdirectories.len()
        invariant
            j <= dir.subdirectories@.len(),
            views(all_files@) == mid + flatten_all(dir.subdirectories@.take(j as int)),
        decreases dir.subdirectories.len() - j,
    {
        assert(dir.subdirectories@.take(j + 1).drop_last() =~= dir.subdirectories@.take(j as int));
        assert(dir.subdirectories@.take(j + 1).last() == dir.subdirectories@[j as int]);
        collect_files(&dir.subdirectories[j], all_files);
        j = j + 1;
    }
    assert(dir.subdirectories@.take(j as int) =~= dir.subdirectories@);
}

} // verus!
