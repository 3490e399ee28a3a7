//! A local file tree as the source of a backup: how it is walked, which entries are left out, and
//! in which order the rest comes.

use vstd::prelude::*;
use vstd::utf8::encode_utf8;

use crate::mapper::LocalSourceSaveOptions;
use crate::order::{
    begins_with, lemma_extensions_are_contiguous, lemma_prefix_comes_first, lex_order,
};
use crate::path::{
    law_components_compare_by_kind_and_bytes, law_paths_compare_by_the_first_difference,
    lemma_part_order, lemma_path_order, name_of, part_order, path_order, strictly_under, PartModel,
    SourcePath,
};
use crate::sort::{
    is_sorted, is_stable_sort, law_sort_permutes, same_rank, stable_sort, ties, Ranked,
};
use crate::walker::LocalSourceWalker;

verus! {

/// The most threads that walk a tree.
pub const MAX_WALKER_THREADS: usize = 32;

/// A number brought into the range from 1 to the most threads.
pub open spec fn clamped_threads(n: usize) -> usize {
    if n < 1 {
        1
    } else if n > MAX_WALKER_THREADS {
        MAX_WALKER_THREADS
    } else {
        n
    }
}

/// The number of threads that walk a tree: the number asked for or, where none was, the number
/// that the machine runs at a time, in each case at least 1 and at most 32. A machine that does
/// not tell counts as 1.
pub fn walker_thread_count(opt: Option<usize>, available: Option<usize>) -> (r: usize)
    ensures
        r == clamped_threads(
            match (opt, available) {
                (Some(n), _) => n,
                (None, Some(n)) => n,
                (None, None) => 1,
            },
        ),
{
    let n: usize = match (opt, available) {
        (Some(n), _) => n,
        (None, Some(n)) => n,
        (None, None) => 1,
    };
    if n < 1 {
        1
    } else if n > MAX_WALKER_THREADS {
        MAX_WALKER_THREADS
    } else {
        n
    }
}

/// Which entries of a local source are left out.
#[derive(Debug)]
pub struct LocalSourceFilterOptions {
    /// Leave out what `.gitignore` files name.
    pub git_ignore: bool,
    /// Heed `.gitignore` files outside of git repositories too.
    pub no_require_git: bool,
    /// Further names of files to be treated like `.gitignore`.
    pub custom_ignorefiles: Vec<String>,
    /// Leave out directories that hold a file of such a name.
    pub exclude_if_present: Vec<String>,
    /// Leave out entries that have an extended attribute of such a name.
    pub exclude_if_xattr: Vec<String>,
    /// Stay on the file system of each backup path.
    pub one_file_system: bool,
    /// Leave out files of more bytes.
    pub exclude_larger_than: Option<u64>,
}

impl Default for LocalSourceFilterOptions {
    fn default() -> (r: LocalSourceFilterOptions)
        ensures
            !r.git_ignore,
            !r.no_require_git,
            r.custom_ignorefiles@.len() == 0,
            r.exclude_if_present@.len() == 0,
            r.exclude_if_xattr@.len() == 0,
            !r.one_file_system,
            r.exclude_larger_than is None,
    {
        LocalSourceFilterOptions {
            git_ignore: false,
            no_require_git: false,
            custom_ignorefiles: Vec::new(),
            exclude_if_present: Vec::new(),
            exclude_if_xattr: Vec::new(),
            one_file_system: false,
            exclude_larger_than: None,
        }
    }
}

/// How a tree is walked.
#[derive(Debug)]
pub struct WalkSettings {
    /// Where the walk starts, one place after the other.
    pub roots: Vec<SourcePath>,
    /// Names of files to be treated like `.gitignore`.
    pub custom_ignore_filenames: Vec<String>,
    /// Follow symbolic links.
    pub follow_links: bool,
    /// Leave out hidden files.
    pub hidden: bool,
    /// Heed `.ignore` files.
    pub ignore: bool,
    /// Heed `.gitignore` files.
    pub git_ignore: bool,
    /// Heed the exclude files of git repositories.
    pub git_exclude: bool,
    /// Heed both only inside git repositories.
    pub require_git: bool,
    /// Walk the entries of a directory in the order of their paths.
    pub sort_by_path: bool,
    /// Stay on one file system.
    pub same_file_system: bool,
    /// Leave out files of more bytes.
    pub max_filesize: Option<u64>,
}

/// A list of texts as lists of characters.
pub open spec fn texts(list: Seq<String>) -> Seq<Seq<char>> {
    list.map_values(|s: String| s@)
}

/// Paths as lists of components.
pub open spec fn paths(list: Seq<SourcePath>) -> Seq<Seq<PartModel>> {
    list.map_values(|p: SourcePath| p@)
}

/// Paths as the platform writes them.
pub open spec fn path_texts(list: Seq<SourcePath>) -> Seq<Seq<u8>> {
    list.map_values(|p: SourcePath| p.text@)
}

fn copy_texts(list: &Vec<String>) -> (r: Vec<String>)
    ensures
        texts(r@) == texts(list@),
{
    let mut r: Vec<String> = Vec::new();
    let mut i: usize = 0;
    while i < list.len()
        invariant
            i <= list@.len(),
            r@.len() == i,
            forall|k: int| 0 <= k < i ==> (#[trigger] r@[k])@ == list@[k]@,
        decreases list.len() - i,
    {
        r.push(list[i].clone());
        i = i + 1;
    }
    assert(texts(r@) =~= texts(list@));
    r
}

/// Which entries of a walk are left out because of what is in them or on them.
#[derive(Debug)]
pub struct EntryFilter {
    /// Names of files whose presence leaves out the directory.
    pub exclude_if_present: Vec<String>,
    /// Names of extended attributes that leave out the entry.
    pub exclude_if_xattr: Vec<String>,
}

/// One of the names on an entry is one of those to look for. Names on entries are bytes.
pub open spec fn name_found(on_entry: Seq<Vec<u8>>, wanted: Seq<String>) -> bool {
    exists|i: int, j: int|
        0 <= i < on_entry.len() && 0 <= j < wanted.len() && (#[trigger] on_entry[i])@
            == encode_utf8((#[trigger] wanted[j])@)
}

fn same_bytes(a: &[u8], b: &[u8]) -> (r: bool)
    ensures
        r == (a@ == b@),
{
    if a.len() != b.len() {
        return false;
    }
    let mut i: usize = 0;
    while i < a.len()
        invariant
            i <= a@.len(),
            a@.len() == b@.len(),
            forall|k: int| 0 <= k < i ==> a@[k] == b@[k],
        decreases a.len() - i,
    {
        if a[i] != b[i] {
            return false;
        }
        i = i + 1;
    }
    assert(a@ =~= b@);
    true
}

impl EntryFilter {
    /// The entry stays in the walk: it is no directory with a marker in it, and none of the names to
    /// look for is on it.
    pub open spec fn stays(
        &self,
        is_dir: Option<bool>,
        marker_present: bool,
        supported: bool,
        attributes: Option<Vec<Vec<u8>>>,
    ) -> bool {
        &&& !(self.exclude_if_present@.len() > 0 && is_dir == Some(true) && marker_present)
        &&& !(supported && (attributes matches Some(names) && name_found(
            names@,
            self.exclude_if_xattr@,
        )))
    }

    /// A directory with a marker in it is left out, and so is every entry with an attribute whose
    /// name is, byte for byte, one of those to look for, wherever the two stand in their lists.
    pub proof fn law_marked_entries_are_left_out(
        &self,
        marker_present: bool,
        is_dir: Option<bool>,
        names: Vec<Vec<u8>>,
        i: int,
        j: int,
    )
        ensures
            self.exclude_if_present@.len() > 0 ==> forall|supported: bool, attributes|
                !#[trigger] self.stays(Some(true), true, supported, attributes),
            0 <= i < names@.len() && 0 <= j < self.exclude_if_xattr@.len() && names@[i]@
                == encode_utf8(self.exclude_if_xattr@[j]@) ==> !self.stays(
                is_dir,
                marker_present,
                true,
                Some(names),
            ),
    {
    }

    /// Whatever has neither a marker in it nor such an attribute on it stays, and so does what is
    /// not known to be a directory, whatever is in it. Attributes count for nothing where they could
    /// not be listed, or where the platform has none.
    pub proof fn law_unmarked_entries_stay(
        &self,
        is_dir: Option<bool>,
        marker_present: bool,
        supported: bool,
        attributes: Option<Vec<Vec<u8>>>,
    )
        requires
            !marker_present || is_dir != Some(true) || self.exclude_if_present@.len() == 0,
            supported ==> (attributes matches Some(names) ==> forall|i: int, j: int|
                0 <= i < names@.len() && 0 <= j < self.exclude_if_xattr@.len() ==> (
                #[trigger] names@[i])@ != encode_utf8((#[trigger] self.exclude_if_xattr@[j])@)),
        ensures
            self.stays(is_dir, marker_present, supported, attributes),
    {
    }

    /// Tells whether the markers have to be looked for in an entry: there are some, and the entry
    /// is known to be a directory.
    pub fn looks_for_markers(&self, is_dir: Option<bool>) -> (r: bool)
        ensures
            r == (self.exclude_if_present@.len() > 0 && is_dir == Some(true)),
    {
        match is_dir {
            Some(dir) => self.exclude_if_present.len() > 0 && dir,
            None => false,
        }
    }

    /// Tells whether the extended attributes of an entry have to be listed: there are names to
    /// look for, and the platform has extended attributes.
    pub fn looks_for_xattrs(&self, supported: bool) -> (r: bool)
        ensures
            r == (supported && self.exclude_if_xattr@.len() > 0),
    {
        supported && self.exclude_if_xattr.len() > 0
    }

    /// Tells whether an entry stays in the walk.
    ///
    /// `marker_present` says whether a file of one of the marker names is in the entry, and
    /// `attributes` are the names of the extended attributes on it, or `None` where they could
    /// not be listed. An entry whose attributes could not be listed is not left out for them.
    pub fn keeps(
        &self,
        is_dir: Option<bool>,
        marker_present: bool,
        supported: bool,
        attributes: &Option<Vec<Vec<u8>>>,
    ) -> (r: bool)
        ensures
            r == self.stays(is_dir, marker_present, supported, *attributes),
    {
        if self.looks_for_markers(is_dir) && marker_present {
            return false;
        }
        if self.looks_for_xattrs(supported) {
            if let Some(names) = attributes {
                let mut i: usize = 0;
                while i < names.len()
                    invariant
                        *attributes == Some(*names),
                        i <= names@.len(),
                        supported,
                        forall|k: int, j: int|
                            0 <= k < i && 0 <= j < self.exclude_if_xattr@.len() ==> (
                            #[trigger] names@[k])@ != encode_utf8(
                                (#[trigger] self.exclude_if_xattr@[j])@,
                            ),
                    decreases names.len() - i,
                {
                    let mut j: usize = 0;
                    while j < self.exclude_if_xattr.len()
                        invariant
                            *attributes == Some(*names),
                            i < names@.len(),
                            j <= self.exclude_if_xattr@.len(),
                            supported,
                            forall|l: int|
                                0 <= l < j ==> names@[i as int]@ != encode_utf8(
                                    (#[trigger] self.exclude_if_xattr@[l])@,
                                ),
                        decreases self.exclude_if_xattr.len() - j,
                    {
                        if same_bytes(
                            names[i].as_slice(),
                            self.exclude_if_xattr[j].as_str().as_bytes(),
                        ) {
                            assert(name_found(names@, self.exclude_if_xattr@)) by {
                                assert(names@[i as int]@ == encode_utf8(
                                    self.exclude_if_xattr@[j as int]@,
                                ));
                            }
                            return false;
                        }
                        j = j + 1;
                    }
                    i = i + 1;
                }
            }
        }
        true
    }
}

/// What the walk tells of an entry.
#[derive(Debug)]
pub struct WalkEntry {
    /// The path.
    pub path: SourcePath,
    /// How deep below the backup path it lies; the backup path itself has depth 0.
    pub depth: usize,
    /// Whether it is a directory, where that is known.
    pub is_dir: Option<bool>,
    /// The number by which whoever walks finds the entry again.
    pub number: usize,
}

/// One result of a walk: an entry, or why there is none.
pub type WalkResult = Result<WalkEntry, String>;

/// Entries come in the order of their paths, and failures behind them.
impl Ranked for Result<WalkEntry, String> {
    open spec fn at_most(self, other: Result<WalkEntry, String>) -> bool {
        match (self, other) {
            (Ok(a), Ok(b)) => path_order(a.path@, b.path@) <= 0,
            (Ok(_), Err(_)) => true,
            (Err(_), Ok(_)) => false,
            (Err(_), Err(_)) => true,
        }
    }

    proof fn total(a: Result<WalkEntry, String>, b: Result<WalkEntry, String>) {
        lemma_path_order();
        if let (Ok(x), Ok(y)) = (a, b) {
            let rel = lex_order(part_order());
            assert(rel(x.path@, y.path@) == -rel(y.path@, x.path@));
        }
    }

    proof fn transitive(
        a: Result<WalkEntry, String>,
        b: Result<WalkEntry, String>,
        c: Result<WalkEntry, String>,
    ) {
        lemma_path_order();
        if let (Ok(x), Ok(y), Ok(z)) = (a, b, c) {
            let rel = lex_order(part_order());
            assert(rel(x.path@, y.path@) <= 0 && rel(y.path@, z.path@) <= 0);
        }
    }

    fn is_at_most(&self, other: &Result<WalkEntry, String>) -> (r: bool) {
        match (self, other) {
            (Ok(a), Ok(b)) => a.path.compare(&b.path) <= 0,
            (Ok(_), Err(_)) => true,
            (Err(_), Ok(_)) => false,
            (Err(_), Err(_)) => true,
        }
    }
}

/// Paths come component by component.
impl Ranked for SourcePath {
    open spec fn at_most(self, other: SourcePath) -> bool {
        path_order(self@, other@) <= 0
    }

    proof fn total(a: SourcePath, b: SourcePath) {
        lemma_path_order();
        let rel = lex_order(part_order());
        assert(rel(a@, b@) == -rel(b@, a@));
    }

    proof fn transitive(a: SourcePath, b: SourcePath, c: SourcePath) {
        lemma_path_order();
        let rel = lex_order(part_order());
        assert(rel(a@, b@) <= 0 && rel(b@, c@) <= 0);
    }

    fn is_at_most(&self, other: &SourcePath) -> (r: bool) {
        self.compare(other) <= 0
    }
}

/// One of the trees that the paths head lies in another.
pub open spec fn trees_overlap(roots: Seq<Seq<PartModel>>) -> bool {
    exists|i: int, j: int|
        0 <= i < j < roots.len() && begins_with(#[trigger] roots[j], #[trigger] roots[i])
}

/// A local file tree to be read.
#[derive(Debug)]
pub struct LocalSource {
    settings: WalkSettings,
    filter: Option<EntryFilter>,
    save_opts: LocalSourceSaveOptions,
}

/// The length that counts of an entry: directories count nothing.
pub open spec fn counted(read: Option<(bool, u64)>) -> int {
    match read {
        Some((is_dir, len)) => if is_dir {
            0
        } else {
            len as int
        },
        None => 0,
    }
}

/// The sum of the lengths that count.
pub open spec fn total_counted(reads: Seq<Option<(bool, u64)>>) -> int
    decreases reads.len(),
{
    if reads.len() == 0 {
        0
    } else {
        total_counted(reads.drop_last()) + counted(reads.last())
    }
}

/// Some entry could not be read.
pub open spec fn some_unread(reads: Seq<Option<(bool, u64)>>) -> bool {
    exists|i: int| 0 <= i < reads.len() && #[trigger] reads[i] is None
}

impl LocalSource {
    /// How the tree is walked.
    pub closed spec fn settings(&self) -> WalkSettings {
        self.settings
    }

    /// Which entries are left out because of what is in them or on them, if any are.
    pub closed spec fn filter(&self) -> Option<EntryFilter> {
        self.filter
    }

    /// How entries are saved.
    pub closed spec fn save_opts(&self) -> LocalSourceSaveOptions {
        self.save_opts
    }

    /// The source that starts at each of `backup_paths`, of which there is at least one, in the
    /// order of paths.
    ///
    /// Links are not followed, and neither hidden files nor `.ignore` files are heeded. Entries
    /// are looked at one by one only where a marker file or an extended attribute can leave them
    /// out.
    pub fn new(
        save_opts: LocalSourceSaveOptions,
        filter_opts: &LocalSourceFilterOptions,
        backup_paths: &[SourcePath],
    ) -> (r: LocalSource)
        requires
            backup_paths@.len() > 0,
        ensures
            is_sorted(r.settings().roots@),
            exists|copies: Seq<SourcePath>|
                {
                    &&& paths(copies) == paths(backup_paths@)
                    &&& path_texts(copies) == path_texts(backup_paths@)
                    &&& #[trigger] is_stable_sort(copies, r.settings().roots@)
                },
            r.settings().roots@.len() == backup_paths@.len(),
            texts(r.settings().custom_ignore_filenames@) == texts(filter_opts.custom_ignorefiles@),
            !r.settings().follow_links,
            !r.settings().hidden,
            !r.settings().ignore,
            r.settings().git_ignore == filter_opts.git_ignore,
            r.settings().git_exclude == filter_opts.git_ignore,
            r.settings().require_git == !filter_opts.no_require_git,
            r.settings().sort_by_path,
            r.settings().same_file_system == filter_opts.one_file_system,
            r.settings().max_filesize == filter_opts.exclude_larger_than,
            r.filter() is Some <==> filter_opts.exclude_if_present@.len() > 0
                || filter_opts.exclude_if_xattr@.len() > 0,
            r.filter() matches Some(f) ==> texts(f.exclude_if_present@) == texts(
                filter_opts.exclude_if_present@,
            ) && texts(f.exclude_if_xattr@) == texts(filter_opts.exclude_if_xattr@),
            r.save_opts() == save_opts,
    {
        let mut copies: Vec<SourcePath> = Vec::new();
        let mut i: usize = 0;
        while i < backup_paths.len()
            invariant
                i <= backup_paths@.len(),
                copies@.len() == i,
                forall|k: int|
                    0 <= k < i ==> (#[trigger] copies@[k])@ == backup_paths@[k]@ && copies@[k].text@
                        == backup_paths@[k].text@,
            decreases backup_paths.len() - i,
        {
            copies.push(backup_paths[i].duplicate());
            i = i + 1;
        }
        let ghost given = copies@;
        proof {
            assert(paths(given) =~= paths(backup_paths@));
            assert(path_texts(given) =~= path_texts(backup_paths@));
        }
        let roots: Vec<SourcePath> = stable_sort(copies);
        proof {
            law_sort_permutes(given, roots@);
        }
        let settings = WalkSettings {
            roots,
            custom_ignore_filenames: copy_texts(&filter_opts.custom_ignorefiles),
            follow_links: false,
            hidden: false,
            ignore: false,
            git_ignore: filter_opts.git_ignore,
            git_exclude: filter_opts.git_ignore,
            require_git: !filter_opts.no_require_git,
            sort_by_path: true,
            same_file_system: filter_opts.one_file_system,
            max_filesize: filter_opts.exclude_larger_than,
        };
        let needs_entry_filter: bool = filter_opts.exclude_if_present.len() > 0
            || filter_opts.exclude_if_xattr.len() > 0;
        let filter: Option<EntryFilter> = if needs_entry_filter {
            Some(
                EntryFilter {
                    exclude_if_present: copy_texts(&filter_opts.exclude_if_present),
                    exclude_if_xattr: copy_texts(&filter_opts.exclude_if_xattr),
                },
            )
        } else {
            None
        };
        LocalSource { settings, filter, save_opts }
    }

    /// How the tree is walked.
    pub fn walk_settings(&self) -> (r: &WalkSettings)
        ensures
            *r == self.settings(),
    {
        &self.settings
    }

    /// Which entries are left out because of what is in them or on them, if any are.
    pub fn entry_filter(&self) -> (r: Option<&EntryFilter>)
        ensures
            r matches Some(f) ==> self.filter() == Some(*f),
            r is None <==> self.filter() is None,
    {
        match &self.filter {
            Some(f) => Some(f),
            None => None,
        }
    }

    /// The number of threads that walk the tree, given how many the machine runs at a time.
    pub fn threads(&self, available: Option<usize>) -> (r: usize)
        ensures
            r == clamped_threads(
                match (self.save_opts().walker_threads, available) {
                    (Some(n), _) => n,
                    (None, Some(n)) => n,
                    (None, None) => 1,
                },
            ),
    {
        walker_thread_count(self.save_opts.walker_threads, available)
    }

    /// The size of the source: the sum of the lengths of what is no directory, of which each
    /// entry of `reads` tells whether it is one and its length. The sum is kept in 64 bits. Where
    /// some entry could not be read, the size cannot be determined.
    pub fn size(&self, reads: &Vec<Option<(bool, u64)>>) -> (r: Option<u64>)
        ensures
            r is None <==> some_unread(reads@),
            r matches Some(n) ==> n as int == total_counted(reads@) % 0x1_0000_0000_0000_0000,
    {
        let mut total: u64 = 0;
        let mut i: usize = 0;
        assert(reads@.take(0) =~= Seq::empty());
        while i < reads.len()
            invariant
                i <= reads@.len(),
                forall|k: int| 0 <= k < i ==> #[trigger] reads@[k] is Some,
                total as int == total_counted(reads@.take(i as int)) % 0x1_0000_0000_0000_0000,
            decreases reads.len() - i,
        {
            let ghost before = total_counted(reads@.take(i as int));
            assert(reads@.take(i + 1).drop_last() =~= reads@.take(i as int));
            let len: u64 = match reads[i] {
                Some((is_dir, len)) => if is_dir {
                    0
                } else {
                    len
                },
                None => {
                    return None;
                },
            };
            let ghost previous = total;
            total = total.wrapping_add(len);
            assert((before + len) % 0x1_0000_0000_0000_0000 == (previous + len)
                % 0x1_0000_0000_0000_0000) by {
                vstd::arithmetic::div_mod::lemma_add_mod_noop(
                    before,
                    len as int,
                    0x1_0000_0000_0000_0000,
                );
                vstd::arithmetic::div_mod::lemma_add_mod_noop(
                    previous as int,
                    len as int,
                    0x1_0000_0000_0000_0000,
                );
            }
            i = i + 1;
        }
        assert(reads@.take(i as int) =~= reads@);
        Some(total)
    }

    /// Tells whether the results of the walk have to be collected and sorted before they are given
    /// out. One thread gives them in the order of paths by itself, unless it comes to a tree
    /// twice.
    pub fn needs_sorting(&self, available: Option<usize>) -> (r: bool)
        ensures
            r == (clamped_threads(
                match (self.save_opts().walker_threads, available) {
                    (Some(n), _) => n,
                    (None, Some(n)) => n,
                    (None, None) => 1,
                },
            ) > 1 || trees_overlap(paths(self.settings().roots@))),
    {
        if self.threads(available) > 1 {
            return true;
        }
        let roots: &Vec<SourcePath> = &self.settings.roots;
        let ghost model = paths(roots@);
        let mut j: usize = 0;
        while j < roots.len()
            invariant
                j <= roots@.len(),
                *roots == self.settings.roots,
                model == paths(roots@),
                forall|k: int, l: int|
                    0 <= k < l < j ==> !begins_with(#[trigger] model[l], #[trigger] model[k]),
            decreases roots.len() - j,
        {
            let mut i: usize = 0;
            while i < j
                invariant
                    i <= j < roots@.len(),
                    *roots == self.settings.roots,
                    model == paths(roots@),
                    forall|k: int|
                        0 <= k < i ==> !begins_with(model[j as int], #[trigger] model[k]),
                decreases j - i,
            {
                if roots[j].starts_with(&roots[i]) {
                    assert(begins_with(model[j as int], model[i as int]));
                    return true;
                }
                i = i + 1;
            }
            j = j + 1;
        }
        false
    }

    /// The collected results of a walk, entries in the order of paths and failures behind them.
    pub fn sort_walk(collected: Vec<WalkResult>) -> (r: Vec<WalkResult>)
        ensures
            is_stable_sort(collected@, r@),
    {
        stable_sort(collected)
    }

    /// What walks the entries of the source, given how many threads the machine runs at a time.
    pub fn entries(&self, available: Option<usize>) -> (r: LocalSourceWalker)
        ensures
            r@.threads == clamped_threads(
                match (self.save_opts().walker_threads, available) {
                    (Some(n), _) => n,
                    (None, Some(n)) => n,
                    (None, None) => 1,
                },
            ),
            r@.save_opts == self.save_opts(),
            r@.buffered.len() == 0,
            r@.skipped.len() == 0,
    {
        LocalSourceWalker::new(self.save_opts, self.threads(available))
    }
}

/// The entries of a walk come in the order of their paths, wherever failures stand among them.
pub open spec fn entries_ascend(walk: Seq<WalkResult>) -> bool {
    forall|i: int, j: int|
        0 <= i < j < walk.len() ==> match (#[trigger] walk[i], #[trigger] walk[j]) {
            (Ok(a), Ok(b)) => path_order(a.path@, b.path@) <= 0,
            _ => true,
        }
}

/// The entries of a walk lie in the tree that `root` heads.
pub open spec fn entries_lie_in(walk: Seq<WalkResult>, root: Seq<PartModel>) -> bool {
    forall|i: int|
        0 <= i < walk.len() ==> (#[trigger] walk[i] matches Ok(a) ==> begins_with(a.path@, root))
}

/// Of two trees apart, all of the one whose top comes first comes first.
proof fn lemma_trees_apart(
    a: Seq<PartModel>,
    b: Seq<PartModel>,
    x: Seq<PartModel>,
    y: Seq<PartModel>,
)
    requires
        path_order(a, b) <= 0,
        !begins_with(b, a),
        begins_with(x, a),
        begins_with(y, b),
    ensures
        path_order(x, y) <= 0,
{
    lemma_part_order();
    lemma_path_order();
    let rel = lex_order(part_order());
    if path_order(x, y) > 0 {
        assert(rel(y, x) == -rel(x, y));
        if y != b {
            lemma_prefix_comes_first(part_order(), b, y);
        } else {
            assert(rel(b, y) == 0);
        }
        assert(rel(a, b) <= 0 && rel(b, y) <= 0);
        assert(rel(a, y) <= 0);
        lemma_extensions_are_contiguous(part_order(), a, y, x);
        let (n, m) = (a.len() as int, b.len() as int);
        if n <= m {
            assert(b.take(n) =~= y.take(n)) by {
                assert(b == y.take(m));
            }
        } else {
            assert(a.take(m) =~= y.take(m)) by {
                assert(a == y.take(n));
            }
            lemma_prefix_comes_first(part_order(), b, a);
            assert(rel(a, b) == -rel(b, a));
        }
    }
}

/// A walk that takes one tree after the other in the order of their tops, and goes through each in
/// the order of paths, comes in the order of paths as a whole, where no tree lies in another.
pub proof fn law_ordered_trees_give_an_ordered_walk(
    roots: Seq<SourcePath>,
    walks: Seq<Seq<WalkResult>>,
)
    requires
        is_sorted(roots),
        !trees_overlap(paths(roots)),
        walks.len() == roots.len(),
        forall|t: int|
            0 <= t < walks.len() ==> entries_ascend(#[trigger] walks[t]) && entries_lie_in(
                walks[t],
                roots[t]@,
            ),
    ensures
        entries_ascend(walks.flatten()),
    decreases walks.len(),
{
    if walks.len() > 0 {
        let (tops, rest) = (roots.drop_first(), walks.drop_first());
        assert forall|t: int| 0 <= t < rest.len() implies entries_ascend(#[trigger] rest[t])
            && entries_lie_in(rest[t], tops[t]@) by {
            assert(rest[t] == walks[t + 1]);
        }
        assert(is_sorted(tops)) by {
            assert forall|i: int, j: int| 0 <= i < j < tops.len() implies (
            #[trigger] tops[i]).at_most(#[trigger] tops[j]) by {
                assert(roots[i + 1].at_most(roots[j + 1]));
            }
        }
        assert(!trees_overlap(paths(tops))) by {
            assert forall|i: int, j: int| 0 <= i < j < tops.len() implies !begins_with(
                #[trigger] paths(tops)[j],
                #[trigger] paths(tops)[i],
            ) by {
                assert(!begins_with(paths(roots)[j + 1], paths(roots)[i + 1]));
            }
        }
        law_ordered_trees_give_an_ordered_walk(tops, rest);
        let (first, later) = (walks[0], rest.flatten());
        let all = walks.flatten();
        assert(all == first + later);
        assert forall|i: int, j: int| 0 <= i < j < all.len() implies match (
            #[trigger] all[i],
            #[trigger] all[j],
        ) {
            (Ok(a), Ok(b)) => path_order(a.path@, b.path@) <= 0,
            _ => true,
        } by {
            let n = first.len() as int;
            if j < n {
                assert(all[i] == first[i] && all[j] == first[j]);
            } else if i >= n {
                assert(all[i] == later[i - n] && all[j] == later[j - n]);
            } else {
                assert(all[i] == first[i] && all[j] == later[j - n]);
                let t = lemma_flattened_from(rest, j - n);
                if let (Ok(a), Ok(b)) = (all[i], all[j]) {
                    assert(entries_lie_in(walks[0], roots[0]@));
                    assert(entries_lie_in(rest[t], tops[t]@));
                    assert(roots[0].at_most(roots[t + 1]));
                    assert(!begins_with(paths(roots)[t + 1], paths(roots)[0]));
                    let k = rest[t].index_of(later[j - n]);
                    assert(rest[t][k] == all[j]);
                    lemma_trees_apart(roots[0]@, roots[t + 1]@, a.path@, b.path@);
                }
            }
        }
    }
}

proof fn lemma_flattened_from(walks: Seq<Seq<WalkResult>>, i: int) -> (t: int)
    requires
        0 <= i < walks.flatten().len(),
    ensures
        0 <= t < walks.len(),
        walks[t].contains(walks.flatten()[i]),
    decreases walks.len(),
{
    let (first, rest) = (walks[0], walks.drop_first());
    assert(walks.flatten() == first + rest.flatten());
    if i < first.len() {
        assert(first[i] == walks.flatten()[i]);
        0
    } else {
        let t = lemma_flattened_from(rest, i - first.len());
        assert(rest[t] == walks[t + 1]);
        t + 1
    }
}

/// A sorted walk comes in the order of paths.
pub proof fn law_sorted_walk_ascends(walk: Seq<WalkResult>)
    requires
        is_sorted(walk),
    ensures
        entries_ascend(walk),
{
    assert forall|i: int, j: int| 0 <= i < j < walk.len() implies match (
        #[trigger] walk[i],
        #[trigger] walk[j],
    ) {
        (Ok(a), Ok(b)) => path_order(a.path@, b.path@) <= 0,
        _ => true,
    } by {
        assert(walk[i].at_most(walk[j]));
    }
}

/// What sorting makes of a walk, component by component and byte by byte. Of two entries the one that
/// stands first is the one whose path the other one lies in or, where their paths differ, whose first
/// differing component comes first: the kinds are a prefix, the root, `.`, `..` and names, and two
/// names, or two prefixes, are in the order of the first byte in which they differ, whatever their
/// lengths, with a name before all longer ones that begin with it. `c` components agree, and `k` bytes
/// of the next one.
pub proof fn law_sorted_walk_ascends_byte_by_byte(
    collected: Seq<WalkResult>,
    sorted: Seq<WalkResult>,
    i: int,
    j: int,
    c: int,
    k: int,
)
    requires
        is_stable_sort(collected, sorted),
        0 <= i < j < sorted.len(),
        0 <= c,
        sorted[i] matches Ok(a) && (sorted[j] matches Ok(b) && c <= a.path.parts@.len() && c
            <= b.path.parts@.len() && forall|x: int|
            0 <= x < c ==> (#[trigger] a.path.parts@[x])@ == b.path.parts@[x]@),
    ensures
        ({
            let (p, q) = ((sorted[i]->Ok_0).path.parts@, (sorted[j]->Ok_0).path.parts@);
            &&& c < p.len() ==> c < q.len()
            &&& c < p.len() ==> {
                &&& q[c] is Prefix ==> p[c] is Prefix
                &&& q[c] is RootDir ==> p[c] is Prefix || p[c] is RootDir
                &&& q[c] is CurDir ==> !(p[c] is ParentDir) && !(p[c] is Normal)
                &&& q[c] is ParentDir ==> !(p[c] is Normal)
                &&& (p[c] is Prefix && q[c] is Prefix) || (p[c] is Normal && q[c] is Normal) ==> {
                    let (x, y) = (name_of(p[c])->0, name_of(q[c])->0);
                    0 <= k <= x.len() && k <= y.len() && (forall|n: int|
                        0 <= n < k ==> #[trigger] x[n] == y[n]) ==> {
                        &&& k < x.len() ==> k < y.len()
                        &&& k < x.len() ==> x[k] <= y[k]
                    }
                }
            }
        }),
{
    let (a, b) = (sorted[i]->Ok_0, sorted[j]->Ok_0);
    let (p, q) = (a.path.parts@, b.path.parts@);
    assert(sorted[i].at_most(sorted[j]));
    law_paths_compare_by_the_first_difference(a.path, b.path, c);
    if c < p.len() && c < q.len() {
        law_components_compare_by_kind_and_bytes(p[c], q[c], k);
    }
}

/// Sorting gives out each result that was collected as often as it was collected, entries before
/// failures, and leaves entries of one path, and failures, in the order in which they came.
pub proof fn law_sorted_walk_holds_what_was_collected(
    collected: Seq<WalkResult>,
    sorted: Seq<WalkResult>,
)
    requires
        is_stable_sort(collected, sorted),
    ensures
        sorted.len() == collected.len(),
        sorted.to_multiset() == collected.to_multiset(),
        forall|i: int, j: int|
            0 <= i < j < sorted.len() && (#[trigger] sorted[i]) is Err ==> (
            #[trigger] sorted[j]) is Err,
        sorted.filter(|r: WalkResult| r is Err) == collected.filter(|r: WalkResult| r is Err),
{
    law_sort_permutes(collected, sorted);
    assert forall|i: int, j: int| 0 <= i < j < sorted.len() && (#[trigger] sorted[i]) is Err implies (
    #[trigger] sorted[j]) is Err by {
        law_failures_come_last(sorted, i, j);
    }
    if sorted.len() > 0 && exists|i: int| 0 <= i < sorted.len() && (#[trigger] sorted[i]) is Err {
        let i = choose|i: int| 0 <= i < sorted.len() && (#[trigger] sorted[i]) is Err;
        let x = sorted[i];
        assert((|y: WalkResult| same_rank(x, y)) =~= (|r: WalkResult| r is Err));
        assert(ties(sorted, x) == ties(collected, x));
    } else {
        broadcast use vstd::seq_lib::group_to_multiset_ensures;

        lemma_no_failures(sorted);
        assert forall|i: int| 0 <= i < collected.len() implies (#[trigger] collected[i]) is Ok by {
            assert(collected.contains(collected[i]));
            assert(collected.to_multiset().contains(collected[i]));
            assert(sorted.contains(collected[i]));
            assert(sorted[sorted.index_of(collected[i])] == collected[i]);
        }
        lemma_no_failures(collected);
    }
}

/// Two entries of one path, and two failures, tie, so sorting leaves them in the order in which they
/// were collected; a failure never stands before an entry.
pub proof fn law_results_tie_by_path_alone(a: WalkEntry, b: WalkEntry, s: String, t: String)
    ensures
        a.path@ == b.path@ <==> same_rank::<WalkResult>(Ok(a), Ok(b)),
        same_rank::<WalkResult>(Err(s), Err(t)),
        Ok::<WalkEntry, String>(a).at_most(Err(s)),
        !Err::<WalkEntry, String>(s).at_most(Ok(a)),
{
    lemma_path_order();
    let rel = lex_order(part_order());
    assert(rel(a.path@, b.path@) == -rel(b.path@, a.path@));
    assert(rel(a.path@, b.path@) == 0 <==> a.path@ == b.path@);
}

proof fn lemma_no_failures(walk: Seq<WalkResult>)
    requires
        forall|i: int| 0 <= i < walk.len() ==> (#[trigger] walk[i]) is Ok,
    ensures
        walk.filter(|r: WalkResult| r is Err) == Seq::<WalkResult>::empty(),
    decreases walk.len(),
{
    reveal(Seq::filter);
    if walk.len() > 0 {
        let front = walk.drop_last();
        assert forall|i: int| 0 <= i < front.len() implies (#[trigger] front[i]) is Ok by {
            assert(front[i] == walk[i]);
        }
        lemma_no_failures(front);
    }
}

/// The number of threads is the one from 1 to 32 that is nearest to the number asked for.
pub proof fn law_thread_count_is_the_nearest_possible(n: usize, m: usize)
    requires
        1 <= m <= 32,
    ensures
        1 <= clamped_threads(n) <= 32,
        m <= n ==> m <= clamped_threads(n),
        n <= m ==> clamped_threads(n) <= m,
        1 <= n <= 32 ==> clamped_threads(n) == n,
{
}

/// The sizes of two lists of entries add up. A file counts its length and a directory nothing.
pub proof fn law_sizes_add_up(
    a: Seq<Option<(bool, u64)>>,
    b: Seq<Option<(bool, u64)>>,
    len: u64,
)
    ensures
        total_counted(a + b) == total_counted(a) + total_counted(b),
        total_counted(seq![Some((false, len))]) == len,
        total_counted(seq![Some((true, len))]) == 0,
        some_unread(a + b) <==> some_unread(a) || some_unread(b),
        some_unread(seq![None]),
        !some_unread(seq![Some((false, len))]),
        !some_unread(seq![Some((true, len))]),
    decreases b.len(),
{
    let one = seq![Some((false, len))];
    assert(one.drop_last() =~= Seq::empty());
    let two = seq![Some((true, len))];
    assert(two.drop_last() =~= Seq::empty());
    reveal_with_fuel(total_counted, 2);
    let unread: Seq<Option<(bool, u64)>> = seq![None];
    assert(unread[0] is None);
    if b.len() > 0 {
        law_sizes_add_up(a, b.drop_last(), len);
        assert((a + b).drop_last() =~= a + b.drop_last());
    } else {
        assert(a + b =~= a);
    }
    let both = a + b;
    if some_unread(a) {
        let i = choose|i: int| 0 <= i < a.len() && #[trigger] a[i] is None;
        assert(both[i] is None);
    }
    if some_unread(b) {
        let i = choose|i: int| 0 <= i < b.len() && #[trigger] b[i] is None;
        assert(both[a.len() + i] is None);
    }
    if some_unread(both) {
        let i = choose|i: int| 0 <= i < both.len() && #[trigger] both[i] is None;
        if i < a.len() {
            assert(a[i] is None);
        } else {
            assert(b[i - a.len()] is None);
        }
    }
}

/// In a sorted walk everything between a directory and something in it is in the directory too:
/// the walk goes depth first and comes back to no directory that it has left.
pub proof fn law_sorted_walk_stays_in_a_directory(
    walk: Seq<WalkResult>,
    i: int,
    j: int,
    k: int,
)
    requires
        is_sorted(walk),
        0 <= i < j < k < walk.len(),
        walk[i] matches Ok(top) && (walk[k] matches Ok(inside) && begins_with(
            inside.path@,
            top.path@,
        )),
    ensures
        walk[j] matches Ok(between) && begins_with(between.path@, (walk[i]->Ok_0).path@),
{
    lemma_part_order();
    assert(walk[i].at_most(walk[j]));
    assert(walk[j].at_most(walk[k]));
    lemma_extensions_are_contiguous(
        part_order(),
        (walk[i]->Ok_0).path@,
        (walk[j]->Ok_0).path@,
        (walk[k]->Ok_0).path@,
    );
}

/// In a sorted walk a directory comes before what is in it.
pub proof fn law_sorted_walk_enters_by_the_directory(walk: Seq<WalkResult>, i: int, k: int)
    requires
        is_sorted(walk),
        0 <= i < walk.len(),
        0 <= k < walk.len(),
        walk[i] matches Ok(top) && (walk[k] matches Ok(inside) && strictly_under(
            inside.path@,
            top.path@,
        )),
    ensures
        i < k,
{
    lemma_part_order();
    lemma_path_order();
    let (top, inside) = ((walk[i]->Ok_0).path@, (walk[k]->Ok_0).path@);
    lemma_prefix_comes_first(part_order(), top, inside);
    let rel = lex_order(part_order());
    assert(rel(top, inside) == -rel(inside, top));
    if k < i {
        assert(walk[k].at_most(walk[i]));
    }
}

/// In a sorted walk the failures stand behind all entries.
pub proof fn law_failures_come_last(walk: Seq<WalkResult>, i: int, j: int)
    requires
        is_sorted(walk),
        0 <= i < j < walk.len(),
        walk[i] is Err,
    ensures
        walk[j] is Err,
{
    assert(walk[i].at_most(walk[j]));
}

proof fn lemma_total_without(reads: Seq<Option<(bool, u64)>>, i: int)
    requires
        0 <= i < reads.len(),
    ensures
        total_counted(reads) == total_counted(reads.remove(i)) + counted(reads[i]),
    decreases reads.len(),
{
    let last = reads.len() - 1;
    if i == last {
        assert(reads.remove(i) =~= reads.drop_last());
    } else {
        lemma_total_without(reads.drop_last(), i);
        assert(reads.remove(i).drop_last() =~= reads.drop_last().remove(i));
        assert(reads.remove(i).last() == reads.last());
    }
}

/// The size does not depend on the order in which the entries are read, so it does not depend on
/// the number of threads that read them.
pub proof fn law_size_does_not_depend_on_order(
    a: Seq<Option<(bool, u64)>>,
    b: Seq<Option<(bool, u64)>>,
)
    requires
        a.to_multiset() == b.to_multiset(),
    ensures
        some_unread(a) == some_unread(b),
        total_counted(a) == total_counted(b),
    decreases a.len(),
{
    broadcast use vstd::seq_lib::group_to_multiset_ensures;

    assert(a.to_multiset().len() == a.len());
    assert(b.to_multiset().len() == b.len());
    assert(some_unread(a) == some_unread(b)) by {
        let unread: Option<(bool, u64)> = None;
        assert(some_unread(a) <==> a.contains(unread));
        assert(some_unread(b) <==> b.contains(unread));
        assert(a.contains(unread) <==> a.to_multiset().contains(unread));
        assert(b.contains(unread) <==> b.to_multiset().contains(unread));
    }
    if a.len() > 0 {
        let x = a.last();
        assert(a.to_multiset().contains(x)) by {
            assert(a[a.len() - 1] == x);
            assert(a.contains(x));
        }
        assert(b.contains(x));
        let i = b.index_of(x);
        let (short, rest) = (a.drop_last(), b.remove(i));
        assert(short =~= a.remove(a.len() - 1));
        assert(short.to_multiset() =~= a.to_multiset().remove(x));
        assert(rest.to_multiset() =~= b.to_multiset().remove(x));
        law_size_does_not_depend_on_order(short, rest);
        lemma_total_without(b, i);
    }
}

/// The models of lists of texts and paths have each one in its place.
pub proof fn law_list_models_are_the_lists(list: Seq<String>, roots: Seq<SourcePath>)
    ensures
        texts(list).len() == list.len(),
        forall|i: int| 0 <= i < list.len() ==> texts(list)[i] == (#[trigger] list[i])@,
        paths(roots).len() == roots.len() && path_texts(roots).len() == roots.len(),
        forall|i: int|
            0 <= i < roots.len() ==> paths(roots)[i] == (#[trigger] roots[i])@ && path_texts(
                roots,
            )[i] == roots[i].text@,
{
}

} // verus!
