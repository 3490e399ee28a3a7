//! Turns the results of a walk into the entries to be stored, one after the other.
//!
//! A directory entry that is a reparse point, such as a junction, is stored itself, and what the
//! walk finds below it is passed over. A file is followed by its alternate data streams.
//!
//! With one thread each result of the walk is taken up when its turn comes. With several threads a
//! chunk of results is taken up at a time, each result by itself, and what came out is put in
//! order behind them.

use std::collections::VecDeque;

use vstd::prelude::*;

use crate::error::{EntryError, EntryErrorModel, ErrorModel};
use crate::mapper::{
    ads_sibling_node, mapping, sibling_model, EntryInfo, EntryModel,
    LocalSourceSaveOptions, ReadSourceEntry,
};
use crate::open_file::{OpenFile, OpenModel};
use crate::order::begins_with;
use crate::path::{strictly_under, PartModel, SourcePath};
use crate::source::{paths, WalkEntry, WalkResult};
use crate::win_ads::AdsName;
use crate::win_reparse::REPARSE_KEY;

verus! {

/// How many results of the walk are taken up at a time by several threads.
pub const NODE_BUILD_CHUNK: usize = 4096;

/// An entry to be stored, or why there is none.
pub type WalkOutput = Result<ReadSourceEntry, EntryError>;

/// What an output holds.
pub type OutputModel = Result<EntryModel, EntryErrorModel>;

/// What an output holds.
pub open spec fn output_model(o: WalkOutput) -> OutputModel {
    match o {
        Ok(entry) => Ok(entry@),
        Err(e) => Err(e@),
    }
}

/// What a list of outputs holds.
pub open spec fn outputs_model(list: Seq<WalkOutput>) -> Seq<OutputModel> {
    list.map_values(|o: WalkOutput| output_model(o))
}

/// What a result of the walk says.
pub enum WalkModel {
    /// An entry: its path, its depth, and whether it is a directory where that is known.
    Entry(Seq<PartModel>, nat, Option<bool>),
    /// A failure and its cause.
    Failed(Seq<char>),
}

/// What a result of the walk says.
pub open spec fn walk_model(result: WalkResult) -> WalkModel {
    match result {
        Ok(entry) => WalkModel::Entry(entry.path@, entry.depth as nat, entry.is_dir),
        Err(cause) => WalkModel::Failed(cause@),
    }
}

/// The result is the backup path itself, and a directory. It is not stored.
pub open spec fn is_root(walked: WalkModel) -> bool {
    walked matches WalkModel::Entry(_, depth, is_dir) && depth == 0 && is_dir == Some(true)
}

/// Names and sizes of streams, where they could be listed.
pub type StreamsModel = Option<Seq<(Seq<char>, u64)>>;

/// Names and sizes of streams.
pub open spec fn stream_list(streams: Option<Vec<(AdsName, u64)>>) -> StreamsModel {
    match streams {
        Some(list) => Some(list@.map_values(|e: (AdsName, u64)| (e.0@, e.1))),
        None => None,
    }
}

/// The entry is a directory and a reparse point.
pub open spec fn is_reparse_dir(host: EntryModel) -> bool {
    host.node.node_type is Dir && host.node.meta.generic_attributes.contains_key(REPARSE_KEY@)
}

/// The entry is a file with content, so its streams are asked for.
pub open spec fn has_streams(host: EntryModel) -> bool {
    host.node.node_type is File && host.open is Some
}

/// The entry of one stream of the file that `host` is and `open` opens.
pub open spec fn stream_entry(
    host: EntryModel,
    open: OpenModel,
    name: Seq<char>,
    size: u64,
) -> EntryModel {
    EntryModel {
        path: open.parts,
        text: open.text,
        node: sibling_model(host.node, name, size),
        open: Some(OpenModel { parts: open.parts, text: open.text, stream: Some(name) }),
    }
}

/// The entries of the streams of `host`, in the order of the list. Where the streams could not be
/// listed there are none.
pub open spec fn siblings(host: EntryModel, streams: StreamsModel) -> Seq<OutputModel> {
    match (host.open, streams) {
        (Some(open), Some(list)) => if has_streams(host) {
            list.map_values(
                |e: (Seq<char>, u64)| Ok::<EntryModel, EntryErrorModel>(
                    stream_entry(host, open, e.0, e.1),
                ),
            )
        } else {
            Seq::empty()
        },
        _ => Seq::empty(),
    }
}

/// What one result of the walk comes to.
#[derive(Debug)]
pub struct MappedGroup {
    /// The path of the result, unless it is a failure or not stored.
    pub sort_key: Option<SourcePath>,
    /// What the walk finds below it is passed over.
    pub is_reparse_dir: bool,
    /// The entry and behind it its streams, or a failure, or nothing.
    pub entries: Vec<WalkOutput>,
}

/// What a [`MappedGroup`] holds.
#[verifier::ext_equal]
pub struct GroupModel {
    pub key: Option<Seq<PartModel>>,
    pub is_reparse_dir: bool,
    pub entries: Seq<OutputModel>,
}

impl View for MappedGroup {
    type V = GroupModel;

    open spec fn view(&self) -> GroupModel {
        GroupModel {
            key: match self.sort_key {
                Some(path) => Some(path@),
                None => None,
            },
            is_reparse_dir: self.is_reparse_dir,
            entries: outputs_model(self.entries@),
        }
    }
}

/// A failure of the walk.
pub open spec fn failed_group(cause: Seq<char>) -> GroupModel {
    GroupModel {
        key: None,
        is_reparse_dir: false,
        entries: seq![Err(EntryErrorModel::Walk(cause))],
    }
}

/// A result that is not stored.
pub open spec fn empty_group() -> GroupModel {
    GroupModel { key: None, is_reparse_dir: false, entries: Seq::empty() }
}

/// An entry at `path` that could not be mapped.
pub open spec fn unmapped_group(path: Seq<PartModel>, e: ErrorModel) -> GroupModel {
    GroupModel {
        key: Some(path),
        is_reparse_dir: false,
        entries: seq![Err(EntryErrorModel::Mapping(e))],
    }
}

/// An entry at `path`, and behind it its streams.
pub open spec fn host_group(
    path: Seq<PartModel>,
    host: EntryModel,
    streams: StreamsModel,
) -> GroupModel {
    GroupModel {
        key: Some(path),
        is_reparse_dir: is_reparse_dir(host),
        entries: seq![Ok::<EntryModel, EntryErrorModel>(host)] + siblings(host, streams),
    }
}

/// A result of the walk, and what comes of looking at it: what it maps to, and what streams it has.
pub struct ItemModel {
    pub walked: WalkModel,
    pub mapped: Result<EntryModel, ErrorModel>,
    pub streams: StreamsModel,
}

/// What one result of the walk comes to.
pub open spec fn group_of(item: ItemModel) -> GroupModel {
    match item.walked {
        WalkModel::Failed(cause) => failed_group(cause),
        WalkModel::Entry(path, _, _) => if is_root(item.walked) {
            empty_group()
        } else {
            match item.mapped {
                Err(e) => unmapped_group(path, e),
                Ok(host) => host_group(path, host, item.streams),
            }
        },
    }
}

/// What to do next with one result of the walk.
#[derive(Debug)]
pub enum GroupStep {
    /// Look at the entry.
    Look(WalkEntry),
    /// List the streams of the entry.
    ListStreams(HostGroup),
    /// Done.
    Done(MappedGroup),
}

/// An entry whose streams are not known yet.
#[derive(Debug)]
pub struct HostGroup {
    /// The path at which the walk found it.
    pub path: SourcePath,
    /// The entry.
    pub host: ReadSourceEntry,
}

fn asks_for_streams(host: &ReadSourceEntry) -> (r: bool)
    ensures
        r == has_streams(host@),
{
    host.node.is_file() && host.open.is_some()
}

fn is_reparse_directory(host: &ReadSourceEntry) -> (r: bool)
    ensures
        r == is_reparse_dir(host@),
{
    host.node.is_dir() && host.node.meta.generic_attributes.contains_key(REPARSE_KEY)
}

/// The entries of the streams of `host`.
fn stream_entries(host: &ReadSourceEntry, streams: &Option<Vec<(AdsName, u64)>>) -> (r: Vec<
    WalkOutput,
>)
    ensures
        outputs_model(r@) == siblings(host@, stream_list(*streams)),
{
    let mut r: Vec<WalkOutput> = Vec::new();
    if let (Some(open), Some(list)) = (&host.open, streams) {
        if asks_for_streams(host) {
            let mut i: usize = 0;
            while i < list.len()
                invariant
                    host.open == Some(*open),
                    i <= list@.len(),
                    r@.len() == i,
                    forall|k: int|
                        0 <= k < i ==> output_model(#[trigger] r@[k]) == Ok::<
                            EntryModel,
                            EntryErrorModel,
                        >(stream_entry(host@, open@, list@[k].0@, list@[k].1)),
                decreases list.len() - i,
            {
                let (name, size): (&AdsName, u64) = (&list[i].0, list[i].1);
                let host_path: SourcePath = open.path().duplicate();
                let ads_open: OpenFile = OpenFile::for_stream(
                    host_path.duplicate(),
                    name.as_str().to_owned(),
                );
                let entry = ReadSourceEntry {
                    path: host_path,
                    node: ads_sibling_node(&host.node, name, size),
                    open: Some(ads_open),
                };
                assert(entry@ =~= stream_entry(host@, open@, name@, size));
                r.push(Ok(entry));
                i = i + 1;
            }
        }
    }
    assert(outputs_model(r@) =~= siblings(host@, stream_list(*streams)));
    r
}

/// Takes up one result of the walk. A failure stands for itself, and a backup path that is a
/// directory comes to nothing.
pub fn map_group(result: WalkResult) -> (r: GroupStep)
    ensures
        match result {
            Err(cause) => r matches GroupStep::Done(group) && group@ == failed_group(cause@),
            Ok(entry) => if is_root(walk_model(result)) {
                r matches GroupStep::Done(group) && group@ == empty_group()
            } else {
                r == GroupStep::Look(entry)
            },
        },
{
    match result {
        Err(cause) => {
            let mut entries: Vec<WalkOutput> = Vec::new();
            let ghost said = cause@;
            entries.push(Err(EntryError::Walk(cause)));
            assert(outputs_model(entries@) =~= failed_group(said).entries);
            GroupStep::Done(MappedGroup { sort_key: None, is_reparse_dir: false, entries })
        },
        Ok(entry) => {
            let dir: bool = match entry.is_dir {
                Some(dir) => dir,
                None => false,
            };
            if entry.depth == 0 && dir {
                let entries: Vec<WalkOutput> = Vec::new();
                assert(outputs_model(entries@) =~= empty_group().entries);
                GroupStep::Done(MappedGroup { sort_key: None, is_reparse_dir: false, entries })
            } else {
                GroupStep::Look(entry)
            }
        },
    }
}

/// Goes on with what was found at the entry that the walk gave at `path`.
pub fn map_group_entry(
    save_opts: LocalSourceSaveOptions,
    path: SourcePath,
    info: EntryInfo,
) -> (r: GroupStep)
    requires
        info.windows matches Some(w) ==> w.encodable(),
    ensures
        match mapping(save_opts, info) {
            Err(e) => r matches GroupStep::Done(group) && group@ == unmapped_group(path@, e),
            Ok(host) => if has_streams(host) {
                r matches GroupStep::ListStreams(group) && group.path == path && group.host@ == host
            } else {
                r matches GroupStep::Done(group) && group@ == host_group(path@, host, None)
            },
        },
{
    match save_opts.map_entry(info) {
        Err(e) => {
            let mut entries: Vec<WalkOutput> = Vec::new();
            let ghost said = e@;
            entries.push(Err(EntryError::Mapping(e)));
            assert(outputs_model(entries@) =~= unmapped_group(path@, said).entries);
            GroupStep::Done(MappedGroup { sort_key: Some(path), is_reparse_dir: false, entries })
        },
        Ok(host) => {
            let group = HostGroup { path, host };
            if asks_for_streams(&group.host) {
                GroupStep::ListStreams(group)
            } else {
                GroupStep::Done(map_group_streams(group, None))
            }
        },
    }
}

/// Ends with the streams of the entry, or `None` where they could not be listed.
pub fn map_group_streams(group: HostGroup, streams: Option<Vec<(AdsName, u64)>>) -> (r: MappedGroup)
    ensures
        r@ == host_group(group.path@, group.host@, stream_list(streams)),
{
    let is_reparse_dir: bool = is_reparse_directory(&group.host);
    let mut siblings: Vec<WalkOutput> = stream_entries(&group.host, &streams);
    let mut entries: Vec<WalkOutput> = Vec::new();
    let ghost behind = siblings@;
    entries.push(Ok(group.host));
    entries.append(&mut siblings);
    assert(outputs_model(entries@) =~= seq![
        Ok::<EntryModel, EntryErrorModel>(group.host@),
    ] + outputs_model(behind));
    MappedGroup { sort_key: Some(group.path), is_reparse_dir, entries }
}

/// Of the directories whose content is passed over, those that `path` lies in or is.
pub open spec fn still_open(skipped: Seq<Seq<PartModel>>, path: Seq<PartModel>) -> Seq<
    Seq<PartModel>,
> {
    skipped.filter(|top: Seq<PartModel>| begins_with(path, top))
}

/// `path` lies below one of the directories whose content is passed over.
pub open spec fn passed_over(skipped: Seq<Seq<PartModel>>, path: Seq<PartModel>) -> bool {
    exists|i: int| 0 <= i < skipped.len() && strictly_under(path, #[trigger] skipped[i])
}

/// The directories whose content is passed over, after the entry at `path`.
pub open spec fn skipped_after(
    skipped: Seq<Seq<PartModel>>,
    path: Seq<PartModel>,
    is_reparse_dir: bool,
) -> Seq<Seq<PartModel>> {
    let open = still_open(skipped, path);
    if passed_over(open, path) || !is_reparse_dir {
        open
    } else {
        open.push(path)
    }
}

/// What a group gives out when the content of the directories `skipped` is passed over.
pub open spec fn group_output(skipped: Seq<Seq<PartModel>>, group: GroupModel) -> Seq<
    OutputModel,
> {
    match group.key {
        Some(path) => if passed_over(still_open(skipped, path), path) {
            Seq::empty()
        } else {
            group.entries
        },
        None => group.entries,
    }
}

/// The directories whose content is passed over, after a group.
pub open spec fn group_skipped(skipped: Seq<Seq<PartModel>>, group: GroupModel) -> Seq<
    Seq<PartModel>,
> {
    match group.key {
        Some(path) => skipped_after(skipped, path, group.is_reparse_dir),
        None => skipped,
    }
}

/// The directories whose content is passed over, after a list of groups.
pub open spec fn all_skipped(skipped: Seq<Seq<PartModel>>, groups: Seq<GroupModel>) -> Seq<
    Seq<PartModel>,
>
    decreases groups.len(),
{
    if groups.len() == 0 {
        skipped
    } else {
        group_skipped(all_skipped(skipped, groups.drop_last()), groups.last())
    }
}

/// What a list of groups gives out.
pub open spec fn all_output(skipped: Seq<Seq<PartModel>>, groups: Seq<GroupModel>) -> Seq<
    OutputModel,
>
    decreases groups.len(),
{
    if groups.len() == 0 {
        Seq::empty()
    } else {
        all_output(skipped, groups.drop_last()) + group_output(
            all_skipped(skipped, groups.drop_last()),
            groups.last(),
        )
    }
}

/// What groups hold.
pub open spec fn groups_model(groups: Seq<MappedGroup>) -> Seq<GroupModel> {
    groups.map_values(|g: MappedGroup| g@)
}

/// What to do next to get the next output.
#[derive(Debug)]
pub enum WalkerAction {
    /// Hand out the output.
    Yield(WalkOutput),
    /// Take one result from the walk and report it with [`LocalSourceWalker::pulled`].
    Pull,
    /// Take at most this many results from the walk, turn each into a group, and report the
    /// groups in the order of the results with [`LocalSourceWalker::chunk`].
    PullChunk(usize),
    /// Look at the entry and report what was found with [`LocalSourceWalker::found`].
    Look(WalkEntry),
    /// List the streams of the entry and report them with [`LocalSourceWalker::listed`].
    ListStreams(ReadSourceEntry),
    /// There is no further output.
    Done,
}

/// What to do next.
pub enum ActionModel {
    Yield(OutputModel),
    Pull,
    PullChunk(usize),
    Look(WalkModel),
    ListStreams(EntryModel),
    Done,
}

impl View for WalkerAction {
    type V = ActionModel;

    open spec fn view(&self) -> ActionModel {
        match *self {
            WalkerAction::Yield(o) => ActionModel::Yield(output_model(o)),
            WalkerAction::Pull => ActionModel::Pull,
            WalkerAction::PullChunk(n) => ActionModel::PullChunk(n),
            WalkerAction::Look(entry) => ActionModel::Look(walk_model(Ok(entry))),
            WalkerAction::ListStreams(host) => ActionModel::ListStreams(host@),
            WalkerAction::Done => ActionModel::Done,
        }
    }
}

/// Walks the entries of a source.
#[derive(Debug)]
pub struct LocalSourceWalker {
    save_opts: LocalSourceSaveOptions,
    map_threads: usize,
    buffer: VecDeque<WalkOutput>,
    reparse_skip: Vec<SourcePath>,
}

/// Where a walker stands.
#[verifier::ext_equal]
pub struct WalkerModel {
    /// How entries are saved.
    pub save_opts: LocalSourceSaveOptions,
    /// The number of threads.
    pub threads: usize,
    /// Outputs that wait to be handed out.
    pub buffered: Seq<OutputModel>,
    /// Directories whose content is passed over.
    pub skipped: Seq<Seq<PartModel>>,
}

impl View for LocalSourceWalker {
    type V = WalkerModel;

    closed spec fn view(&self) -> WalkerModel {
        WalkerModel {
            save_opts: self.save_opts,
            threads: self.map_threads,
            buffered: outputs_model(self.buffer@),
            skipped: paths(self.reparse_skip@),
        }
    }
}

/// What a walker does first for the next output: it hands out what waits, or turns to the walk.
pub open spec fn on_next(w: WalkerModel) -> (WalkerModel, ActionModel) {
    if w.buffered.len() > 0 {
        (
            WalkerModel { buffered: w.buffered.drop_first(), ..w },
            ActionModel::Yield(w.buffered[0]),
        )
    } else if w.threads > 1 {
        (w, ActionModel::PullChunk(NODE_BUILD_CHUNK))
    } else {
        (w, ActionModel::Pull)
    }
}

/// What a walker does with a chunk of groups: it puts their outputs in the line. The end of the
/// walk is the end of the outputs.
pub open spec fn on_chunk(w: WalkerModel, groups: Seq<GroupModel>) -> (WalkerModel, ActionModel) {
    if groups.len() == 0 {
        (w, ActionModel::Done)
    } else {
        on_next(
            WalkerModel {
                buffered: w.buffered + all_output(w.skipped, groups),
                skipped: all_skipped(w.skipped, groups),
                ..w
            },
        )
    }
}

/// What a walker does with one result of the walk. A backup path that is a directory is not
/// stored.
pub open spec fn on_pulled(w: WalkerModel, walked: Option<WalkModel>) -> (
    WalkerModel,
    ActionModel,
) {
    match walked {
        None => (w, ActionModel::Done),
        Some(WalkModel::Failed(cause)) => (w, ActionModel::Yield(Err(EntryErrorModel::Walk(cause)))),
        Some(WalkModel::Entry(path, depth, is_dir)) => if is_root(
            WalkModel::Entry(path, depth, is_dir),
        ) {
            (w, ActionModel::Pull)
        } else {
            let open = still_open(w.skipped, path);
            let there = WalkerModel { skipped: open, ..w };
            if passed_over(open, path) {
                (there, ActionModel::Pull)
            } else {
                (there, ActionModel::Look(WalkModel::Entry(path, depth, is_dir)))
            }
        },
    }
}

/// What a walker does with what an entry maps to.
pub open spec fn on_found(w: WalkerModel, mapped: Result<EntryModel, ErrorModel>) -> (
    WalkerModel,
    ActionModel,
) {
    match mapped {
        Err(e) => (w, ActionModel::Yield(Err(EntryErrorModel::Mapping(e)))),
        Ok(host) => {
            let there = WalkerModel {
                skipped: if is_reparse_dir(host) {
                    w.skipped.push(host.path)
                } else {
                    w.skipped
                },
                ..w
            };
            if has_streams(host) {
                (there, ActionModel::ListStreams(host))
            } else {
                (there, ActionModel::Yield(Ok(host)))
            }
        },
    }
}

/// What a walker does with the streams of an entry: it hands out the entry, and the streams stand
/// in line behind it.
pub open spec fn on_listed(w: WalkerModel, host: EntryModel, streams: StreamsModel) -> (
    WalkerModel,
    ActionModel,
) {
    (
        WalkerModel { buffered: w.buffered + siblings(host, streams), ..w },
        ActionModel::Yield(Ok(host)),
    )
}

fn put_in_line(line: &mut VecDeque<WalkOutput>, list: Vec<WalkOutput>)
    ensures
        final(line)@ == old(line)@ + list@,
{
    let ghost before = line@;
    assert(before + list@.take(0) =~= before);
    for output in it: list.into_iter()
        invariant
            it.seq() == list@,
            line@ == before + list@.take(it.index() as int),
    {
        line.push_back(output);
        assert(line@ =~= before + list@.take(it.index() + 1));
    }
    assert(list@.take(list@.len() as int) =~= list@);
}

/// Keeps of `skipped` those directories that `path` lies in or is.
fn retain_open(skipped: &mut Vec<SourcePath>, path: &SourcePath)
    ensures
        paths(final(skipped)@) == still_open(paths(old(skipped)@), path@),
{
    let ghost all = paths(skipped@);
    let ghost keep = |top: Seq<PartModel>| begins_with(path@, top);
    let mut i: usize = 0;
    let mut seen: usize = 0;
    let n: usize = skipped.len();
    proof {
        assert(all.take(0).filter(keep) =~= Seq::empty()) by {
            reveal(Seq::filter);
        }
        assert(paths(skipped@) =~= all.take(0).filter(keep) + all.skip(0));
    }
    while seen < n
        invariant
            n == all.len(),
            i <= seen <= n,
            keep == (|top: Seq<PartModel>| begins_with(path@, top)),
            i == all.take(seen as int).filter(keep).len(),
            paths(skipped@) == all.take(seen as int).filter(keep) + all.skip(seen as int),
            skipped@.len() == i + (n - seen),
        decreases n - seen,
    {
        let ghost front = all.take(seen as int).filter(keep);
        let ghost rest = all.skip(seen as int);
        proof {
            assert(paths(skipped@)[i as int] == rest[0]);
            assert(skipped@[i as int]@ == all[seen as int]);
            assert(all.take(seen + 1).drop_last() =~= all.take(seen as int));
            reveal(Seq::filter);
        }
        let ghost before = skipped@;
        if path.starts_with(&skipped[i]) {
            assert(all.take(seen + 1).filter(keep) =~= front.push(all[seen as int]));
            assert(paths(skipped@) =~= all.take(seen + 1).filter(keep) + all.skip(seen + 1));
            i = i + 1;
        } else {
            skipped.remove(i);
            assert(all.take(seen + 1).filter(keep) =~= front);
            assert(paths(skipped@) =~= paths(before).remove(i as int));
            assert(paths(skipped@) =~= front + all.skip(seen + 1));
        }
        seen = seen + 1;
    }
    proof {
        assert(all.take(seen as int) =~= all);
        assert(paths(skipped@) =~= all.filter(keep));
    }
}

/// Tells whether `path` lies below one of the directories.
fn lies_below(skipped: &Vec<SourcePath>, path: &SourcePath) -> (r: bool)
    ensures
        r == passed_over(paths(skipped@), path@),
{
    let mut i: usize = 0;
    while i < skipped.len()
        invariant
            i <= skipped@.len(),
            forall|k: int|
                0 <= k < i ==> !strictly_under(path@, #[trigger] paths(skipped@)[k]),
        decreases skipped.len() - i,
    {
        if path.is_strictly_under(&skipped[i]) {
            assert(strictly_under(path@, paths(skipped@)[i as int]));
            return true;
        }
        i = i + 1;
    }
    false
}

impl LocalSourceWalker {
    /// A walker at the start of a walk by this many threads.
    pub fn new(save_opts: LocalSourceSaveOptions, map_threads: usize) -> (r: LocalSourceWalker)
        ensures
            r@ == (WalkerModel {
                save_opts,
                threads: map_threads,
                buffered: Seq::empty(),
                skipped: Seq::empty(),
            }),
    {
        let r = LocalSourceWalker {
            save_opts,
            map_threads,
            buffer: VecDeque::new(),
            reparse_skip: Vec::new(),
        };
        assert(r@.buffered =~= Seq::empty());
        assert(r@.skipped =~= Seq::empty());
        r
    }

    /// Starts on the next output.
    pub fn next(&mut self) -> (r: WalkerAction)
        ensures
            (final(self)@, r@) == on_next(old(self)@),
    {
        let ghost before = self.buffer@;
        match self.buffer.pop_front() {
            Some(output) => {
                proof {
                    assert(outputs_model(self.buffer@) =~= outputs_model(before).drop_first());
                    assert(self@ =~= on_next(old(self)@).0);
                }
                WalkerAction::Yield(output)
            },
            None => {
                assert(self@ =~= old(self)@);
                if self.map_threads > 1 {
                    WalkerAction::PullChunk(NODE_BUILD_CHUNK)
                } else {
                    WalkerAction::Pull
                }
            },
        }
    }

    /// Takes the groups of a chunk of results, in the order of the walk. None at all means that
    /// the walk is over.
    pub fn chunk(&mut self, groups: Vec<MappedGroup>) -> (r: WalkerAction)
        ensures
            (final(self)@, r@) == on_chunk(old(self)@, groups_model(groups@)),
    {
        if groups.len() == 0 {
            return WalkerAction::Done;
        }
        let ghost all = groups_model(groups@);
        let ghost start = self@;
        assert(self@.buffered =~= start.buffered + all_output(start.skipped, all.take(0)));
        for group in it: groups.into_iter()
            invariant
                all == groups_model(it.seq()),
                self@.save_opts == start.save_opts,
                self@.threads == start.threads,
                self@.buffered == start.buffered + all_output(
                    start.skipped,
                    all.take(it.index() as int),
                ),
                self@.skipped == all_skipped(start.skipped, all.take(it.index() as int)),
        {
            let ghost done = it.index() as int;
            proof {
                assert(all.take(done + 1).drop_last() =~= all.take(done));
                assert(all.take(done + 1).last() == group@);
            }
            self.take_group(group);
            assert(self@.buffered =~= start.buffered + all_output(
                start.skipped,
                all.take(done + 1),
            ));
        }
        proof {
            assert(all.take(all.len() as int) =~= all);
            assert(self@ =~= (WalkerModel {
                buffered: start.buffered + all_output(start.skipped, all),
                skipped: all_skipped(start.skipped, all),
                ..start
            }));
        }
        self.next()
    }

    /// Puts the outputs of a group in line, unless it lies in a directory whose content is passed
    /// over.
    fn take_group(&mut self, group: MappedGroup)
        ensures
            final(self)@ == (WalkerModel {
                buffered: old(self)@.buffered + group_output(old(self)@.skipped, group@),
                skipped: group_skipped(old(self)@.skipped, group@),
                ..old(self)@
            }),
    {
        let ghost start = self@;
        if let Some(path) = group.sort_key {
            retain_open(&mut self.reparse_skip, &path);
            if lies_below(&self.reparse_skip, &path) {
                assert(start.buffered + Seq::empty() =~= start.buffered);
                return;
            }
            if group.is_reparse_dir {
                let ghost open = self.reparse_skip@;
                self.reparse_skip.push(path);
                assert(paths(self.reparse_skip@) =~= paths(open).push(path@));
            }
        }
        let ghost before = self.buffer@;
        put_in_line(&mut self.buffer, group.entries);
        assert(outputs_model(self.buffer@) =~= outputs_model(before) + group@.entries);
    }

    /// Takes one result of the walk, or `None` at its end. Of a result at a backup path it must be
    /// known whether it is a directory.
    pub fn pulled(&mut self, item: Option<WalkResult>) -> (r: WalkerAction)
        requires
            item matches Some(Ok(entry)) ==> entry.depth > 0 || entry.is_dir is Some,
        ensures
            (final(self)@, r@) == on_pulled(
                old(self)@,
                match item {
                    Some(result) => Some(walk_model(result)),
                    None => None,
                },
            ),
            r matches WalkerAction::Look(entry) ==> item == Some(Ok::<WalkEntry, String>(entry)),
    {
        match item {
            None => WalkerAction::Done,
            Some(Err(cause)) => WalkerAction::Yield(Err(EntryError::Walk(cause))),
            Some(Ok(entry)) => {
                let dir: bool = match entry.is_dir {
                    Some(dir) => dir,
                    None => false,
                };
                if entry.depth == 0 && dir {
                    return WalkerAction::Pull;
                }
                retain_open(&mut self.reparse_skip, &entry.path);
                if lies_below(&self.reparse_skip, &entry.path) {
                    WalkerAction::Pull
                } else {
                    WalkerAction::Look(entry)
                }
            },
        }
    }

    /// Takes what was found at an entry.
    pub fn found(&mut self, info: EntryInfo) -> (r: WalkerAction)
        requires
            info.windows matches Some(w) ==> w.encodable(),
        ensures
            (final(self)@, r@) == on_found(old(self)@, mapping(old(self)@.save_opts, info)),
    {
        match self.save_opts.map_entry(info) {
            Err(e) => WalkerAction::Yield(Err(EntryError::Mapping(e))),
            Ok(host) => {
                if is_reparse_directory(&host) {
                    let ghost before = self.reparse_skip@;
                    self.reparse_skip.push(host.path.duplicate());
                    assert(paths(self.reparse_skip@) =~= paths(before).push(host.path@));
                }
                if asks_for_streams(&host) {
                    WalkerAction::ListStreams(host)
                } else {
                    WalkerAction::Yield(Ok(host))
                }
            },
        }
    }

    /// Takes the streams of an entry, or `None` where they could not be listed.
    pub fn listed(
        &mut self,
        host: ReadSourceEntry,
        streams: Option<Vec<(AdsName, u64)>>,
    ) -> (r: WalkerAction)
        ensures
            (final(self)@, r@) == on_listed(old(self)@, host@, stream_list(streams)),
    {
        let ghost before = self.buffer@;
        let siblings: Vec<WalkOutput> = stream_entries(&host, &streams);
        let ghost behind = siblings@;
        put_in_line(&mut self.buffer, siblings);
        assert(outputs_model(self.buffer@) =~= outputs_model(before) + outputs_model(behind));
        WalkerAction::Yield(Ok(host))
    }
}

/// The models of outputs, groups and actions hold what these hold, each output in its place.
pub proof fn law_walker_models_are_what_they_stand_for(
    list: Seq<WalkOutput>,
    group: MappedGroup,
    action: WalkerAction,
)
    ensures
        outputs_model(list).len() == list.len(),
        forall|i: int|
            0 <= i < list.len() ==> match #[trigger] list[i] {
                Ok(entry) => outputs_model(list)[i] == Ok::<EntryModel, EntryErrorModel>(entry@),
                Err(e) => outputs_model(list)[i] == Err::<EntryModel, EntryErrorModel>(e@),
            },
        match group.sort_key {
            Some(path) => group@.key == Some(path@),
            None => group@.key is None,
        },
        group@.is_reparse_dir == group.is_reparse_dir,
        group@.entries == outputs_model(group.entries@),
        action matches WalkerAction::Yield(Ok(entry)) ==> action@ == ActionModel::Yield(Ok(entry@)),
        action matches WalkerAction::Yield(Err(e)) ==> action@ == ActionModel::Yield(Err(e@)),
        action is Pull <==> action@ is Pull,
        action is Done <==> action@ is Done,
        action matches WalkerAction::PullChunk(n) ==> action@ == ActionModel::PullChunk(n),
        action matches WalkerAction::ListStreams(host) ==> action@ == ActionModel::ListStreams(
            host@,
        ),
        action matches WalkerAction::Look(entry) ==> action@ == ActionModel::Look(
            WalkModel::Entry(entry.path@, entry.depth as nat, entry.is_dir),
        ),
{
}

/// Whatever a walker takes up, it keeps its options and its number of threads.
pub proof fn law_steps_keep_options_and_threads(
    w: WalkerModel,
    groups: Seq<GroupModel>,
    walked: Option<WalkModel>,
    mapped: Result<EntryModel, ErrorModel>,
    host: EntryModel,
    streams: StreamsModel,
)
    ensures
        on_next(w).0.save_opts == w.save_opts && on_next(w).0.threads == w.threads,
        on_chunk(w, groups).0.save_opts == w.save_opts && on_chunk(w, groups).0.threads
            == w.threads,
        on_pulled(w, walked).0.save_opts == w.save_opts && on_pulled(w, walked).0.threads
            == w.threads,
        on_found(w, mapped).0.save_opts == w.save_opts && on_found(w, mapped).0.threads
            == w.threads,
        on_listed(w, host, streams).0.save_opts == w.save_opts && on_listed(
            w,
            host,
            streams,
        ).0.threads == w.threads,
{
}

} // verus!
