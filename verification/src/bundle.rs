//! The orchestrator of one run: every input file in turn through the walk,
//! progress after each, and the finished archive at the end.

use crate::archive::{
    all_storable, archive_bytes, end_marker, lemma_emitted_after, lemma_emitted_all,
    lemma_written_concat, ArchiveSink, EntryView,
};
use crate::container::{
    bundle_ninres, lemma_plain_node_is_written, node_entries, plain_node, ContainerNode, NodeView,
};
use crate::error::Error;
use crate::progress::{increase_progress, Percentage, ProgressState, ProgressView};
use vstd::prelude::*;

verus! {

/// The share of the progress scale that bundling takes, in whole units.
pub const STAGE_BUDGET: u64 = 2;

/// What a run hands back: the archive, and the percentages to signal, in
/// order: one after each input file, and one for the finished archive.
pub struct BundleOutput {
    pub data: Vec<u8>,
    pub signals: Vec<Percentage>,
}

/// The input files as the contracts see them.
pub open spec fn files_view(files: Seq<Option<ContainerNode>>) -> Seq<Option<NodeView>> {
    Seq::new(
        files.len(),
        |i: int|
            match files[i] {
                Some(node) => Some(node@),
                None => None,
            },
    )
}

/// What one input file adds: what its container adds, found at the root; a
/// file that is no container adds nothing.
pub open spec fn file_entries(file: Option<NodeView>, mtime: u64) -> Seq<EntryView> {
    match file {
        Some(node) => node_entries(node, Seq::empty(), mtime),
        None => Seq::empty(),
    }
}

/// What the first `n` input files add.
pub open spec fn files_entries(files: Seq<Option<NodeView>>, n: nat, mtime: u64) -> Seq<EntryView>
    decreases n,
{
    if n == 0 {
        Seq::empty()
    } else {
        files_entries(files, (n - 1) as nat, mtime) + file_entries(files[n - 1], mtime)
    }
}

/// The progress after `done` of `total` input files: each file is a step of
/// the stage's budget over `total`.
pub open spec fn progress_after(v: ProgressView, total: nat, done: nat) -> ProgressView
    decreases done,
{
    if done == 0 {
        v
    } else {
        progress_after(v, total, (done - 1) as nat).advance(STAGE_BUDGET as nat, total)
    }
}

/// Where the first `m` files can all be written, so can the first `n <= m`.
pub proof fn lemma_files_storable_prefix(
    files: Seq<Option<NodeView>>,
    n: nat,
    m: nat,
    mtime: u64,
)
    requires
        n <= m,
        all_storable(files_entries(files, m, mtime)),
    ensures
        all_storable(files_entries(files, n, mtime)),
    decreases m,
{
    if n < m {
        lemma_written_concat(
            files_entries(files, (m - 1) as nat, mtime),
            file_entries(files[m - 1], mtime),
        );
        lemma_files_storable_prefix(files, n, (m - 1) as nat, mtime);
    }
}

/// When a run succeeds: where the names in every input file are plain, every
/// entry can be written.
pub proof fn lemma_plain_files_are_written(files: Seq<Option<NodeView>>, n: nat, mtime: u64)
    requires
        n <= files.len(),
        forall|i: int|
            0 <= i < files.len() ==> ((#[trigger] files[i]) matches Some(node) ==> plain_node(
                node,
                Seq::empty(),
            )),
    ensures
        all_storable(files_entries(files, n, mtime)),
    decreases n,
{
    if n > 0 {
        lemma_plain_files_are_written(files, (n - 1) as nat, mtime);
        match files[n - 1] {
            Some(node) => {
                lemma_plain_node_is_written(node, Seq::empty(), mtime);
            },
            None => {},
        }
        lemma_written_concat(
            files_entries(files, (n - 1) as nat, mtime),
            file_entries(files[n - 1], mtime),
        );
    }
}

/// Bundles the input files into one archive whose entries carry `mtime`.
///
/// Each file is either a decoded container or `None` for a file that the
/// decoder did not recognise; such a file adds nothing and still counts as
/// done. The run succeeds exactly where every entry name can be stored as it
/// is; it ends at the first file that holds one that cannot, with the
/// progress of the files before it.
pub fn bundle_assets(
    files: &Vec<Option<ContainerNode>>,
    mtime: u64,
    progress: &mut ProgressState,
) -> (r: Result<BundleOutput, Error>)
    requires
        old(progress).wf(),
    ensures
        final(progress).wf(),
        r is Ok <==> all_storable(files_entries(files_view(files@), files.len() as nat, mtime)),
        r matches Ok(out) ==> {
            &&& out.data@ == archive_bytes(
                files_entries(files_view(files@), files.len() as nat, mtime),
            )
            &&& out.data@.len() >= 1024
            &&& out.data@.skip(out.data@.len() - 1024) == end_marker()
            &&& files_entries(files_view(files@), files.len() as nat, mtime).len() == 0
                ==> out.data@ == end_marker()
            &&& final(progress)@ == progress_after(
                old(progress)@,
                files.len() as nat,
                files.len() as nat,
            ).advance(1, 1)
            &&& out.signals.len() == files.len() + 1
            &&& forall|i: int|
                0 <= i < files.len() ==> (#[trigger] out.signals[i])@ == progress_after(
                    old(progress)@,
                    files.len() as nat,
                    (i + 1) as nat,
                ).percentage()
            &&& out.signals[files.len() as int]@ == final(progress)@.percentage()
        },
        r matches Err(e) ==> {
            &&& e is Io
            &&& exists|done: nat|
                {
                    &&& done < files.len()
                    &&& all_storable(files_entries(files_view(files@), done, mtime))
                    &&& !all_storable(files_entries(files_view(files@), done + 1, mtime))
                    &&& final(progress)@ == #[trigger] progress_after(
                        old(progress)@,
                        files.len() as nat,
                        done,
                    )
                }
        },
{
    let ghost views = files_view(files@);
    let mut sink = ArchiveSink::new(mtime);
    let mut signals: Vec<Percentage> = Vec::new();
    let total: u64 = files.len() as u64;
    let mut i: usize = 0;
    while i < files.len()
        invariant
            i <= files.len(),
            total == files.len(),
            views == files_view(files@),
            sink.wf(),
            sink.mtime() == mtime,
            all_storable(files_entries(views, i as nat, mtime)),
            sink.entries() == files_entries(views, i as nat, mtime),
            progress.wf(),
            progress@ == progress_after(old(progress)@, files.len() as nat, i as nat),
            signals.len() == i,
            forall|k: int|
                0 <= k < i ==> (#[trigger] signals[k])@ == progress_after(
                    old(progress)@,
                    files.len() as nat,
                    (k + 1) as nat,
                ).percentage(),
        decreases files.len() - i,
    {
        let ghost none = Seq::<EntryView>::empty();
        let ghost done = files_entries(views, i as nat, mtime);
        let ghost part = file_entries(views[i as int], mtime);
        let ghost next = files_entries(views, (i + 1) as nat, mtime);
        assert(next == done + part);
        assert(none + done =~= done);
        if let Some(node) = &files[i] {
            let r = bundle_ninres(node, &mut sink);
            proof {
                lemma_emitted_after(none, sink.entries(), done, part, r is Ok);
            }
            match r {
                Ok(()) => {
                    proof {
                        lemma_emitted_all(none, sink.entries(), next);
                        assert(none + next =~= next);
                    }
                },
                Err(e) => {
                    proof {
                        if all_storable(files_entries(views, files.len() as nat, mtime)) {
                            lemma_files_storable_prefix(
                                views,
                                (i + 1) as nat,
                                files.len() as nat,
                                mtime,
                            );
                        }
                    }
                    return Err(e);
                },
            }
        } else {
            assert(next =~= done);
        }
        progress.advance(STAGE_BUDGET, total);
        signals.push(progress.read_percentage());
        i += 1;
    }
    let data = match sink.finalize() {
        Ok(data) => data,
        Err(e) => {
            return Err(e);
        },
    };
    signals.push(increase_progress(progress));
    Ok(BundleOutput { data, signals })
}

} // verus!
