//! The rebuild controller: full-wipe-then-rebuild sequencing.
//!
//! A run starts by discarding everything a prior run left behind (the caller
//! wipes persistent storage at the same moment), then records each scanned
//! document, and finally resolves every reference into edges.  A run either
//! ends `Done` with a complete, self-consistent index, or `Failed`; there is
//! no partial commit.  Because the wipe erases all prior state, the outcome
//! of a run is a function of the documents scanned during that run alone.

use crate::errors::ResolveError;
use crate::index::{build_index, built_edges, registered_docs, Edge, Index, MarkdownFile};
use crate::registry::RegisteredDoc;
use vstd::prelude::*;

verus! {

/// The phase a rebuild controller is in.
#[derive(Clone, Copy, Debug, PartialEq, Eq, Structural)]
pub enum RebuildPhase {
    /// No run in progress.
    Idle,
    /// Prior state is wiped; scanned documents are being recorded.
    Scanning,
    /// The last run produced a complete index.
    Done,
    /// The last run aborted; stored state must not be trusted.
    Failed,
}

/// What a completed run yields: the registered documents and the resolved
/// edges, or the error that aborted resolution.
pub open spec fn run_outcome(files: Seq<MarkdownFile>) -> Result<
    (Seq<RegisteredDoc>, Seq<Edge>),
    ResolveError,
> {
    match built_edges(files) {
        Ok(es) => Ok((registered_docs(files), es)),
        Err(e) => Err(e),
    }
}

/// The abstract controller state: its phase and the documents recorded so far.
pub open spec fn model_begin(c: (RebuildPhase, Seq<MarkdownFile>)) -> (
    RebuildPhase,
    Seq<MarkdownFile>,
) {
    (RebuildPhase::Scanning, Seq::empty())
}

/// Recording a document extends the run's document list while scanning.
pub open spec fn model_record(c: (RebuildPhase, Seq<MarkdownFile>), f: MarkdownFile) -> (
    RebuildPhase,
    Seq<MarkdownFile>,
) {
    if c.0 == RebuildPhase::Scanning {
        (c.0, c.1.push(f))
    } else {
        c
    }
}

/// Recording a whole sequence of documents, one after the other.
pub open spec fn model_record_all(
    c: (RebuildPhase, Seq<MarkdownFile>),
    files: Seq<MarkdownFile>,
) -> (RebuildPhase, Seq<MarkdownFile>)
    decreases files.len(),
{
    if files.len() == 0 {
        c
    } else {
        model_record_all(model_record(c, files[0]), files.drop_first())
    }
}

/// One full run from an arbitrary prior controller state: begin (the wipe),
/// record every scanned document, resolve.
pub open spec fn model_run(c: (RebuildPhase, Seq<MarkdownFile>), files: Seq<MarkdownFile>) -> Result<
    (Seq<RegisteredDoc>, Seq<Edge>),
    ResolveError,
> {
    run_outcome(model_record_all(model_begin(c), files).1)
}

proof fn lemma_record_all_scanning(fs0: Seq<MarkdownFile>, files: Seq<MarkdownFile>)
    ensures
        model_record_all((RebuildPhase::Scanning, fs0), files) == (
            RebuildPhase::Scanning,
            fs0 + files,
        ),
    decreases files.len(),
{
    if files.len() == 0 {
        assert(fs0 + files =~= fs0);
    } else {
        lemma_record_all_scanning(fs0.push(files[0]), files.drop_first());
        assert(fs0.push(files[0]) + files.drop_first() =~= fs0 + files);
    }
}

/// Rebuild idempotence: the outcome of a full run depends only on the
/// documents scanned during that run.  Two runs over equal document
/// sequences — in particular, two consecutive runs over an unchanged
/// document tree — yield equal registered documents and equal edges,
/// whatever state each run started from: the wipe at the start of a run
/// erases every trace of earlier runs.
pub proof fn lemma_rebuild_idempotent(
    c1: (RebuildPhase, Seq<MarkdownFile>),
    c2: (RebuildPhase, Seq<MarkdownFile>),
    files: Seq<MarkdownFile>,
)
    ensures
        model_run(c1, files) == model_run(c2, files),
        model_run(c1, files) == run_outcome(files),
{
    lemma_record_all_scanning(Seq::empty(), files);
    assert(Seq::<MarkdownFile>::empty() + files =~= files);
}

/// The rebuild controller.  Its exec transitions mirror the `model_*`
/// functions above, so the idempotence law speaks for it.
pub struct Rebuild {
    phase: RebuildPhase,
    files: Vec<MarkdownFile>,
}

impl Rebuild {
    /// The controller's phase.
    pub closed spec fn phase(&self) -> RebuildPhase {
        self.phase
    }

    /// The documents recorded during the current run.
    pub closed spec fn files(&self) -> Seq<MarkdownFile> {
        self.files@
    }

    /// A controller that has run nothing.
    pub fn new() -> (r: Rebuild)
        ensures
            r.phase() == RebuildPhase::Idle,
            r.files() == Seq::<MarkdownFile>::empty(),
    {
        Rebuild { phase: RebuildPhase::Idle, files: Vec::new() }
    }

    /// Begin a run from any prior state, discarding everything recorded
    /// before.  The caller wipes persistent documents and edges at this
    /// point, so that the run rebuilds from scratch.
    pub fn begin(&mut self)
        ensures
            (final(self).phase(), final(self).files()) == model_begin(
                (old(self).phase(), old(self).files()),
            ),
            final(self).phase() == RebuildPhase::Scanning,
            final(self).files() == Seq::<MarkdownFile>::empty(),
    {
        self.phase = RebuildPhase::Scanning;
        self.files.clear();
    }

    /// Record one scanned document.
    pub fn record(&mut self, f: MarkdownFile)
        requires
            old(self).phase() == RebuildPhase::Scanning,
            old(self).files().len() + 1 < i64::MAX,
        ensures
            (final(self).phase(), final(self).files()) == model_record(
                (old(self).phase(), old(self).files()),
                f,
            ),
            final(self).phase() == RebuildPhase::Scanning,
            final(self).files() == old(self).files().push(f),
    {
        self.files.push(f);
    }

    /// Note a failure outside the core (an unreadable document, a storage
    /// fault): the run aborts and its recorded documents are discarded.
    pub fn fail(&mut self)
        ensures
            final(self).phase() == RebuildPhase::Failed,
            final(self).files() == Seq::<MarkdownFile>::empty(),
    {
        self.phase = RebuildPhase::Failed;
        self.files.clear();
    }

    /// Resolve the recorded documents into the run's index.  The run ends
    /// `Done` exactly when every reference of every document resolves, and
    /// `Failed` on the first that does not.
    pub fn finish(&mut self) -> (r: Result<Index, ResolveError>)
        requires
            old(self).phase() == RebuildPhase::Scanning,
            old(self).files().len() < i64::MAX,
        ensures
            r is Ok <==> run_outcome(old(self).files()) is Ok,
            r matches Ok(ix) ==> run_outcome(old(self).files()) == Ok::<
                (Seq<RegisteredDoc>, Seq<Edge>),
                ResolveError,
            >((ix.documents@, ix.edges@)),
            r matches Err(e) ==> run_outcome(old(self).files()) == Err::<
                (Seq<RegisteredDoc>, Seq<Edge>),
                ResolveError,
            >(e),
            final(self).phase() == (if run_outcome(old(self).files()) is Ok {
                RebuildPhase::Done
            } else {
                RebuildPhase::Failed
            }),
            final(self).files() == Seq::<MarkdownFile>::empty(),
    {
        let mut fs: Vec<MarkdownFile> = Vec::new();
        core::mem::swap(&mut fs, &mut self.files);
        let r = build_index(fs);
        match &r {
            Ok(_) => {
                self.phase = RebuildPhase::Done;
            },
            Err(_) => {
                self.phase = RebuildPhase::Failed;
            },
        }
        r
    }
}

} // verus!
