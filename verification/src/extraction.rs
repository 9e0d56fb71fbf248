//! Replacing the `mods` directory with the contents of the downloaded
//! archive: unpack into a scratch directory, find the directory that holds
//! the mods, move it in beside `mods`, then swap it in, keeping the old
//! `mods` aside until the swap has succeeded.
use vstd::prelude::*;
use crate::layout::GameLayout;
use crate::names::{eq_ignore_ascii_case, eq_ignore_ascii_case_seq, result_view};
use crate::paths::{join_seq, same_path, same_path_seq};

verus! {

/// An entry found directly in the scratch directory.
pub struct ExtractedChild {
    pub path: String,
    /// The entry's name, where it is valid Unicode.
    pub name: Option<String>,
    pub is_dir: bool,
}

pub const BAD_EXTRACTED_DIR_NAME: &'static str = "解压后的目录名称无效。";

/// Where the mods are after unpacking into `root`: a single directory named
/// `mods` (in any case) holds them, else `root` itself does.
pub open spec fn extraction_source_of(root: Seq<char>, children: Seq<ExtractedChild>) -> Result<Seq<char>, Seq<char>> {
    if children.len() == 1 && children[0].is_dir {
        match children[0].name {
            None => Err(BAD_EXTRACTED_DIR_NAME@),
            Some(n) => if eq_ignore_ascii_case_seq(n@, "mods"@) {
                Ok(children[0].path@)
            } else {
                Ok(root)
            },
        }
    } else {
        Ok(root)
    }
}

/// Whether `n` is `mods` in any mix of upper and lower case.
pub open spec fn named_mods_in_any_case(n: Seq<char>) -> bool {
    &&& n.len() == 4
    &&& (n[0] == 'm' || n[0] == 'M')
    &&& (n[1] == 'o' || n[1] == 'O')
    &&& (n[2] == 'd' || n[2] == 'D')
    &&& (n[3] == 's' || n[3] == 'S')
}

/// Where the unpacked mods are: when the scratch root holds exactly one
/// entry, a directory named `mods` in any case (`mods`, `MODS`, `Mods`,
/// ...), that directory; when that single directory has a name that is not
/// valid Unicode, an error; in every other case the scratch root itself.
pub proof fn lemma_extraction_source(root: Seq<char>, children: Seq<ExtractedChild>)
    ensures
        children.len() == 1 && children[0].is_dir && children[0].name is Some
            && named_mods_in_any_case(children[0].name->0@) ==> extraction_source_of(root, children)
            == Ok::<Seq<char>, Seq<char>>(children[0].path@),
        children.len() == 1 && children[0].is_dir && children[0].name is Some
            && !named_mods_in_any_case(children[0].name->0@) ==> extraction_source_of(root, children)
            == Ok::<Seq<char>, Seq<char>>(root),
        children.len() == 1 && children[0].is_dir && children[0].name is None ==> extraction_source_of(
            root,
            children,
        ) == Err::<Seq<char>, Seq<char>>(BAD_EXTRACTED_DIR_NAME@),
        !(children.len() == 1 && children[0].is_dir) ==> extraction_source_of(root, children) == Ok::<
            Seq<char>,
            Seq<char>,
        >(root),
{
    reveal_strlit("mods");
    if children.len() == 1 && children[0].is_dir && children[0].name is Some {
        let n = children[0].name->0@;
        let m = "mods"@;
        assert(m =~= seq!['m', 'o', 'd', 's']);
        if named_mods_in_any_case(n) {
            assert forall|i: int| 0 <= i < n.len() implies crate::names::ascii_lower(#[trigger] n[i])
                == crate::names::ascii_lower(m[i]) by {
                assert('M' as u32 + 32 == 'm' as u32);
                assert('O' as u32 + 32 == 'o' as u32);
                assert('D' as u32 + 32 == 'd' as u32);
                assert('S' as u32 + 32 == 's' as u32);
            }
            assert(eq_ignore_ascii_case_seq(n, m));
        } else if eq_ignore_ascii_case_seq(n, m) {
            assert(crate::names::ascii_lower(n[0]) == 'm');
            assert(crate::names::ascii_lower(n[1]) == 'o');
            assert(crate::names::ascii_lower(n[2]) == 'd');
            assert(crate::names::ascii_lower(n[3]) == 's');
        }
    }
}

/// The directory that holds the unpacked mods.
pub fn resolve_extraction_source(extracted_root: &str, children: &Vec<ExtractedChild>) -> (r: Result<String, String>)
    ensures
        result_view(r) == extraction_source_of(extracted_root@, children@),
{
    if children.len() == 1 && children[0].is_dir {
        match &children[0].name {
            None => return Err(String::from_str(BAD_EXTRACTED_DIR_NAME)),
            Some(n) => {
                if eq_ignore_ascii_case(n.as_str(), "mods") {
                    return Ok(children[0].path.clone());
                }
            },
        }
    }
    Ok(String::from_str(extracted_root))
}

/// A file-system step of the flow.
pub enum FsAction {
    /// Remove the file or directory tree at the path, if anything is there.
    RemoveIfExists(String),
    /// Create the directory and its missing parents.
    CreateDirAll(String),
    /// Unpack the archive into the directory.
    ExtractArchive { archive: String, target: String },
    /// Find where the unpacked mods are (`resolve_extraction_source`).
    ResolveSource(String),
    /// Tell whether the directory has any entry.
    CheckNotEmpty(String),
    /// Rename `from` to `to`.
    Rename { from: String, to: String },
    /// Tell whether anything is at the path.
    Exists(String),
}

/// How a step ended.
pub enum Outcome {
    Done,
    /// The step failed; the message for the user.
    Failed(String),
    /// Where the unpacked mods are.
    Source(String),
    /// The answer of `CheckNotEmpty` or `Exists`.
    Flag(bool),
}

#[derive(Clone, Copy, PartialEq, Eq, Structural)]
pub enum Stage {
    RemoveStale,
    CreateScratch,
    Unpack,
    Resolve,
    CheckContent,
    RemoveEmpty,
    ClearIncoming,
    MoveIn,
    DropScratch,
    ClearPrevious,
    CheckMods,
    MoveAside,
    SwapIn,
    CheckPrevious,
    RollBack,
    ClearPreviousAfter,
    FailAfterCleanup,
    Finished,
}

/// A plain-value view of an action.
pub ghost enum ActionView {
    RemoveIfExists(Seq<char>),
    CreateDirAll(Seq<char>),
    ExtractArchive(Seq<char>, Seq<char>),
    ResolveSource(Seq<char>),
    CheckNotEmpty(Seq<char>),
    Rename(Seq<char>, Seq<char>),
    Exists(Seq<char>),
}

pub open spec fn action_view(a: FsAction) -> ActionView {
    match a {
        FsAction::RemoveIfExists(p) => ActionView::RemoveIfExists(p@),
        FsAction::CreateDirAll(p) => ActionView::CreateDirAll(p@),
        FsAction::ExtractArchive { archive, target } => ActionView::ExtractArchive(archive@, target@),
        FsAction::ResolveSource(p) => ActionView::ResolveSource(p@),
        FsAction::CheckNotEmpty(p) => ActionView::CheckNotEmpty(p@),
        FsAction::Rename { from, to } => ActionView::Rename(from@, to@),
        FsAction::Exists(p) => ActionView::Exists(p@),
    }
}

/// What the flow asks for next.
pub enum FlowStep {
    Do(FsAction),
    /// The flow is over: the path of the new `mods` directory, or the error.
    Finish(Result<String, String>),
}

pub ghost enum FlowStepView {
    Do(ActionView),
    Finish(Result<Seq<char>, Seq<char>>),
}

pub open spec fn flow_step_view(s: FlowStep) -> FlowStepView {
    match s {
        FlowStep::Do(a) => FlowStepView::Do(action_view(a)),
        FlowStep::Finish(r) => FlowStepView::Finish(result_view(r)),
    }
}

pub const EMPTY_ARCHIVE: &'static str = "mods.zip 中没有可用内容。";

/// The flow that replaces `mods` with the contents of an archive.
pub struct ExtractionFlow {
    layout: GameLayout,
    /// Whether paths follow the rules of Windows.
    windows: bool,
    archive: String,
    /// Where the unpacked mods are, once known.
    source: String,
    /// The error to report once the pending clean-up is done.
    pending_error: String,
    stage: Stage,
}

/// Which outcomes a stage accepts: `Done`/`Failed` after plain steps,
/// `Source`/`Failed` after resolving, `Flag`/`Failed` after the content check,
/// `Flag` after an existence test.
pub open spec fn accepts_outcome(stage: Stage, o: Outcome) -> bool {
    match stage {
        Stage::Resolve => o is Source || o is Failed,
        Stage::CheckContent => o is Flag || o is Failed,
        Stage::CheckMods | Stage::CheckPrevious => o is Flag,
        Stage::Finished => false,
        _ => o is Done || o is Failed,
    }
}

/// Stages in the order the flow passes them; every step moves to a later one.
pub open spec fn stage_rank(s: Stage) -> nat {
    match s {
        Stage::RemoveStale => 0,
        Stage::CreateScratch => 1,
        Stage::Unpack => 2,
        Stage::Resolve => 3,
        Stage::CheckContent => 4,
        Stage::RemoveEmpty => 5,
        Stage::ClearIncoming => 6,
        Stage::MoveIn => 7,
        Stage::DropScratch => 8,
        Stage::ClearPrevious => 9,
        Stage::CheckMods => 10,
        Stage::MoveAside => 11,
        Stage::SwapIn => 12,
        Stage::ClearPreviousAfter => 13,
        Stage::CheckPrevious => 14,
        Stage::RollBack => 15,
        Stage::FailAfterCleanup => 16,
        Stage::Finished => 17,
    }
}

/// The stage after `stage` when its step ended with `o`; `moved_scratch`
/// tells whether the unpacked mods were found in the scratch directory
/// itself.
pub open spec fn stage_after(stage: Stage, o: Outcome, moved_scratch: bool) -> Stage {
    match (stage, o) {
        (Stage::RemoveStale, Outcome::Done) => Stage::CreateScratch,
        (Stage::CreateScratch, Outcome::Done) => Stage::Unpack,
        (Stage::Unpack, Outcome::Done) => Stage::Resolve,
        (Stage::Unpack, Outcome::Failed(_)) => Stage::FailAfterCleanup,
        (Stage::Resolve, Outcome::Source(_)) => Stage::CheckContent,
        (Stage::Resolve, Outcome::Failed(_)) => Stage::FailAfterCleanup,
        (Stage::CheckContent, Outcome::Flag(true)) => Stage::ClearIncoming,
        (Stage::CheckContent, Outcome::Flag(false)) => Stage::RemoveEmpty,
        (Stage::CheckContent, Outcome::Failed(_)) => Stage::FailAfterCleanup,
        (Stage::ClearIncoming, Outcome::Done) => Stage::MoveIn,
        (Stage::MoveIn, Outcome::Done) => if moved_scratch {
            Stage::ClearPrevious
        } else {
            Stage::DropScratch
        },
        (Stage::DropScratch, _) => Stage::ClearPrevious,
        (Stage::ClearPrevious, Outcome::Done) => Stage::CheckMods,
        (Stage::CheckMods, Outcome::Flag(true)) => Stage::MoveAside,
        (Stage::CheckMods, Outcome::Flag(false)) => Stage::SwapIn,
        (Stage::MoveAside, Outcome::Done) => Stage::SwapIn,
        (Stage::SwapIn, Outcome::Done) => Stage::ClearPreviousAfter,
        (Stage::SwapIn, Outcome::Failed(_)) => Stage::CheckPrevious,
        (Stage::CheckPrevious, Outcome::Flag(true)) => Stage::RollBack,
        _ => Stage::Finished,
    }
}

/// The paths that an action touches are the scratch directory, the staging
/// directories, `mods`, the archive, or where the unpacked mods were found;
/// `mods` is never removed, and is only moved aside to `previous` (unless
/// it is itself where the unpacked mods were found).
pub open spec fn action_allowed(a: ActionView, l: GameLayout, archive: Seq<char>, source: Seq<char>) -> bool {
    let ok = |p: Seq<char>|
        p == l.extract@ || p == l.incoming@ || p == l.previous@ || p == l.mods@ || p == source;
    match a {
        ActionView::RemoveIfExists(p) => p == l.extract@ || p == l.incoming@ || p == l.previous@,
        ActionView::CreateDirAll(p) => p == l.extract@,
        ActionView::ExtractArchive(ar, t) => ar == archive && t == l.extract@,
        ActionView::ResolveSource(p) => p == l.extract@,
        ActionView::CheckNotEmpty(p) => ok(p),
        ActionView::Rename(from, to) => ok(from) && ok(to) && (from == l.mods@ && from != source
            ==> to == l.previous@),
        ActionView::Exists(p) => ok(p),
    }
}

proof fn lemma_layout_fields_distinct(l: GameLayout, w: bool)
    requires
        l.of(l.game@, w),
    ensures
        l.mods@ != l.incoming@,
        l.mods@ != l.previous@,
        l.mods@ != l.extract@,
        l.incoming@ != l.previous@,
{
    crate::layout::lemma_layout_distinct(l.game@, w);
    let ns = crate::layout::layout_names();
    let g = l.game@;
    assert(!same_path_seq(join_seq(g, ns[0], w), join_seq(g, ns[5], w), w));
    assert(!same_path_seq(join_seq(g, ns[0], w), join_seq(g, ns[6], w), w));
    assert(!same_path_seq(join_seq(g, ns[0], w), join_seq(g, ns[4], w), w));
    assert(!same_path_seq(join_seq(g, ns[5], w), join_seq(g, ns[6], w), w));
}

impl ExtractionFlow {
    /// The layout is that of its game directory.
    #[verifier::type_invariant]
    spec fn layout_of_game(self) -> bool {
        self.layout.of(self.layout.game@, self.windows)
    }

    pub closed spec fn layout_view(self) -> GameLayout {
        self.layout
    }

    /// Whether the flow's paths follow the rules of Windows.
    pub closed spec fn windows_view(self) -> bool {
        self.windows
    }

    pub closed spec fn stage_view(self) -> Stage {
        self.stage
    }

    pub closed spec fn archive_view(self) -> String {
        self.archive
    }

    /// Where the unpacked mods were found, once known.
    pub closed spec fn source_view(self) -> String {
        self.source
    }

    /// The error reported once the pending clean-up is done.
    pub closed spec fn pending_view(self) -> String {
        self.pending_error
    }

    /// Starts replacing `mods` of game directory `game` with the contents of
    /// `archive`: first, leftovers of an earlier unpacking go.
    pub fn start(game: &str, archive: String, windows: bool) -> (r: (ExtractionFlow, FlowStep))
        ensures
            r.0.layout_view().of(game@, windows),
            r.0.windows_view() == windows,
            r.0.archive_view() == archive,
            r.0.source_view()@ == Seq::<char>::empty(),
            r.0.pending_view()@ == Seq::<char>::empty(),
            r.0.stage_view() == Stage::RemoveStale,
            flow_step_view(r.1) == FlowStepView::Do(
                ActionView::RemoveIfExists(r.0.layout_view().extract@),
            ),
    {
        let layout = GameLayout::new(game, windows);
        let step = FlowStep::Do(FsAction::RemoveIfExists(layout.extract.clone()));
        (
            ExtractionFlow {
                layout,
                windows,
                archive,
                source: String::new(),
                pending_error: String::new(),
                stage: Stage::RemoveStale,
            },
            step,
        )
    }

    /// Whether the flow can take `o` as the outcome of its last step.
    pub fn accepts(&self, o: &Outcome) -> (r: bool)
        ensures
            r == accepts_outcome(self.stage_view(), *o),
    {
        match self.stage {
            Stage::Resolve => matches!(o, Outcome::Source(_) | Outcome::Failed(_)),
            Stage::CheckContent => matches!(o, Outcome::Flag(_) | Outcome::Failed(_)),
            Stage::CheckMods | Stage::CheckPrevious => matches!(o, Outcome::Flag(_)),
            Stage::Finished => false,
            _ => matches!(o, Outcome::Done | Outcome::Failed(_)),
        }
    }

    /// Clean up the scratch directory, ignoring how that goes, then fail.
    fn clean_then_fail(&mut self, e: String) -> (r: FlowStep)
        ensures
            final(self).stage_view() == Stage::FailAfterCleanup,
            final(self).pending_view() == e,
            final(self).layout_view() == old(self).layout_view(),
            final(self).windows_view() == old(self).windows_view(),
            final(self).archive_view() == old(self).archive_view(),
            final(self).source_view() == old(self).source_view(),
            flow_step_view(r) == FlowStepView::Do(ActionView::RemoveIfExists(old(self).layout_view().extract@)),
    {
        proof {
            use_type_invariant(&*self);
        }
        self.pending_error = e;
        self.stage = Stage::FailAfterCleanup;
        FlowStep::Do(FsAction::RemoveIfExists(self.layout.extract.clone()))
    }

    fn finish_err(&mut self, e: String) -> (r: FlowStep)
        ensures
            final(self).stage_view() == Stage::Finished,
            final(self).layout_view() == old(self).layout_view(),
            final(self).windows_view() == old(self).windows_view(),
            final(self).archive_view() == old(self).archive_view(),
            final(self).source_view() == old(self).source_view(),
            final(self).pending_view() == old(self).pending_view(),
            flow_step_view(r) == FlowStepView::Finish(Err(e@)),
    {
        proof {
            use_type_invariant(&*self);
        }
        self.stage = Stage::Finished;
        FlowStep::Finish(Err(e))
    }

    fn go(&mut self, stage: Stage, action: FsAction) -> (r: FlowStep)
        ensures
            final(self).stage_view() == stage,
            final(self).layout_view() == old(self).layout_view(),
            final(self).windows_view() == old(self).windows_view(),
            final(self).archive_view() == old(self).archive_view(),
            final(self).source_view() == old(self).source_view(),
            final(self).pending_view() == old(self).pending_view(),
            flow_step_view(r) == FlowStepView::Do(action_view(action)),
    {
        proof {
            use_type_invariant(&*self);
        }
        self.stage = stage;
        FlowStep::Do(action)
    }

    /// The next step, given how the last one ended.
    pub fn on_outcome(&mut self, o: Outcome) -> (r: FlowStep)
        requires
            accepts_outcome(old(self).stage_view(), o),
        ensures
            final(self).layout_view() == old(self).layout_view(),
            final(self).windows_view() == old(self).windows_view(),
            final(self).archive_view() == old(self).archive_view(),
            stage_rank(final(self).stage_view()) > stage_rank(old(self).stage_view()),
            final(self).stage_view() == stage_after(
                old(self).stage_view(),
                o,
                same_path_seq(
                    old(self).source_view()@,
                    old(self).layout_view().extract@,
                    old(self).windows_view(),
                ),
            ),
            final(self).source_view()@ == match (old(self).stage_view(), o) {
                (Stage::Resolve, Outcome::Source(s)) => s@,
                _ => old(self).source_view()@,
            },
            final(self).pending_view()@ == match (old(self).stage_view(), o) {
                (Stage::Unpack, Outcome::Failed(e)) => e@,
                (Stage::Resolve, Outcome::Failed(e)) => e@,
                (Stage::CheckContent, Outcome::Failed(e)) => e@,
                (Stage::SwapIn, Outcome::Failed(e)) => e@,
                _ => old(self).pending_view()@,
            },
            (final(self).stage_view() == Stage::Finished) == (flow_step_view(r) is Finish),
            flow_step_view(r) matches FlowStepView::Do(a) ==> action_allowed(
                a,
                final(self).layout_view(),
                final(self).archive_view()@,
                final(self).source_view()@,
            ),
            ({
                let l = old(self).layout_view();
                let src = final(self).source_view()@;
                match (old(self).stage_view(), o) {
                    (Stage::RemoveStale, Outcome::Done) => flow_step_view(r) == FlowStepView::Do(
                        ActionView::CreateDirAll(l.extract@)),
                    (Stage::CreateScratch, Outcome::Done) => flow_step_view(r) == FlowStepView::Do(
                        ActionView::ExtractArchive(old(self).archive_view()@, l.extract@)),
                    (Stage::Unpack, Outcome::Done) => flow_step_view(r) == FlowStepView::Do(
                        ActionView::ResolveSource(l.extract@)),
                    (Stage::Unpack, Outcome::Failed(e)) => final(self).pending_view() == e
                        && flow_step_view(r) == FlowStepView::Do(ActionView::RemoveIfExists(l.extract@)),
                    (Stage::Resolve, Outcome::Source(s)) => src == s@ && flow_step_view(r)
                        == FlowStepView::Do(ActionView::CheckNotEmpty(s@)),
                    (Stage::Resolve, Outcome::Failed(e)) => final(self).pending_view() == e
                        && flow_step_view(r) == FlowStepView::Do(ActionView::RemoveIfExists(l.extract@)),
                    (Stage::CheckContent, Outcome::Flag(true)) => flow_step_view(r)
                        == FlowStepView::Do(ActionView::RemoveIfExists(l.incoming@)),
                    (Stage::CheckContent, Outcome::Flag(false)) => flow_step_view(r)
                        == FlowStepView::Do(ActionView::RemoveIfExists(l.extract@)),
                    (Stage::CheckContent, Outcome::Failed(e)) => final(self).pending_view() == e
                        && flow_step_view(r) == FlowStepView::Do(ActionView::RemoveIfExists(l.extract@)),
                    (Stage::RemoveEmpty, Outcome::Done) => flow_step_view(r) == FlowStepView::Finish(
                        Err(EMPTY_ARCHIVE@)),
                    (Stage::ClearIncoming, Outcome::Done) => flow_step_view(r) == FlowStepView::Do(
                        ActionView::Rename(old(self).source_view()@, l.incoming@)),
                    (Stage::MoveIn, Outcome::Done) => if same_path_seq(
                        old(self).source_view()@,
                        l.extract@,
                        old(self).windows_view(),
                    ) {
                        flow_step_view(r) == FlowStepView::Do(ActionView::RemoveIfExists(l.previous@))
                    } else {
                        flow_step_view(r) == FlowStepView::Do(ActionView::RemoveIfExists(l.extract@))
                    },
                    (Stage::DropScratch, _) => flow_step_view(r) == FlowStepView::Do(
                        ActionView::RemoveIfExists(l.previous@)),
                    (Stage::ClearPrevious, Outcome::Done) => flow_step_view(r) == FlowStepView::Do(
                        ActionView::Exists(l.mods@)),
                    (Stage::CheckMods, Outcome::Flag(true)) => flow_step_view(r) == FlowStepView::Do(
                        ActionView::Rename(l.mods@, l.previous@)),
                    (Stage::CheckMods, Outcome::Flag(false)) => flow_step_view(r) == FlowStepView::Do(
                        ActionView::Rename(l.incoming@, l.mods@)),
                    (Stage::MoveAside, Outcome::Done) => flow_step_view(r) == FlowStepView::Do(
                        ActionView::Rename(l.incoming@, l.mods@)),
                    (Stage::SwapIn, Outcome::Done) => flow_step_view(r) == FlowStepView::Do(
                        ActionView::RemoveIfExists(l.previous@)),
                    (Stage::SwapIn, Outcome::Failed(e)) => final(self).pending_view() == e
                        && flow_step_view(r) == FlowStepView::Do(ActionView::Exists(l.previous@)),
                    (Stage::CheckPrevious, Outcome::Flag(true)) => flow_step_view(r)
                        == FlowStepView::Do(ActionView::Rename(l.previous@, l.mods@)),
                    (Stage::CheckPrevious, Outcome::Flag(false)) => flow_step_view(r)
                        == FlowStepView::Finish(Err(old(self).pending_view()@)),
                    (Stage::RollBack, _) => flow_step_view(r) == FlowStepView::Finish(
                        Err(old(self).pending_view()@)),
                    (Stage::ClearPreviousAfter, Outcome::Done) => flow_step_view(r)
                        == FlowStepView::Finish(Ok(l.mods@)),
                    (Stage::FailAfterCleanup, _) => flow_step_view(r) == FlowStepView::Finish(
                        Err(old(self).pending_view()@)),
                    (_, Outcome::Failed(e)) => flow_step_view(r) == FlowStepView::Finish(Err(e@)),
                    _ => true,
                }
            }),
    {
        proof {
            use_type_invariant(&*self);
            lemma_layout_fields_distinct(self.layout, self.windows);
        }
        let stage = self.stage;
        match (stage, o) {
            (Stage::RemoveStale, Outcome::Done) => {
                let p = self.layout.extract.clone();
                self.go(Stage::CreateScratch, FsAction::CreateDirAll(p))
            },
            (Stage::CreateScratch, Outcome::Done) => {
                let a = self.archive.clone();
                let t = self.layout.extract.clone();
                self.go(Stage::Unpack, FsAction::ExtractArchive { archive: a, target: t })
            },
            (Stage::Unpack, Outcome::Done) => {
                let p = self.layout.extract.clone();
                self.go(Stage::Resolve, FsAction::ResolveSource(p))
            },
            (Stage::Unpack, Outcome::Failed(e)) => self.clean_then_fail(e),
            (Stage::Resolve, Outcome::Source(s)) => {
                self.source = s.clone();
                self.go(Stage::CheckContent, FsAction::CheckNotEmpty(s))
            },
            (Stage::Resolve, Outcome::Failed(e)) => self.clean_then_fail(e),
            (Stage::CheckContent, Outcome::Flag(true)) => {
                let p = self.layout.incoming.clone();
                self.go(Stage::ClearIncoming, FsAction::RemoveIfExists(p))
            },
            (Stage::CheckContent, Outcome::Flag(false)) => {
                let p = self.layout.extract.clone();
                self.go(Stage::RemoveEmpty, FsAction::RemoveIfExists(p))
            },
            (Stage::CheckContent, Outcome::Failed(e)) => self.clean_then_fail(e),
            (Stage::RemoveEmpty, Outcome::Done) => self.finish_err(String::from_str(EMPTY_ARCHIVE)),
            (Stage::ClearIncoming, Outcome::Done) => {
                let from = self.source.clone();
                let to = self.layout.incoming.clone();
                self.go(Stage::MoveIn, FsAction::Rename { from, to })
            },
            (Stage::MoveIn, Outcome::Done) => {
                if same_path(self.source.as_str(), self.layout.extract.as_str(), self.windows) {
                    let p = self.layout.previous.clone();
                    self.go(Stage::ClearPrevious, FsAction::RemoveIfExists(p))
                } else {
                    let p = self.layout.extract.clone();
                    self.go(Stage::DropScratch, FsAction::RemoveIfExists(p))
                }
            },
            (Stage::DropScratch, _) => {
                let p = self.layout.previous.clone();
                self.go(Stage::ClearPrevious, FsAction::RemoveIfExists(p))
            },
            (Stage::ClearPrevious, Outcome::Done) => {
                let p = self.layout.mods.clone();
                self.go(Stage::CheckMods, FsAction::Exists(p))
            },
            (Stage::CheckMods, Outcome::Flag(true)) => {
                let from = self.layout.mods.clone();
                let to = self.layout.previous.clone();
                self.go(Stage::MoveAside, FsAction::Rename { from, to })
            },
            (Stage::CheckMods, Outcome::Flag(false)) | (Stage::MoveAside, Outcome::Done) => {
                let from = self.layout.incoming.clone();
                let to = self.layout.mods.clone();
                self.go(Stage::SwapIn, FsAction::Rename { from, to })
            },
            (Stage::SwapIn, Outcome::Done) => {
                let p = self.layout.previous.clone();
                self.go(Stage::ClearPreviousAfter, FsAction::RemoveIfExists(p))
            },
            (Stage::SwapIn, Outcome::Failed(e)) => {
                self.pending_error = e;
                let p = self.layout.previous.clone();
                self.go(Stage::CheckPrevious, FsAction::Exists(p))
            },
            (Stage::CheckPrevious, Outcome::Flag(true)) => {
                let from = self.layout.previous.clone();
                let to = self.layout.mods.clone();
                self.go(Stage::RollBack, FsAction::Rename { from, to })
            },
            (Stage::CheckPrevious, Outcome::Flag(false)) | (Stage::RollBack, _) | (
                Stage::FailAfterCleanup,
                _,
            ) => {
                let e = self.pending_error.clone();
                self.finish_err(e)
            },
            (Stage::ClearPreviousAfter, Outcome::Done) => {
                self.stage = Stage::Finished;
                FlowStep::Finish(Ok(self.layout.mods.clone()))
            },
            (_, Outcome::Failed(e)) => self.finish_err(e),
            (_, _) => self.finish_err(String::new()),
        }
    }
}

} // verus!
