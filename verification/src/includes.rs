//! Taking in the fragments that the steps of a plan use.
//!
//! The documents that are being taken in stand on a stack, the plan itself at its
//! bottom. One step is looked at at a time; reading a fragment is left to the caller.

use vstd::prelude::*;
use vstd::string::*;

use crate::cloud_init::{
    cloud_init_error, merge_cloud_init_mappings, merged_entries, validate_cloud_init_fragment,
};
use crate::error::{PlanError, in_context, outcome};
use crate::pairs::{Pair, pairs};
use crate::paths::{is_same_path, same_path};
use crate::sections::{resolve_uses_path, uses_path};
use crate::step::TestStep;
use crate::strings::{cat2, joined};
use crate::text::{join, texts};
use crate::value::{Entry, EntryView, entry_views};

verus! {

/// How many documents may stand on the stack at once, the plan itself included.
pub const MAX_INCLUDE_DEPTH: usize = 32;

/// A step that takes in a fragment.
#[derive(Debug, PartialEq, Eq)]
pub struct TestStepInclude {
    pub uses: String,
    pub with: Vec<(String, String)>,
}

/// A step as a document writes it.
#[derive(Debug)]
pub enum RawTestStep {
    Step(TestStep),
    Include(TestStepInclude),
}

/// A document that is being taken in.
#[derive(Debug)]
pub struct Frame {
    file: String,
    pending: Vec<RawTestStep>,
    expanded: Vec<TestStep>,
    cloud_init: Option<Vec<Entry>>,
}

/// The model of a [`Frame`]: its file, the steps still to be looked at, the steps they
/// have made so far, and the cloud-config.
pub struct FrameView {
    pub file: Seq<char>,
    pub pending: Seq<RawTestStep>,
    pub expanded: Seq<TestStep>,
    pub cloud_init: Option<Seq<EntryView>>,
}

/// The contents of an optional cloud-config.
pub open spec fn config_view(c: Option<Vec<Entry>>) -> Option<Seq<EntryView>> {
    match c {
        Some(entries) => Some(entry_views(entries@)),
        None => None,
    }
}

impl View for Frame {
    type V = FrameView;

    closed spec fn view(&self) -> FrameView {
        FrameView {
            file: self.file@,
            pending: self.pending@,
            expanded: self.expanded@,
            cloud_init: config_view(self.cloud_init),
        }
    }
}

/// What is to be done next.
#[derive(Debug)]
pub enum IncludeAction {
    /// Look at the next step.
    Continue,
    /// Read the fragment at `path` and hand over what it holds.
    Load { path: String, uses: String, with: Vec<(String, String)> },
    /// Give up.
    Fail(PlanError),
    /// Nothing: these are the steps and the cloud-config of the plan.
    Done { steps: Vec<TestStep>, cloud_init: Option<Vec<Entry>> },
}

/// The model of an [`IncludeAction`].
pub enum IncludeActionView {
    Continue,
    Load { path: Seq<char>, uses: Seq<char>, with: Seq<Pair> },
    Fail(Seq<char>),
    Done { steps: Seq<TestStep>, cloud_init: Option<Seq<EntryView>> },
}

impl View for IncludeAction {
    type V = IncludeActionView;

    open spec fn view(&self) -> IncludeActionView {
        match self {
            IncludeAction::Continue => IncludeActionView::Continue,
            IncludeAction::Load { path, uses, with } => IncludeActionView::Load {
                path: path@,
                uses: uses@,
                with: pairs(with@),
            },
            IncludeAction::Fail(e) => IncludeActionView::Fail(e@),
            IncludeAction::Done { steps, cloud_init } => IncludeActionView::Done {
                steps: steps@,
                cloud_init: config_view(*cloud_init),
            },
        }
    }
}

/// The documents that are being taken in.
#[derive(Debug)]
pub struct Includes {
    repo_root: String,
    frames: Vec<Frame>,
}

/// The contents of a stack of documents.
pub open spec fn frame_views(frames: Seq<Frame>) -> Seq<FrameView> {
    frames.map_values(|f: Frame| f@)
}

/// The files of a stack of documents.
pub open spec fn files_of(frames: Seq<FrameView>) -> Seq<Seq<char>> {
    frames.map_values(|f: FrameView| f.file)
}

/// Whether a file is one of `files`, however its path is written.
pub open spec fn is_among(files: Seq<Seq<char>>, path: Seq<char>) -> bool {
    exists|i: int| 0 <= i < files.len() && same_path(#[trigger] files[i], path)
}

/// The way from the plan to `path`.
pub open spec fn chain(frames: Seq<FrameView>, path: Seq<char>) -> Seq<char> {
    join(files_of(frames).push(path), " -> "@)
}

/// A cloud-config with that of a fragment laid over it.
pub open spec fn merged_config(
    base: Option<Seq<EntryView>>,
    fragment: Option<Seq<EntryView>>,
) -> Option<Seq<EntryView>> {
    match (base, fragment) {
        (_, None) => base,
        (None, Some(f)) => Some(f),
        (Some(b), Some(f)) => Some(merged_entries(b, f, f.len())),
    }
}

/// Looks at the next step: the stack afterwards, and what is to be done.
pub open spec fn next_include(root: Seq<char>, frames: Seq<FrameView>) -> (
    Seq<FrameView>,
    IncludeActionView,
)
    recommends
        frames.len() > 0,
{
    let top = frames.last();
    let below = frames.drop_last();
    if top.pending.len() > 0 {
        let seen = FrameView { pending: top.pending.skip(1), ..top };
        match top.pending[0] {
            RawTestStep::Step(step) => (
                below.push(FrameView { expanded: top.expanded.push(step), ..seen }),
                IncludeActionView::Continue,
            ),
            RawTestStep::Include(taken) => match uses_path(root, taken.uses@) {
                Err(e) => (
                    frames,
                    IncludeActionView::Fail(
                        in_context("invalid test step include in "@ + top.file, e),
                    ),
                ),
                Ok(path) => if is_among(files_of(frames), path) {
                    (
                        frames,
                        IncludeActionView::Fail(
                            "cyclic test step include detected: "@ + chain(frames, path),
                        ),
                    )
                } else if frames.len() >= MAX_INCLUDE_DEPTH {
                    (
                        frames,
                        IncludeActionView::Fail(
                            "test step include depth limit (32) exceeded: "@ + chain(
                                frames,
                                path,
                            ),
                        ),
                    )
                } else {
                    (
                        below.push(seen).push(
                            FrameView {
                                file: path,
                                pending: seq![],
                                expanded: seq![],
                                cloud_init: None,
                            },
                        ),
                        IncludeActionView::Load {
                            path,
                            uses: taken.uses@,
                            with: pairs(taken.with@),
                        },
                    )
                },
            },
        }
    } else if frames.len() == 1 {
        (
            seq![],
            IncludeActionView::Done { steps: top.expanded, cloud_init: top.cloud_init },
        )
    } else {
        let parent = below.last();
        (
            below.drop_last().push(
                FrameView {
                    expanded: parent.expanded + top.expanded,
                    cloud_init: merged_config(parent.cloud_init, top.cloud_init),
                    ..parent
                },
            ),
            IncludeActionView::Continue,
        )
    }
}

impl Includes {
    /// The directory that paths are taken from.
    pub closed spec fn root(&self) -> Seq<char> {
        self.repo_root@
    }

    /// The documents on the stack.
    pub closed spec fn stack(&self) -> Seq<FrameView> {
        frame_views(self.frames@)
    }

    /// A stack with the plan alone.
    pub fn new(
        repo_root: &str,
        file: &str,
        steps: Vec<RawTestStep>,
        cloud_init: Option<Vec<Entry>>,
    ) -> (r: Includes)
        ensures
            r.root() == repo_root@,
            r.stack() == seq![
                FrameView {
                    file: file@,
                    pending: steps@,
                    expanded: seq![],
                    cloud_init: config_view(cloud_init),
                },
            ],
    {
        let frame = Frame {
            file: file.to_owned(),
            pending: steps,
            expanded: Vec::new(),
            cloud_init,
        };
        let mut frames: Vec<Frame> = Vec::new();
        frames.push(frame);
        let r = Includes { repo_root: repo_root.to_owned(), frames };
        assert(frame@.expanded =~= seq![]);
        assert(r.stack() =~= seq![frame@]);
        r
    }

    fn shown_chain(&self, path: &str) -> (r: String)
        ensures
            r@ == chain(self.stack(), path@),
    {
        let mut names: Vec<String> = Vec::new();
        let mut i: usize = 0;
        while i < self.frames.len()
            invariant
                i <= self.frames@.len(),
                names@.len() == i,
                forall|j: int| 0 <= j < i ==> (#[trigger] names@[j])@ == self.frames@[j].file@,
            decreases self.frames@.len() - i,
        {
            names.push(self.frames[i].file.clone());
            i += 1;
        }
        names.push(path.to_owned());
        assert(texts(names@) =~= files_of(self.stack()).push(path@));
        joined(&names, " -> ")
    }

    fn is_open(&self, path: &str) -> (r: bool)
        ensures
            r == is_among(files_of(self.stack()), path@),
    {
        let ghost all = files_of(self.stack());
        let mut i: usize = 0;
        while i < self.frames.len()
            invariant
                i <= self.frames@.len(),
                all == files_of(self.stack()),
                forall|j: int| 0 <= j < i ==> !same_path(#[trigger] all[j], path@),
            decreases self.frames@.len() - i,
        {
            assert(all[i as int] == self.frames@[i as int].file@);
            if is_same_path(self.frames[i].file.as_str(), path) {
                return true;
            }
            i += 1;
        }
        false
    }

    /// Looks at the next step. A fragment that the plan is taking in already is not
    /// taken in again below itself, nor are too many taken in at once.
    pub fn expand_test_steps(&mut self) -> (r: IncludeAction)
        requires
            old(self).stack().len() > 0,
        ensures
            final(self).root() == old(self).root(),
            (final(self).stack(), r@) == next_include(old(self).root(), old(self).stack()),
    {
        let ghost root = self.root();
        let ghost before_step = self.stack();
        let ghost frames = self.frames@;
        assert(before_step.last() == frames.last()@);
        let depth: usize = self.frames.len();
        let top_len: usize = self.frames[depth - 1].pending.len();
        if top_len == 0 {
            if depth == 1 {
                let top = self.frames.pop().unwrap();
                assert(self.stack() =~= seq![]);
                return IncludeAction::Done { steps: top.expanded, cloud_init: top.cloud_init };
            }
            let mut top = self.frames.pop().unwrap();
            let mut parent = self.frames.pop().unwrap();
            let ghost tv = top@;
            let ghost pv = parent@;
            assert(before_step.drop_last().last() == pv);
            parent.expanded.append(&mut top.expanded);
            let merged = match (parent.cloud_init, top.cloud_init) {
                (base, None) => base,
                (None, Some(f)) => Some(f),
                (Some(b), Some(f)) => Some(merge_cloud_init_mappings(b, f)),
            };
            parent.cloud_init = merged;
            assert(config_view(merged) == merged_config(pv.cloud_init, tv.cloud_init));
            assert(entry_views(Seq::<Entry>::empty()) =~= seq![]);
            let ghost new = parent@;
            self.frames.push(parent);
            assert(self.stack() =~= before_step.drop_last().drop_last().push(new));
            return IncludeAction::Continue;
        }
        // A step that fails is left where it stands.
        let include_uses: Option<String> = match &self.frames[depth - 1].pending[0] {
            RawTestStep::Step(_) => None,
            RawTestStep::Include(taken) => Some(taken.uses.clone()),
        };
        let mut path = String::new();
        if let Some(uses) = &include_uses {
            match resolve_uses_path(self.repo_root.as_str(), uses.as_str()) {
                Ok(p) => {
                    path = p;
                },
                Err(e) => {
                    let context = cat2(
                        "invalid test step include in ",
                        self.frames[depth - 1].file.as_str(),
                    );
                    return IncludeAction::Fail(e.within(context.as_str()));
                },
            }
            if self.is_open(path.as_str()) {
                let shown = self.shown_chain(path.as_str());
                return IncludeAction::Fail(
                    PlanError::new(cat2("cyclic test step include detected: ", shown.as_str())),
                );
            }
            if depth >= MAX_INCLUDE_DEPTH {
                let shown = self.shown_chain(path.as_str());
                return IncludeAction::Fail(
                    PlanError::new(
                        cat2("test step include depth limit (32) exceeded: ", shown.as_str()),
                    ),
                );
            }
        }
        let mut top = self.frames.pop().unwrap();
        let ghost tv = top@;
        let first = top.pending.remove(0);
        assert(top.pending@ =~= tv.pending.skip(1));
        match first {
            RawTestStep::Step(step) => {
                top.expanded.push(step);
                let ghost new = top@;
                self.frames.push(top);
                assert(self.stack() =~= before_step.drop_last().push(new));
                IncludeAction::Continue
            },
            RawTestStep::Include(taken) => {
                let ghost new = top@;
                let fresh = Frame {
                    file: path.clone(),
                    pending: Vec::new(),
                    expanded: Vec::new(),
                    cloud_init: None,
                };
                assert(fresh@.pending =~= seq![]);
                assert(fresh@.expanded =~= seq![]);
                let ghost fv = fresh@;
                self.frames.push(top);
                self.frames.push(fresh);
                assert(self.stack() =~= before_step.drop_last().push(new).push(fv));
                IncludeAction::Load { path, uses: taken.uses, with: taken.with }
            },
        }
    }

    /// Takes over what the fragment on top of the stack holds, if its cloud-config is
    /// one that a fragment may have.
    pub fn accept_fragment(
        &mut self,
        steps: Vec<RawTestStep>,
        cloud_init: Option<Vec<Entry>>,
    ) -> (r: Result<(), PlanError>)
        requires
            old(self).stack().len() > 0,
        ensures
            final(self).root() == old(self).root(),
            outcome(
                r,
                match config_view(cloud_init) {
                    Some(c) => cloud_init_error(c, old(self).stack().last().file),
                    None => None,
                },
            ),
            r is Ok ==> final(self).stack() == old(self).stack().drop_last().push(
                FrameView {
                    pending: steps@,
                    cloud_init: config_view(cloud_init),
                    ..old(self).stack().last()
                },
            ),
            r is Err ==> final(self).stack() == old(self).stack(),
    {
        let ghost before_step = self.stack();
        let depth: usize = self.frames.len();
        assert(before_step.last() == self.frames@.last()@);
        if let Some(config) = &cloud_init {
            let checked = validate_cloud_init_fragment(
                config,
                self.frames[depth - 1].file.as_str(),
            );
            if checked.is_err() {
                return checked;
            }
        }
        let mut top = self.frames.pop().unwrap();
        top.pending = steps;
        top.cloud_init = cloud_init;
        let ghost new = top@;
        self.frames.push(top);
        assert(self.stack() =~= before_step.drop_last().push(new));
        Ok(())
    }
}

/// Whether no document stands on the stack twice, and not too many do.
pub open spec fn sound_stack(frames: Seq<FrameView>) -> bool {
    &&& forall|i: int, j: int|
        0 <= i < j < frames.len() ==> !same_path(
            (#[trigger] frames[i]).file,
            (#[trigger] frames[j]).file,
        )
    &&& frames.len() <= MAX_INCLUDE_DEPTH
}

/// A fragment is never taken in below itself, and the stack never grows beyond its
/// limit.
pub proof fn includes_stay_sound(root: Seq<char>, frames: Seq<FrameView>)
    requires
        frames.len() > 0,
        sound_stack(frames),
    ensures
        sound_stack(next_include(root, frames).0),
{
    let (after, action) = next_include(root, frames);
    assert forall|i: int, j: int| 0 <= i < j < after.len() implies !same_path(
        (#[trigger] after[i]).file,
        (#[trigger] after[j]).file,
    ) by {
        if j < frames.len() {
            assert(after[i].file == frames[i].file && after[j].file == frames[j].file);
        } else {
            let files = files_of(frames);
            assert(after[i].file == files[i]);
            assert(!is_among(files, after[j].file));
        }
    }
}

/// Taking in never loses or reorders a step: the steps that a document has made are
/// kept in front while it is being looked at.
pub proof fn expansion_only_appends(root: Seq<char>, frames: Seq<FrameView>)
    requires
        frames.len() > 0,
        next_include(root, frames).1 is Continue,
    ensures
        ({
            let after = next_include(root, frames).0;
            &&& after.len() > 0
            &&& frames[after.len() - 1].expanded.is_prefix_of(after.last().expanded)
        }),
{
    let top = frames.last();
    let after = next_include(root, frames).0;
    if top.pending.len() > 0 {
        assert(frames[after.len() - 1] == top);
        assert(top.expanded =~= after.last().expanded.take(top.expanded.len() as int));
    } else {
        let parent = frames.drop_last().last();
        assert(frames[after.len() - 1] == parent);
        assert(parent.expanded =~= after.last().expanded.take(parent.expanded.len() as int));
    }
}

// ---------------------------------------------------------------------------
// A run as a whole
// ---------------------------------------------------------------------------

/// What a fragment holds: its steps and its cloud-config.
pub type FragmentView = (Seq<RawTestStep>, Option<Seq<EntryView>>);

/// What the files of fragments hold, by path, by how they are used and by the inputs given;
/// nothing where a file cannot be read as a fragment.
pub type Fragments = spec_fn(Seq<char>, Seq<char>, Seq<Pair>) -> Option<FragmentView>;

/// What a fragment holds, if it can be read and its cloud-config is one that a fragment may
/// have.
pub open spec fn fragment_at(
    fragments: Fragments,
    path: Seq<char>,
    uses: Seq<char>,
    with: Seq<Pair>,
) -> Option<FragmentView> {
    match fragments(path, uses, with) {
        Some((steps, Some(config))) => if cloud_init_error(config, path) is None {
            Some((steps, Some(config)))
        } else {
            None
        },
        other => other,
    }
}

/// The steps of a document with those of the fragments that it uses in their places, and its
/// cloud-config with theirs laid over it, in their order. `files` are the documents on the
/// way to this one, with it at the end. Nothing if a fragment cannot be taken in.
pub open spec fn spliced(
    root: Seq<char>,
    fragments: Fragments,
    files: Seq<Seq<char>>,
    steps: Seq<RawTestStep>,
    config: Option<Seq<EntryView>>,
) -> Option<(Seq<TestStep>, Option<Seq<EntryView>>)>
    decreases MAX_INCLUDE_DEPTH - files.len(), steps.len(),
{
    if steps.len() == 0 {
        Some((seq![], config))
    } else {
        match steps[0] {
            RawTestStep::Step(step) => match spliced(
                root,
                fragments,
                files,
                steps.skip(1),
                config,
            ) {
                Some((rest, all)) => Some((seq![step] + rest, all)),
                None => None,
            },
            RawTestStep::Include(taken) => match uses_path(root, taken.uses@) {
                Err(_) => None,
                Ok(path) => if is_among(files, path) || files.len() >= MAX_INCLUDE_DEPTH {
                    None
                } else {
                    match fragment_at(fragments, path, taken.uses@, pairs(taken.with@)) {
                        None => None,
                        Some((inner, inner_config)) => match spliced(
                            root,
                            fragments,
                            files.push(path),
                            inner,
                            inner_config,
                        ) {
                            None => None,
                            Some((front, front_config)) => match spliced(
                                root,
                                fragments,
                                files,
                                steps.skip(1),
                                merged_config(config, front_config),
                            ) {
                                None => None,
                                Some((rest, all)) => Some((front + rest, all)),
                            },
                        },
                    }
                },
            },
        }
    }
}

/// The stack after one turn: a step is looked at, and a fragment that is asked for is handed
/// over. Nothing if that ends the run.
pub open spec fn after_turn(root: Seq<char>, fragments: Fragments, frames: Seq<FrameView>) -> Option<
    Seq<FrameView>,
> {
    let (next, action) = next_include(root, frames);
    match action {
        IncludeActionView::Continue => Some(next),
        IncludeActionView::Load { path, uses, with } => match fragment_at(
            fragments,
            path,
            uses,
            with,
        ) {
            Some((steps, config)) => Some(
                next.drop_last().push(
                    FrameView { pending: steps, cloud_init: config, ..next.last() },
                ),
            ),
            None => None,
        },
        _ => None,
    }
}

/// The stack after `n` turns.
pub open spec fn after_turns(
    root: Seq<char>,
    fragments: Fragments,
    frames: Seq<FrameView>,
    n: nat,
) -> Option<Seq<FrameView>>
    decreases n,
{
    if n == 0 {
        Some(frames)
    } else {
        match after_turn(root, fragments, frames) {
            Some(next) => after_turns(root, fragments, next, (n - 1) as nat),
            None => None,
        }
    }
}

proof fn lemma_more_turns(
    root: Seq<char>,
    fragments: Fragments,
    frames: Seq<FrameView>,
    n: nat,
    m: nat,
)
    requires
        after_turns(root, fragments, frames, n) is Some,
    ensures
        after_turns(root, fragments, frames, n + m) == after_turns(
            root,
            fragments,
            after_turns(root, fragments, frames, n)->0,
            m,
        ),
    decreases n,
{
    if n > 0 {
        let next = after_turn(root, fragments, frames)->0;
        lemma_more_turns(root, fragments, next, (n - 1) as nat, m);
        assert((n + m - 1) as nat == (n - 1) as nat + m);
    }
}

/// Where the documents below `top` stand when `top` was looked through: its steps are done.
spec fn looked_through(
    below: Seq<FrameView>,
    top: FrameView,
    made: (Seq<TestStep>, Option<Seq<EntryView>>),
) -> Seq<FrameView> {
    below.push(
        FrameView {
            file: top.file,
            pending: seq![],
            expanded: top.expanded + made.0,
            cloud_init: made.1,
        },
    )
}

/// How many turns it takes to look through the document on top of the stack, or until a
/// fragment cannot be taken in.
proof fn lemma_look_through(
    root: Seq<char>,
    fragments: Fragments,
    below: Seq<FrameView>,
    top: FrameView,
) -> (n: nat)
    ensures
        ({
            let frames = below.push(top);
            let end = after_turns(root, fragments, frames, n);
            match spliced(root, fragments, files_of(frames), top.pending, top.cloud_init) {
                Some(made) => end == Some(looked_through(below, top, made)),
                None => end is Some && is_stuck(root, fragments, end->0),
            }
        }),
    decreases MAX_INCLUDE_DEPTH - below.len() - 1, top.pending.len(),
{
    let frames = below.push(top);
    let files = files_of(frames);
    assert(frames.drop_last() =~= below);
    assert(frames.last() == top);
    assert(files.len() == frames.len());
    if top.pending.len() == 0 {
        assert(looked_through(below, top, (seq![], top.cloud_init)) =~= frames) by {
            assert(top.expanded + Seq::<TestStep>::empty() =~= top.expanded);
            assert(top.pending =~= seq![]);
        }
        return 0;
    }
    let rest = top.pending.skip(1);
    match top.pending[0] {
        RawTestStep::Step(step) => {
            let seen = FrameView {
                pending: rest,
                expanded: top.expanded.push(step),
                ..top
            };
            let next = below.push(seen);
            assert(after_turn(root, fragments, frames) == Some(next));
            assert(files_of(next) =~= files);
            let n = lemma_look_through(root, fragments, below, seen);
            assert(after_turns(root, fragments, frames, n + 1) == after_turns(
                root,
                fragments,
                next,
                n,
            ));
            if let Some(made) = spliced(root, fragments, files, rest, top.cloud_init) {
                assert(seen.expanded + made.0 =~= top.expanded + (seq![step] + made.0));
            }
            n + 1
        },
        RawTestStep::Include(taken) => {
            let path = match uses_path(root, taken.uses@) {
                Ok(path) => path,
                Err(_) => {
                    return 0;
                },
            };
            if is_among(files, path) || files.len() >= MAX_INCLUDE_DEPTH {
                return 0;
            }
            let seen = FrameView { pending: rest, ..top };
            let lower = below.push(seen);
            match fragment_at(fragments, path, taken.uses@, pairs(taken.with@)) {
                None => 0,
                Some((inner, inner_config)) => {
                    let fresh = FrameView {
                        file: path,
                        pending: inner,
                        expanded: seq![],
                        cloud_init: inner_config,
                    };
                    let deeper = lower.push(fresh);
                    let loaded = next_include(root, frames).0;
                    assert(loaded.drop_last() =~= lower);
                    assert(after_turn(root, fragments, frames) == Some(deeper));
                    assert(files_of(deeper) =~= files.push(path));
                    let a = lemma_look_through(root, fragments, lower, fresh);
                    assert(after_turns(root, fragments, frames, a + 1) == after_turns(
                        root,
                        fragments,
                        deeper,
                        a,
                    ));
                    match spliced(root, fragments, files.push(path), inner, inner_config) {
                        None => a + 1,
                        Some((front, front_config)) => {
                            let full = looked_through(lower, fresh, (front, front_config));
                            let back = FrameView {
                                pending: rest,
                                expanded: top.expanded + front,
                                cloud_init: merged_config(top.cloud_init, front_config),
                                ..top
                            };
                            let popped = below.push(back);
                            assert(full.drop_last() =~= lower);
                            assert(lower.drop_last() =~= below);
                            assert(full.last().expanded =~= front);
                            assert(after_turn(root, fragments, full) == Some(popped));
                            assert(after_turns(root, fragments, full, 1) == Some(popped)) by {
                                reveal_with_fuel(after_turns, 2);
                            }
                            lemma_more_turns(root, fragments, frames, a + 1, 1);
                            assert(files_of(popped) =~= files);
                            let b = lemma_look_through(root, fragments, below, back);
                            lemma_more_turns(root, fragments, frames, a + 2, b);
                            if let Some((more, _)) = spliced(
                                root,
                                fragments,
                                files,
                                rest,
                                back.cloud_init,
                            ) {
                                assert(top.expanded + front + more =~= top.expanded + (front
                                    + more));
                            }
                            a + 2 + b
                        },
                    }
                },
            }
        },
    }
}

/// Whether a run ends here because a fragment cannot be taken in: its path is refused, it is
/// taken in already, there are too many, or it cannot be read as a fragment.
pub open spec fn is_stuck(root: Seq<char>, fragments: Fragments, frames: Seq<FrameView>) -> bool {
    match next_include(root, frames).1 {
        IncludeActionView::Fail(_) => true,
        IncludeActionView::Load { path, uses, with } => fragment_at(fragments, path, uses, with)
            is None,
        _ => false,
    }
}

/// Whether a run ends here with those steps and that cloud-config.
pub open spec fn is_done(
    root: Seq<char>,
    frames: Seq<FrameView>,
    made: (Seq<TestStep>, Option<Seq<EntryView>>),
) -> bool {
    next_include(root, frames).1 == (IncludeActionView::Done {
        steps: made.0,
        cloud_init: made.1,
    })
}

/// Taking in the fragments of a plan comes to an end, and what it gives is the plan with the
/// steps of the fragments in the places where they are used, and with their cloud-configs
/// laid over its own in that order; or it fails exactly if one of them cannot be taken in.
pub proof fn plans_are_spliced(root: Seq<char>, fragments: Fragments, plan: FrameView)
    requires
        plan.expanded.len() == 0,
    ensures
        exists|n: nat|
            {
                let end = #[trigger] after_turns(root, fragments, seq![plan], n);
                end is Some && match spliced(
                    root,
                    fragments,
                    seq![plan.file],
                    plan.pending,
                    plan.cloud_init,
                ) {
                    Some(made) => is_done(root, end->0, made),
                    None => is_stuck(root, fragments, end->0),
                }
            },
{
    let none = Seq::<FrameView>::empty();
    assert(none.push(plan) =~= seq![plan]);
    assert(files_of(seq![plan]) =~= seq![plan.file]);
    let n = lemma_look_through(root, fragments, none, plan);
    let end = after_turns(root, fragments, seq![plan], n);
    if let Some(made) = spliced(
        root,
        fragments,
        seq![plan.file],
        plan.pending,
        plan.cloud_init,
    ) {
        assert(plan.expanded + made.0 =~= made.0);
        assert(is_done(root, end->0, made));
    }
}

proof fn lemma_ends_once(
    root: Seq<char>,
    fragments: Fragments,
    frames: Seq<FrameView>,
    n: nat,
    m: nat,
)
    requires
        after_turns(root, fragments, frames, n) is Some,
        after_turn(root, fragments, after_turns(root, fragments, frames, n)->0) is None,
        after_turns(root, fragments, frames, m) is Some,
    ensures
        m <= n,
{
    if m > n {
        lemma_more_turns(root, fragments, frames, n, (m - n) as nat);
    }
}

/// Whenever taking in the fragments of a plan is done, what it gives is the plan with the
/// steps of the fragments in their places.
pub proof fn done_means_spliced(
    root: Seq<char>,
    fragments: Fragments,
    plan: FrameView,
    n: nat,
    made: (Seq<TestStep>, Option<Seq<EntryView>>),
)
    requires
        plan.expanded.len() == 0,
        after_turns(root, fragments, seq![plan], n) is Some,
        is_done(root, after_turns(root, fragments, seq![plan], n)->0, made),
    ensures
        spliced(root, fragments, seq![plan.file], plan.pending, plan.cloud_init) == Some(made),
{
    plans_are_spliced(root, fragments, plan);
    let whole = spliced(root, fragments, seq![plan.file], plan.pending, plan.cloud_init);
    let m = choose|m: nat|
        {
            let end = #[trigger] after_turns(root, fragments, seq![plan], m);
            end is Some && match whole {
                Some(made) => is_done(root, end->0, made),
                None => is_stuck(root, fragments, end->0),
            }
        };
    lemma_ends_once(root, fragments, seq![plan], n, m);
    lemma_ends_once(root, fragments, seq![plan], m, n);
    assert(n == m);
}

} // verus!
