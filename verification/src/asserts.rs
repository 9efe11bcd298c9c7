//! The assertions of a plan, one kind after another, and those that plugins provide.

use vstd::prelude::*;
use vstd::string::*;

use crate::document::AssertBlock;
use crate::error::{PlanError, outcome};
use crate::staging::opt_error;
use crate::strings::{cat2, cat4, cat7, joined, same};
use crate::text::{join, texts};

verus! {

/// A kind of assertion that is built in.
#[derive(Clone, Copy, Debug, PartialEq, Eq, Structural)]
pub enum AssertVerb {
    Files,
    Users,
    Groups,
    Packages,
    Services,
}

impl AssertVerb {
    /// The word that names the kind.
    pub open spec fn word(self) -> Seq<char> {
        match self {
            AssertVerb::Files => "files"@,
            AssertVerb::Users => "users"@,
            AssertVerb::Groups => "groups"@,
            AssertVerb::Packages => "packages"@,
            AssertVerb::Services => "services"@,
        }
    }

    /// The word that names the kind.
    pub fn as_str(self) -> (r: &'static str)
        ensures
            r@ == self.word(),
    {
        match self {
            AssertVerb::Files => "files",
            AssertVerb::Users => "users",
            AssertVerb::Groups => "groups",
            AssertVerb::Packages => "packages",
            AssertVerb::Services => "services",
        }
    }

    /// How many assertions of the kind a block holds.
    pub open spec fn count_in(self, block: AssertBlock) -> nat {
        match self {
            AssertVerb::Files => block.files@.len(),
            AssertVerb::Users => block.users@.len(),
            AssertVerb::Groups => block.groups@.len(),
            AssertVerb::Packages => block.packages@.len(),
            AssertVerb::Services => block.services@.len(),
        }
    }

    fn is_in(self, block: &AssertBlock) -> (r: bool)
        ensures
            r == (self.count_in(*block) > 0),
    {
        match self {
            AssertVerb::Files => block.files.len() > 0,
            AssertVerb::Users => block.users.len() > 0,
            AssertVerb::Groups => block.groups.len() > 0,
            AssertVerb::Packages => block.packages.len() > 0,
            AssertVerb::Services => block.services.len() > 0,
        }
    }
}

/// The kinds of assertion that are built in, in the order in which they are checked.
pub open spec fn all_verbs() -> Seq<AssertVerb> {
    seq![
        AssertVerb::Files,
        AssertVerb::Users,
        AssertVerb::Groups,
        AssertVerb::Packages,
        AssertVerb::Services,
    ]
}

/// The kinds of assertion that are built in, in the order in which they are checked.
pub fn known_verbs() -> (r: Vec<AssertVerb>)
    ensures
        r@ == all_verbs(),
{
    let r: Vec<AssertVerb> = vec![
        AssertVerb::Files,
        AssertVerb::Users,
        AssertVerb::Groups,
        AssertVerb::Packages,
        AssertVerb::Services,
    ];
    assert(r@ =~= all_verbs());
    r
}

/// The kinds that a block holds assertions of, among the first `n`.
pub open spec fn held_verbs(block: AssertBlock, n: nat) -> Seq<AssertVerb>
    decreases n,
{
    if n == 0 {
        seq![]
    } else {
        let front = held_verbs(block, (n - 1) as nat);
        let verb = all_verbs()[n - 1];
        if verb.count_in(block) > 0 {
            front.push(verb)
        } else {
            front
        }
    }
}

/// The kinds that a block holds assertions of, in the order in which they are checked.
pub fn verbs_of(block: &AssertBlock) -> (r: Vec<AssertVerb>)
    ensures
        r@ == held_verbs(*block, all_verbs().len()),
{
    let all = known_verbs();
    let mut r: Vec<AssertVerb> = Vec::new();
    assert(r@ =~= seq![]);
    let mut i: usize = 0;
    while i < all.len()
        invariant
            i <= all@.len(),
            all@ == all_verbs(),
            r@ == held_verbs(*block, i as nat),
        decreases all@.len() - i,
    {
        if all[i].is_in(block) {
            r.push(all[i]);
        }
        i += 1;
    }
    r
}

/// The words that name the kinds.
pub open spec fn verb_words(verbs: Seq<AssertVerb>) -> Seq<Seq<char>> {
    verbs.map_values(|v: AssertVerb| v.word())
}

/// The message that no plugin provides an assertion.
pub open spec fn unknown_verb(verb: Seq<char>, provided: Seq<Seq<char>>) -> Seq<char> {
    let names = join(provided, ", "@);
    "no assert provider for verb '"@ + verb + "' (built-in verbs: "@ + join(
        verb_words(all_verbs()),
        ", "@,
    ) + "; "@ + (if names.len() == 0 {
        "(no plugin-provided assert verbs loaded)"@
    } else {
        "plugin verbs: "@ + names
    }) + ")"@
}

fn unknown_verb_error(verb: &str, provided: &Vec<String>) -> (e: PlanError)
    ensures
        e@ == unknown_verb(verb@, texts(provided@)),
{
    let all = known_verbs();
    let ghost words = verb_words(all_verbs());
    let mut parts: Vec<String> = Vec::new();
    assert(texts(parts@) =~= words.take(0));
    let mut i: usize = 0;
    while i < all.len()
        invariant
            i <= all@.len(),
            all@ == all_verbs(),
            words == verb_words(all_verbs()),
            texts(parts@) == words.take(i as int),
        decreases all@.len() - i,
    {
        let ghost had = texts(parts@);
        parts.push(all[i].as_str().to_owned());
        assert(texts(parts@) =~= had.push(words[i as int]));
        assert(texts(parts@) =~= words.take(i + 1));
        i += 1;
    }
    assert(words.take(i as int) =~= words);
    let builtins = joined(&parts, ", ");
    let names = joined(provided, ", ");
    let plugins = if names.as_str().is_empty() {
        "(no plugin-provided assert verbs loaded)".to_owned()
    } else {
        cat2("plugin verbs: ", names.as_str())
    };
    PlanError::new(
        cat7(
            "no assert provider for verb '",
            verb,
            "' (built-in verbs: ",
            builtins.as_str(),
            "; ",
            plugins.as_str(),
            ")",
        ),
    )
}

// ---------------------------------------------------------------------------
// One assertion after another
// ---------------------------------------------------------------------------

/// How far the checking of assertions has come.
#[derive(Clone, Copy, Debug, PartialEq, Eq, Structural)]
pub enum AssertStage {
    Start,
    /// The built-in kind with that number is checked.
    Builtin(usize),
    /// The settings of the plugin assertion with that number are written out.
    Serialize(usize),
    /// The plugin makes its probe.
    BuildProbe(usize),
    /// The probe runs in the guest.
    Probe(usize),
    /// The plugin judges what the probe printed.
    Evaluate(usize),
    /// What the plugin found is reported.
    Checks(usize),
    Finished,
}

/// The checking of assertions.
#[derive(Debug, PartialEq, Eq)]
pub struct AssertPhase {
    /// The built-in kinds to check.
    pub verbs: Vec<AssertVerb>,
    /// The plugin assertions to check.
    pub plugins: Vec<String>,
    /// The assertions that plugins provide.
    pub provided: Vec<String>,
    pub stage: AssertStage,
    pub failure: Option<PlanError>,
}

/// What to do next.
#[derive(Debug, PartialEq, Eq)]
pub enum AssertAction {
    /// Check the assertions of a built-in kind.
    RunBuiltin(AssertVerb),
    /// Write the settings of the plugin assertion with that number out.
    Serialize(usize),
    /// Have the plugin make its probe.
    BuildProbe(usize),
    /// Run the probe in the guest.
    RunProbe(usize),
    /// Have the plugin judge what the probe printed.
    Evaluate(usize),
    /// Report what the plugin found.
    ReportChecks(usize),
    Done(Result<(), PlanError>),
}

impl AssertPhase {
    /// Checking that has not begun.
    pub fn new(block: &AssertBlock, plugins: Vec<String>, provided: Vec<String>) -> (r: AssertPhase)
        ensures
            r.wf(),
            r.verbs@ == held_verbs(*block, all_verbs().len()),
            r.plugins == plugins,
            r.provided == provided,
            r.stage == AssertStage::Start,
            r.failure is None,
    {
        AssertPhase {
            verbs: verbs_of(block),
            plugins,
            provided,
            stage: AssertStage::Start,
            failure: None,
        }
    }

    /// The assertion that is dealt with is there, and a failure has ended the checking.
    pub open spec fn wf(self) -> bool {
        &&& match self.stage {
            AssertStage::Builtin(i) => i < self.verbs@.len(),
            AssertStage::Serialize(i) => i < self.plugins@.len(),
            AssertStage::BuildProbe(i) => i < self.plugins@.len(),
            AssertStage::Probe(i) => i < self.plugins@.len(),
            AssertStage::Evaluate(i) => i < self.plugins@.len(),
            AssertStage::Checks(i) => i < self.plugins@.len(),
            _ => true,
        }
        &&& self.failure is Some ==> self.stage == AssertStage::Finished
    }

    /// Whether a plugin provides the assertion with the number `i`.
    pub open spec fn provides(self, i: int) -> bool {
        texts(self.provided@).contains(self.plugins@[i]@)
    }

    /// The stage of the plugin assertion `i`, or the end.
    pub open spec fn plugin_stage(self, i: int) -> AssertStage {
        if i < self.plugins@.len() && self.provides(i) {
            AssertStage::Serialize(i as usize)
        } else {
            AssertStage::Finished
        }
    }

    /// The stage of the built-in kind `i`, or the one behind.
    pub open spec fn builtin_stage(self, i: int) -> AssertStage {
        if i < self.verbs@.len() {
            AssertStage::Builtin(i as usize)
        } else {
            self.plugin_stage(0)
        }
    }

    /// The stage that follows one that went well.
    pub open spec fn next_stage(self) -> AssertStage {
        match self.stage {
            AssertStage::Start => self.builtin_stage(0),
            AssertStage::Builtin(i) => self.builtin_stage(i + 1),
            AssertStage::Serialize(i) => AssertStage::BuildProbe(i),
            AssertStage::BuildProbe(i) => AssertStage::Probe(i),
            AssertStage::Probe(i) => AssertStage::Evaluate(i),
            AssertStage::Evaluate(i) => AssertStage::Checks(i),
            AssertStage::Checks(i) => self.plugin_stage(i + 1),
            AssertStage::Finished => AssertStage::Finished,
        }
    }

    /// The plugin assertion whose turn comes after this stage, if there is one.
    pub open spec fn upcoming(self) -> int {
        match self.stage {
            AssertStage::Start => if self.verbs@.len() == 0 {
                0
            } else {
                -1
            },
            AssertStage::Builtin(i) => if i + 1 >= self.verbs@.len() {
                0
            } else {
                -1
            },
            AssertStage::Checks(i) => i + 1,
            _ => -1,
        }
    }

    /// The error of a stage whose action failed.
    pub open spec fn stage_error(self, e: Seq<char>) -> Seq<char> {
        match self.stage {
            AssertStage::Serialize(i) => "assert."@ + self.plugins@[i as int]@
                + ": failed to serialize config to JSON: "@ + e,
            AssertStage::BuildProbe(i) => "assert."@ + self.plugins@[i as int]@
                + ": build_probe failed: "@ + e,
            AssertStage::Probe(i) => "assert."@ + self.plugins@[i as int]@ + ": probe failed: "@
                + e,
            AssertStage::Evaluate(i) => "assert."@ + self.plugins@[i as int]@
                + ": evaluate failed: "@ + e,
            _ => e,
        }
    }

    /// How the checking ends after the last action ended as `last` says, if it fails.
    pub open spec fn ending(self, last: Result<(), PlanError>) -> Option<Seq<char>> {
        match last {
            Err(e) => Some(self.stage_error(e@)),
            Ok(()) => if 0 <= self.upcoming() < self.plugins@.len() && !self.provides(
                self.upcoming(),
            ) {
                Some(
                    unknown_verb(
                        self.plugins@[self.upcoming()]@,
                        texts(self.provided@),
                    ),
                )
            } else {
                None
            },
        }
    }
}

fn contains_text(list: &Vec<String>, s: &str) -> (r: bool)
    ensures
        r == texts(list@).contains(s@),
{
    let ghost all = texts(list@);
    let mut i: usize = 0;
    while i < list.len()
        invariant
            i <= list@.len(),
            all == texts(list@),
            forall|k: int| 0 <= k < i ==> #[trigger] all[k] != s@,
        decreases list@.len() - i,
    {
        assert(all[i as int] == list@[i as int]@);
        if same(list[i].as_str(), s) {
            return true;
        }
        i += 1;
    }
    false
}

fn failed_stage(state: &AssertPhase, error: &PlanError) -> (e: PlanError)
    requires
        state.wf(),
    ensures
        e@ == state.stage_error(error@),
{
    let (i, what): (usize, &str) = match state.stage {
        AssertStage::Serialize(i) => (i, ": failed to serialize config to JSON: "),
        AssertStage::BuildProbe(i) => (i, ": build_probe failed: "),
        AssertStage::Probe(i) => (i, ": probe failed: "),
        AssertStage::Evaluate(i) => (i, ": evaluate failed: "),
        _ => {
            return error.clone();
        },
    };
    PlanError::new(
        cat4("assert.", state.plugins[i].as_str(), what, error.message.as_str()),
    )
}

/// What the checking does in a stage.
pub open spec fn assert_acts(state: AssertPhase, action: AssertAction) -> bool {
    match state.stage {
        AssertStage::Start => false,
        AssertStage::Builtin(i) => action == AssertAction::RunBuiltin(state.verbs@[i as int]),
        AssertStage::Serialize(i) => action == AssertAction::Serialize(i),
        AssertStage::BuildProbe(i) => action == AssertAction::BuildProbe(i),
        AssertStage::Probe(i) => action == AssertAction::RunProbe(i),
        AssertStage::Evaluate(i) => action == AssertAction::Evaluate(i),
        AssertStage::Checks(i) => action == AssertAction::ReportChecks(i),
        AssertStage::Finished => action matches AssertAction::Done(r) && outcome(
            r,
            opt_error(state.failure),
        ),
    }
}

impl AssertPhase {
    /// Goes on to the plugin assertion `i`, or ends.
    fn go_to_plugin(&mut self, i: usize)
        requires
            old(self).failure is None,
        ensures
            final(self).wf(),
            final(self).verbs == old(self).verbs,
            final(self).plugins == old(self).plugins,
            final(self).provided == old(self).provided,
            final(self).stage == old(self).plugin_stage(i as int),
            opt_error(final(self).failure) == if i < old(self).plugins@.len() && !old(
                self,
            ).provides(i as int) {
                Some(unknown_verb(old(self).plugins@[i as int]@, texts(old(self).provided@)))
            } else {
                None
            },
    {
        if i >= self.plugins.len() {
            self.stage = AssertStage::Finished;
            return;
        }
        if contains_text(&self.provided, self.plugins[i].as_str()) {
            self.stage = AssertStage::Serialize(i);
        } else {
            self.failure = Some(unknown_verb_error(self.plugins[i].as_str(), &self.provided));
            self.stage = AssertStage::Finished;
        }
    }

    /// Goes on to the built-in kind `i`, or to the plugin assertions.
    fn go_to_builtin(&mut self, i: usize)
        requires
            old(self).failure is None,
        ensures
            final(self).wf(),
            final(self).verbs == old(self).verbs,
            final(self).plugins == old(self).plugins,
            final(self).provided == old(self).provided,
            final(self).stage == old(self).builtin_stage(i as int),
            opt_error(final(self).failure) == if i >= old(self).verbs@.len() && 0 < old(
                self,
            ).plugins@.len() && !old(self).provides(0) {
                Some(unknown_verb(old(self).plugins@[0]@, texts(old(self).provided@)))
            } else {
                None
            },
    {
        if i < self.verbs.len() {
            self.stage = AssertStage::Builtin(i);
        } else {
            self.go_to_plugin(0);
        }
    }
}

fn assert_action(state: &AssertPhase) -> (action: AssertAction)
    requires
        state.wf(),
        state.stage != AssertStage::Start,
    ensures
        assert_acts(*state, action),
{
    match state.stage {
        AssertStage::Builtin(i) => AssertAction::RunBuiltin(state.verbs[i]),
        AssertStage::Serialize(i) => AssertAction::Serialize(i),
        AssertStage::BuildProbe(i) => AssertAction::BuildProbe(i),
        AssertStage::Probe(i) => AssertAction::RunProbe(i),
        AssertStage::Evaluate(i) => AssertAction::Evaluate(i),
        AssertStage::Checks(i) => AssertAction::ReportChecks(i),
        AssertStage::Start | AssertStage::Finished => match &state.failure {
            Some(e) => AssertAction::Done(Err(e.clone())),
            None => AssertAction::Done(Ok(())),
        },
    }
}

/// Checks the assertions of a plan: takes how the last action ended and says what to do
/// next. The built-in kinds come first, then the assertions that plugins provide; what
/// fails ends the checking.
pub fn run_assert_phase(state: &mut AssertPhase, last: &Result<(), PlanError>) -> (action:
    AssertAction)
    requires
        old(state).wf(),
        old(state).stage != AssertStage::Finished,
        old(state).stage == AssertStage::Start ==> *last is Ok,
    ensures
        final(state).wf(),
        final(state).verbs == old(state).verbs,
        final(state).plugins == old(state).plugins,
        final(state).provided == old(state).provided,
        final(state).stage == if old(state).ending(*last) is Some {
            AssertStage::Finished
        } else {
            old(state).next_stage()
        },
        opt_error(final(state).failure) == old(state).ending(*last),
        assert_acts(*final(state), action),
{
    if let Err(e) = last {
        state.failure = Some(failed_stage(state, e));
        state.stage = AssertStage::Finished;
        return assert_action(state);
    }
    let verbs: usize = state.verbs.len();
    let plugins: usize = state.plugins.len();
    match state.stage {
        AssertStage::Start => {
            state.go_to_builtin(0);
        },
        AssertStage::Builtin(i) => {
            assert(i < verbs);
            state.go_to_builtin(i + 1);
        },
        AssertStage::Serialize(i) => {
            state.stage = AssertStage::BuildProbe(i);
        },
        AssertStage::BuildProbe(i) => {
            state.stage = AssertStage::Probe(i);
        },
        AssertStage::Probe(i) => {
            state.stage = AssertStage::Evaluate(i);
        },
        AssertStage::Evaluate(i) => {
            state.stage = AssertStage::Checks(i);
        },
        AssertStage::Checks(i) => {
            assert(i < plugins);
            state.go_to_plugin(i + 1);
        },
        AssertStage::Finished => {},
    }
    assert_action(state)
}

} // verus!
