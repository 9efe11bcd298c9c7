//! Outputs of steps: capturing them, and resolving references to them.

use vstd::prelude::*;
use vstd::string::*;

use crate::decimals::{number_text, show_number};
use crate::env::{env_entries, last_value, parse_env_file};
use crate::error::{PlanError, in_context, outcome};
use crate::numbers::{is_number, reads_as_number};
use crate::packages::{bool_text, bool_word};
use crate::pairs::{Pair, pairs};
use crate::step::{
    CapturedOutput, CapturedView, InvokeStep, OutputDecl, OutputType, OutputValue, OutputView,
    RunStep, StepCondition, StepTarget, TestStep, captured_views,
};
use crate::strings::{cat3, cat4, cat5, cat6, same};
use crate::text::{lines, opt_text};

verus! {

// ---------------------------------------------------------------------------
// Values
// ---------------------------------------------------------------------------

/// A value in an expression. A number is kept as it was written, and rendered in plain decimal
/// notation: `7.0` is rendered as `7`.
#[derive(Debug, PartialEq, Eq)]
pub enum EvaluatedValue {
    String(String),
    Number(String),
    Bool(bool),
    Empty,
}

/// The model of an [`EvaluatedValue`].
pub enum EvaluatedView {
    String(Seq<char>),
    Number(Seq<char>),
    Bool(bool),
    Empty,
}

impl View for EvaluatedValue {
    type V = EvaluatedView;

    open spec fn view(&self) -> EvaluatedView {
        match self {
            EvaluatedValue::String(s) => EvaluatedView::String(s@),
            EvaluatedValue::Number(n) => EvaluatedView::Number(n@),
            EvaluatedValue::Bool(b) => EvaluatedView::Bool(*b),
            EvaluatedValue::Empty => EvaluatedView::Empty,
        }
    }
}

impl EvaluatedView {
    /// The text that stands for the value.
    pub open spec fn rendered(self) -> Seq<char> {
        match self {
            EvaluatedView::String(s) => s,
            EvaluatedView::Number(n) => number_text(n),
            EvaluatedView::Bool(b) => bool_word(b),
            EvaluatedView::Empty => seq![],
        }
    }
}

impl EvaluatedValue {
    /// The text that stands for the value.
    pub fn render(&self) -> (r: String)
        ensures
            r@ == self@.rendered(),
    {
        match self {
            EvaluatedValue::String(s) => s.clone(),
            EvaluatedValue::Number(n) => show_number(n.as_str()),
            EvaluatedValue::Bool(b) => bool_text(*b).to_owned(),
            EvaluatedValue::Empty => {
                let r = String::new();
                assert(r@ =~= seq![]);
                r
            },
        }
    }
}

impl Clone for EvaluatedValue {
    fn clone(&self) -> (r: EvaluatedValue)
        ensures
            r@ == self@,
    {
        match self {
            EvaluatedValue::String(s) => EvaluatedValue::String(s.clone()),
            EvaluatedValue::Number(n) => EvaluatedValue::Number(n.clone()),
            EvaluatedValue::Bool(b) => EvaluatedValue::Bool(*b),
            EvaluatedValue::Empty => EvaluatedValue::Empty,
        }
    }
}

/// The value that an output has in an expression.
pub open spec fn evaluated(v: OutputView) -> EvaluatedView {
    match v {
        OutputView::String(s) => EvaluatedView::String(s),
        OutputView::Number(n) => EvaluatedView::Number(n),
        OutputView::Bool(b) => EvaluatedView::Bool(b),
        OutputView::Null => EvaluatedView::Empty,
    }
}

/// The value that an output has in an expression.
pub fn output_value_to_evaluated(v: OutputValue) -> (r: EvaluatedValue)
    ensures
        r@ == evaluated(v@),
{
    match v {
        OutputValue::String(s) => EvaluatedValue::String(s),
        OutputValue::Number(n) => EvaluatedValue::Number(n),
        OutputValue::Bool(b) => EvaluatedValue::Bool(b),
        OutputValue::Null => EvaluatedValue::Empty,
    }
}

/// In an expression an output has the text that it has where it is used.
pub proof fn evaluation_keeps_the_text(v: OutputView)
    ensures
        evaluated(v).rendered() == v.used(),
{
}

// ---------------------------------------------------------------------------
// Capturing
// ---------------------------------------------------------------------------

/// The message that an output is not of its type. It does not show the text, which may hold
/// a secret.
pub open spec fn mistyped(name: Seq<char>, word: Seq<char>) -> Seq<char> {
    "output '"@ + name + "': expected a "@ + word
}

/// The value of a declared type that a text gives, or why it gives none. Empty text
/// is no value.
pub open spec fn coerced(name: Seq<char>, text: Seq<char>, output_type: OutputType) -> Result<
    OutputView,
    Seq<char>,
> {
    if text.len() == 0 {
        Ok(OutputView::Null)
    } else {
        match output_type {
            OutputType::String | OutputType::Secret => Ok(OutputView::String(text)),
            OutputType::Number => if is_number(text) {
                Ok(OutputView::Number(text))
            } else {
                Err(mistyped(name, "number"@))
            },
            OutputType::Bool => if text == "true"@ {
                Ok(OutputView::Bool(true))
            } else if text == "false"@ {
                Ok(OutputView::Bool(false))
            } else {
                Err(mistyped(name, "bool"@))
            },
        }
    }
}

/// The value of a declared type that a text gives.
pub fn coerce_output_value(name: &str, text: &str, output_type: OutputType) -> (r: Result<
    OutputValue,
    PlanError,
>)
    ensures
        match r {
            Ok(v) => coerced(name@, text@, output_type) == Ok::<OutputView, Seq<char>>(v@),
            Err(e) => coerced(name@, text@, output_type) == Err::<OutputView, Seq<char>>(e@),
        },
{
    if text.is_empty() {
        return Ok(OutputValue::Null);
    }
    match output_type {
        OutputType::String | OutputType::Secret => Ok(OutputValue::String(text.to_owned())),
        OutputType::Number => if reads_as_number(text) {
            Ok(OutputValue::Number(text.to_owned()))
        } else {
            Err(PlanError::new(cat4("output '", name, "': expected a ", "number")))
        },
        OutputType::Bool => if same(text, "true") {
            Ok(OutputValue::Bool(true))
        } else if same(text, "false") {
            Ok(OutputValue::Bool(false))
        } else {
            Err(PlanError::new(cat4("output '", name, "': expected a ", "bool")))
        },
    }
}

/// What a declared output is, given the pairs that the step wrote, or why it is
/// refused.
pub open spec fn captured_output(
    step_name: Seq<char>,
    decl: (String, OutputDecl),
    written: Seq<Pair>,
) -> Result<CapturedView, Seq<char>> {
    let text = match last_value(written, decl.0@) {
        Some(v) => v,
        None => seq![],
    };
    match coerced(decl.0@, text, decl.1.output_type) {
        Err(e) => Err(in_context("step '"@ + step_name + "'"@, e)),
        Ok(value) => if decl.1.required && value is Null {
            Err(
                "step '"@ + step_name + "': required output '"@ + decl.0@
                    + "' was not written to $BF_OUT"@,
            )
        } else {
            Ok(
                CapturedView { name: decl.0@, declared_type: decl.1.output_type, value },
            )
        },
    }
}

/// What the first `n` declared outputs are.
pub open spec fn captured_outputs(
    step_name: Seq<char>,
    decls: Seq<(String, OutputDecl)>,
    written: Seq<Pair>,
    n: nat,
) -> Result<Seq<CapturedView>, Seq<char>>
    decreases n,
{
    if n == 0 {
        Ok(seq![])
    } else {
        match captured_outputs(step_name, decls, written, (n - 1) as nat) {
            Err(e) => Err(e),
            Ok(front) => match captured_output(step_name, decls[n - 1], written) {
                Err(e) => Err(e),
                Ok(c) => Ok(front.push(c)),
            },
        }
    }
}

/// What the declared outputs of a step are, given what it wrote.
pub open spec fn step_outputs(
    step_name: Seq<char>,
    decls: Seq<(String, OutputDecl)>,
    contents: Seq<char>,
) -> Result<Seq<CapturedView>, Seq<char>> {
    match env_entries(lines(contents)) {
        Err(name) => Err(
            in_context(
                "step '"@ + step_name + "': invalid $BF_OUT"@,
                "unterminated heredoc for key '"@ + name + "'"@,
            ),
        ),
        Ok(written) => captured_outputs(step_name, decls, written, decls.len()),
    }
}

proof fn lemma_capture_error_stays(
    step_name: Seq<char>,
    decls: Seq<(String, OutputDecl)>,
    written: Seq<Pair>,
    n: nat,
    m: nat,
)
    requires
        n <= m,
        captured_outputs(step_name, decls, written, n) is Err,
    ensures
        captured_outputs(step_name, decls, written, m) == captured_outputs(
            step_name,
            decls,
            written,
            n,
        ),
    decreases m,
{
    if n < m {
        lemma_capture_error_stays(step_name, decls, written, n, (m - 1) as nat);
    }
}

/// The value that the last assignment of `name` gives it.
fn last_written(written: &Vec<(String, String)>, name: &str) -> (r: Option<String>)
    ensures
        opt_text(r) == last_value(pairs(written@), name@),
{
    let ghost all = pairs(written@);
    let mut i: usize = written.len();
    assert(all.take(i as int) =~= all);
    while i > 0
        invariant
            i <= written@.len(),
            all == pairs(written@),
            last_value(all, name@) == last_value(all.take(i as int), name@),
        decreases i,
    {
        assert(all.take(i as int).last() == (written@[i - 1].0@, written@[i - 1].1@));
        assert(all.take(i as int).drop_last() =~= all.take(i - 1));
        if same(written[i - 1].0.as_str(), name) {
            return Some(written[i - 1].1.clone());
        }
        i -= 1;
    }
    None
}

/// Reads the declared outputs of a step from what it wrote: of each the last value
/// that it wrote, coerced to its declared type.
pub fn capture_step_outputs(
    step_name: &str,
    decls: &Vec<(String, OutputDecl)>,
    contents: &str,
) -> (r: Result<Vec<CapturedOutput>, PlanError>)
    ensures
        match r {
            Ok(outputs) => step_outputs(step_name@, decls@, contents@) == Ok::<
                Seq<CapturedView>,
                Seq<char>,
            >(captured_views(outputs@)),
            Err(e) => step_outputs(step_name@, decls@, contents@) == Err::<
                Seq<CapturedView>,
                Seq<char>,
            >(e@),
        },
{
    let written = match parse_env_file(contents) {
        Ok(written) => written,
        Err(e) => {
            let context = cat3("step '", step_name, "': invalid $BF_OUT");
            return Err(e.within(context.as_str()));
        },
    };
    let ghost ws = pairs(written@);
    let mut outputs: Vec<CapturedOutput> = Vec::new();
    assert(captured_views(outputs@) =~= seq![]);
    let mut i: usize = 0;
    while i < decls.len()
        invariant
            i <= decls@.len(),
            ws == pairs(written@),
            env_entries(lines(contents@)) == Ok::<Seq<Pair>, Seq<char>>(ws),
            captured_outputs(step_name@, decls@, ws, i as nat) == Ok::<
                Seq<CapturedView>,
                Seq<char>,
            >(captured_views(outputs@)),
        decreases decls@.len() - i,
    {
        let ghost had = captured_views(outputs@);
        let name = decls[i].0.as_str();
        let text = match last_written(&written, name) {
            Some(v) => v,
            None => {
                let none = String::new();
                assert(none@ =~= seq![]);
                none
            },
        };
        let value = match coerce_output_value(name, text.as_str(), decls[i].1.output_type) {
            Ok(value) => value,
            Err(e) => {
                proof {
                    lemma_capture_error_stays(
                        step_name@,
                        decls@,
                        ws,
                        (i + 1) as nat,
                        decls@.len(),
                    );
                }
                let context = cat3("step '", step_name, "'");
                return Err(e.within(context.as_str()));
            },
        };
        let missing = match &value {
            OutputValue::Null => true,
            _ => false,
        };
        if decls[i].1.required && missing {
            proof {
                lemma_capture_error_stays(
                    step_name@,
                    decls@,
                    ws,
                    (i + 1) as nat,
                    decls@.len(),
                );
            }
            return Err(
                PlanError::new(
                    cat5(
                        "step '",
                        step_name,
                        "': required output '",
                        name,
                        "' was not written to $BF_OUT",
                    ),
                ),
            );
        }
        let output = CapturedOutput {
            name: decls[i].0.clone(),
            declared_type: decls[i].1.output_type,
            value,
        };
        let ghost view = output@;
        outputs.push(output);
        assert(captured_views(outputs@) =~= had.push(view));
        i += 1;
    }
    Ok(outputs)
}

/// The contents of captured outputs, if there are any.
pub open spec fn opt_captured(o: Option<Vec<CapturedOutput>>) -> Option<Seq<CapturedView>> {
    match o {
        Some(v) => Some(captured_views(v@)),
        None => None,
    }
}

/// What a step's outputs are when what it wrote has been read.
pub open spec fn declared_outputs(
    step: RunStep,
    read: Result<Seq<char>, Seq<char>>,
) -> Result<Seq<CapturedView>, Seq<char>> {
    match read {
        Err(e) => Err(
            in_context(
                "step '"@ + step.name@
                    + "': failed to read $BF_OUT to capture declared outputs"@,
                e,
            ),
        ),
        Ok(contents) => step_outputs(step.name@, step.outputs@, contents),
    }
}

/// A reading of text as a result, in the terms of the model.
pub open spec fn read_view(r: Result<String, PlanError>) -> Result<Seq<char>, Seq<char>> {
    match r {
        Ok(s) => Ok(s@),
        Err(e) => Err(e@),
    }
}

/// Stores the outputs that a step declares, from what reading its output file gave. A
/// step that declares none is left as it is.
pub fn store_declared_outputs(step: &mut RunStep, read: Result<String, PlanError>) -> (r: Result<
    (),
    PlanError,
>)
    ensures
        *final(step) == (RunStep {
            captured_outputs: final(step).captured_outputs,
            ..*old(step)
        }),
        old(step).outputs@.len() == 0 ==> r is Ok && *final(step) == *old(step),
        old(step).outputs@.len() > 0 ==> match declared_outputs(*old(step), read_view(read)) {
            Ok(outputs) => r is Ok && opt_captured(final(step).captured_outputs) == Some(outputs),
            Err(e) => outcome(r, Some(e)) && *final(step) == *old(step),
        },
{
    if step.outputs.len() == 0 {
        return Ok(());
    }
    let contents = match read {
        Ok(contents) => contents,
        Err(e) => {
            let context = cat3(
                "step '",
                step.name.as_str(),
                "': failed to read $BF_OUT to capture declared outputs",
            );
            return Err(e.within(context.as_str()));
        },
    };
    match capture_step_outputs(step.name.as_str(), &step.outputs, contents.as_str()) {
        Ok(outputs) => {
            step.captured_outputs = Some(outputs);
            Ok(())
        },
        Err(e) => Err(e),
    }
}

/// Reads and stores the outputs that a step declares. `read_out` is called if the step
/// declares any.
pub fn capture_declared_step_outputs<F: FnOnce() -> Result<String, PlanError>>(
    step: &mut RunStep,
    read_out: F,
) -> (r: Result<(), PlanError>)
    requires
        call_requires(read_out, ()),
    ensures
        *final(step) == (RunStep {
            captured_outputs: final(step).captured_outputs,
            ..*old(step)
        }),
        old(step).outputs@.len() == 0 ==> r is Ok && *final(step) == *old(step),
        old(step).outputs@.len() > 0 ==> exists|read: Result<String, PlanError>|
            {
                &&& call_ensures(read_out, (), read)
                &&& match declared_outputs(*old(step), #[trigger] read_view(read)) {
                    Ok(outputs) => r is Ok && opt_captured(final(step).captured_outputs) == Some(
                        outputs,
                    ),
                    Err(e) => outcome(r, Some(e)) && *final(step) == *old(step),
                }
            },
{
    if step.outputs.len() == 0 {
        return Ok(());
    }
    let read = read_out();
    let ghost seen = read_view(read);
    store_declared_outputs(step, read)
}

// ---------------------------------------------------------------------------
// Steps by their identifiers
// ---------------------------------------------------------------------------

/// The identifier of a step that can have outputs.
pub open spec fn step_id_of(step: TestStep) -> Option<Seq<char>> {
    match step {
        TestStep::Run(run) => opt_text(run.id),
        TestStep::Invoke(invoke) => opt_text(invoke.id),
        TestStep::Archive(_) => None,
    }
}

/// The first step with an identifier.
pub open spec fn step_by_id(steps: Seq<TestStep>, id: Seq<char>) -> Option<TestStep>
    decreases steps.len(),
{
    if steps.len() == 0 {
        None
    } else if step_id_of(steps[0]) == Some(id) {
        Some(steps[0])
    } else {
        step_by_id(steps.skip(1), id)
    }
}

/// A step that can have outputs.
#[derive(Debug)]
pub enum ScopedStepById<'a> {
    Run(&'a RunStep),
    Invoke(&'a InvokeStep),
}

impl<'a> ScopedStepById<'a> {
    /// The step.
    pub open spec fn step(self) -> TestStep {
        match self {
            ScopedStepById::Run(run) => TestStep::Run(*run),
            ScopedStepById::Invoke(invoke) => TestStep::Invoke(*invoke),
        }
    }
}

fn opt_is(o: &Option<String>, s: &str) -> (r: bool)
    ensures
        r == (opt_text(*o) == Some(s@)),
{
    match o {
        Some(t) => same(t.as_str(), s),
        None => false,
    }
}

/// The first step with the identifier `step_id`.
pub fn find_step_by_id<'a>(steps: &'a [TestStep], step_id: &str) -> (r: Option<ScopedStepById<'a>>)
    ensures
        match r {
            Some(s) => step_by_id(steps@, step_id@) == Some(s.step()),
            None => step_by_id(steps@, step_id@) is None,
        },
{
    let mut i: usize = 0;
    assert(steps@.skip(0) =~= steps@);
    while i < steps.len()
        invariant
            i <= steps@.len(),
            step_by_id(steps@, step_id@) == step_by_id(steps@.skip(i as int), step_id@),
        decreases steps@.len() - i,
    {
        assert(steps@.skip(i as int)[0] == steps@[i as int]);
        assert(steps@.skip(i as int).skip(1) =~= steps@.skip(i + 1));
        match &steps[i] {
            TestStep::Run(run) => {
                if opt_is(&run.id, step_id) {
                    return Some(ScopedStepById::Run(run));
                }
            },
            TestStep::Invoke(invoke) => {
                if opt_is(&invoke.id, step_id) {
                    return Some(ScopedStepById::Invoke(invoke));
                }
            },
            TestStep::Archive(_) => {},
        }
        i += 1;
    }
    assert(steps@.skip(i as int).len() == 0);
    None
}

/// The outputs that a step gave out.
pub open spec fn outputs_of(step: TestStep) -> Option<Seq<CapturedView>> {
    match step {
        TestStep::Run(run) => opt_captured(run.captured_outputs),
        TestStep::Invoke(invoke) => opt_captured(invoke.captured_outputs),
        TestStep::Archive(_) => None,
    }
}

/// What a step is called in messages about its outputs.
pub open spec fn kind_of(step: TestStep) -> Seq<char> {
    match step {
        TestStep::Invoke(_) => "fragment invocation"@,
        _ => "run step"@,
    }
}

/// The first output with a name.
pub open spec fn output_named(outputs: Seq<CapturedView>, name: Seq<char>) -> Option<OutputView>
    decreases outputs.len(),
{
    if outputs.len() == 0 {
        None
    } else if outputs[0].name == name {
        Some(outputs[0].value)
    } else {
        output_named(outputs.skip(1), name)
    }
}

/// The message that a reference of a step cannot be resolved.
pub open spec fn unresolved(
    consumer: Seq<char>,
    step_id: Seq<char>,
    output: Seq<char>,
    why: Seq<char>,
) -> Seq<char> {
    "step '"@ + consumer + "': cannot resolve ${{ steps."@ + step_id + ".outputs."@ + output
        + " }} — "@ + why
}

fn cannot_resolve(consumer: &str, step_id: &str, output: &str, why: &str) -> (e: PlanError)
    ensures
        e@ == unresolved(consumer@, step_id@, output@, why@),
{
    let head = cat6(
        "step '",
        consumer,
        "': cannot resolve ${{ steps.",
        step_id,
        ".outputs.",
        output,
    );
    PlanError::new(cat3(head.as_str(), " }} — ", why))
}

/// An output that a step gave out, or why there is none.
pub open spec fn captured_value(
    consumer: Seq<char>,
    step_id: Seq<char>,
    output: Seq<char>,
    step: TestStep,
) -> Result<OutputView, Seq<char>> {
    match outputs_of(step) {
        None => Err(
            unresolved(
                consumer,
                step_id,
                output,
                kind_of(step) + " '"@ + step_id + "' has no captured outputs"@,
            ),
        ),
        Some(outputs) => match output_named(outputs, output) {
            Some(v) => Ok(v),
            None => Err(
                unresolved(
                    consumer,
                    step_id,
                    output,
                    kind_of(step) + " '"@ + step_id + "' does not declare output '"@ + output
                        + "'"@,
                ),
            ),
        },
    }
}

fn value_named(outputs: &Vec<CapturedOutput>, name: &str) -> (r: Option<OutputValue>)
    ensures
        match r {
            Some(v) => output_named(captured_views(outputs@), name@) == Some(v@),
            None => output_named(captured_views(outputs@), name@) is None,
        },
{
    let ghost all = captured_views(outputs@);
    let mut i: usize = 0;
    assert(all.skip(0) =~= all);
    while i < outputs.len()
        invariant
            i <= outputs@.len(),
            all == captured_views(outputs@),
            output_named(all, name@) == output_named(all.skip(i as int), name@),
        decreases outputs@.len() - i,
    {
        assert(all.skip(i as int)[0] == outputs@[i as int]@);
        assert(all.skip(i as int).skip(1) =~= all.skip(i + 1));
        if same(outputs[i].name.as_str(), name) {
            return Some(outputs[i].value.clone());
        }
        i += 1;
    }
    assert(all.skip(i as int).len() == 0);
    None
}

/// An output that a step gave out.
pub fn resolve_captured_output_value(
    consumer: &RunStep,
    step_id: &str,
    output_name: &str,
    step: ScopedStepById<'_>,
) -> (r: Result<OutputValue, PlanError>)
    ensures
        match r {
            Ok(v) => captured_value(consumer.name@, step_id@, output_name@, step.step()) == Ok::<
                OutputView,
                Seq<char>,
            >(v@),
            Err(e) => captured_value(consumer.name@, step_id@, output_name@, step.step()) == Err::<
                OutputView,
                Seq<char>,
            >(e@),
        },
{
    let (kind, captured): (&str, &Option<Vec<CapturedOutput>>) = match step {
        ScopedStepById::Run(run) => ("run step", &run.captured_outputs),
        ScopedStepById::Invoke(invoke) => ("fragment invocation", &invoke.captured_outputs),
    };
    match captured {
        None => {
            let why = cat4(kind, " '", step_id, "' has no captured outputs");
            Err(cannot_resolve(consumer.name.as_str(), step_id, output_name, why.as_str()))
        },
        Some(outputs) => match value_named(outputs, output_name) {
            Some(v) => Ok(v),
            None => {
                let why = cat6(
                    kind,
                    " '",
                    step_id,
                    "' does not declare output '",
                    output_name,
                    "'",
                );
                Err(cannot_resolve(consumer.name.as_str(), step_id, output_name, why.as_str()))
            },
        },
    }
}

/// What `steps.ID.outputs.NAME` refers to, or why it refers to nothing. Only the
/// steps in `prior` have run.
pub open spec fn step_reference(
    consumer: Seq<char>,
    scope: Seq<TestStep>,
    prior: Seq<TestStep>,
    step_id: Seq<char>,
    output: Seq<char>,
) -> Result<EvaluatedView, Seq<char>> {
    match step_by_id(prior, step_id) {
        Some(step) => match captured_value(consumer, step_id, output, step) {
            Ok(v) => Ok(evaluated(v)),
            Err(e) => Err(e),
        },
        None => if step_by_id(scope, step_id) is Some {
            Err(
                unresolved(
                    consumer,
                    step_id,
                    output,
                    "step '"@ + step_id
                        + "' exists in the current scope but has not run yet"@,
                ),
            )
        } else {
            Err(
                unresolved(
                    consumer,
                    step_id,
                    output,
                    "no step with id '"@ + step_id + "' exists in the current scope"@,
                ),
            )
        },
    }
}

/// Resolves `steps.ID.outputs.NAME` against the steps that have run.
pub fn resolve_step_output_reference(
    consumer: &RunStep,
    scope_steps: &[TestStep],
    prior_steps: &[TestStep],
    step_id: &str,
    output_name: &str,
) -> (r: Result<EvaluatedValue, PlanError>)
    ensures
        match r {
            Ok(v) => step_reference(
                consumer.name@,
                scope_steps@,
                prior_steps@,
                step_id@,
                output_name@,
            ) == Ok::<EvaluatedView, Seq<char>>(v@),
            Err(e) => step_reference(
                consumer.name@,
                scope_steps@,
                prior_steps@,
                step_id@,
                output_name@,
            ) == Err::<EvaluatedView, Seq<char>>(e@),
        },
{
    if let Some(step) = find_step_by_id(prior_steps, step_id) {
        return match resolve_captured_output_value(consumer, step_id, output_name, step) {
            Ok(v) => Ok(output_value_to_evaluated(v)),
            Err(e) => Err(e),
        };
    }
    if find_step_by_id(scope_steps, step_id).is_some() {
        let why = cat3(
            "step '",
            step_id,
            "' exists in the current scope but has not run yet",
        );
        return Err(cannot_resolve(consumer.name.as_str(), step_id, output_name, why.as_str()));
    }
    let why = cat3("no step with id '", step_id, "' exists in the current scope");
    Err(cannot_resolve(consumer.name.as_str(), step_id, output_name, why.as_str()))
}

/// A step that stands for the call of a fragment in messages.
pub fn make_boundary_consumer(uses_name: &str) -> (r: RunStep)
    ensures
        r.name@ == "<invoke boundary: "@ + uses_name@ + ">"@,
        r.run@ == Seq::<char>::empty(),
        r.id is None,
        r.condition == StepCondition::Always,
        r.target == StepTarget::Guest,
        r.timeout is None,
        r.shell is None,
        r.sudo is None,
        r.expect is None,
        r.outputs@.len() == 0,
        r.captured_outputs is None,
{
    RunStep {
        name: cat3("<invoke boundary: ", uses_name, ">"),
        run: String::new(),
        id: None,
        condition: StepCondition::Always,
        target: StepTarget::Guest,
        timeout: None,
        shell: None,
        sudo: None,
        outputs: Vec::new(),
        expect: None,
        captured_outputs: None,
    }
}

} // verus!
