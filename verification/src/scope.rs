//! References between steps: what they resolve to in the scope of a plan or a
//! fragment.

use vstd::prelude::*;
use vstd::string::*;

use crate::decimals::number_text;
use crate::env::last_value;
use crate::error::{PlanError, in_context, outcome};
use crate::numbers::{is_decimal, lowered};
use crate::outputs::{
    EvaluatedValue, EvaluatedView, captured_output, captured_outputs, coerce_output_value,
    coerced, evaluated, evaluation_keeps_the_text, kind_of, make_boundary_consumer, mistyped,
    opt_captured, output_named, output_value_to_evaluated, outputs_of,
    resolve_step_output_reference, step_by_id, step_id_of, step_reference,
};
use crate::pairs::Pair;
use crate::references::{
    Piece, PieceView, parse_references, piece_views, pieces_of, plain_text_is_literal,
    references_are_found, step_placeholder,
};
use crate::step::{
    CapturedOutput, CapturedView, FragmentOutputDecl, InvokeStep, OutputDecl, OutputType,
    OutputValue, OutputView, RunStep, TestStep, captured_views,
};
use crate::strings::{cat2, cat3, cat4, cat5, same};
use crate::template::valid_name;
use crate::text::find;
use crate::value::{Node, NodeView};

verus! {

// ---------------------------------------------------------------------------
// References that a fragment takes over from its caller
// ---------------------------------------------------------------------------

/// A reference that was resolved where a fragment is called.
#[derive(Debug, PartialEq, Eq)]
pub struct InheritedRef {
    pub step_id: String,
    pub output: String,
    pub value: EvaluatedValue,
}

/// The model of an [`InheritedRef`].
pub struct RefEntry {
    pub step_id: Seq<char>,
    pub output: Seq<char>,
    pub value: EvaluatedView,
}

impl View for InheritedRef {
    type V = RefEntry;

    open spec fn view(&self) -> RefEntry {
        RefEntry { step_id: self.step_id@, output: self.output@, value: self.value@ }
    }
}

/// The contents of a list of inherited references.
pub open spec fn ref_views(v: Seq<InheritedRef>) -> Seq<RefEntry> {
    v.map_values(|r: InheritedRef| r@)
}

/// The first entry for an output of a step.
pub open spec fn ref_index(refs: Seq<RefEntry>, step_id: Seq<char>, output: Seq<char>) -> Option<
    int,
>
    decreases refs.len(),
{
    if refs.len() == 0 {
        None
    } else if refs[0].step_id == step_id && refs[0].output == output {
        Some(0int)
    } else {
        match ref_index(refs.skip(1), step_id, output) {
            Some(k) => Some(k + 1),
            None => None,
        }
    }
}

/// The value of an output of a step.
pub open spec fn ref_value(refs: Seq<RefEntry>, step_id: Seq<char>, output: Seq<char>) -> Option<
    EvaluatedView,
> {
    match ref_index(refs, step_id, output) {
        Some(k) => Some(refs[k].value),
        None => None,
    }
}

/// `refs` with the value of an output of a step: in place if it is known, else behind.
pub open spec fn ref_put(
    refs: Seq<RefEntry>,
    step_id: Seq<char>,
    output: Seq<char>,
    value: EvaluatedView,
) -> Seq<RefEntry> {
    let entry = RefEntry { step_id, output, value };
    match ref_index(refs, step_id, output) {
        Some(k) => refs.update(k, entry),
        None => refs.push(entry),
    }
}

fn find_ref(refs: &Vec<InheritedRef>, step_id: &str, output: &str) -> (r: Option<usize>)
    ensures
        match r {
            Some(k) => ref_index(ref_views(refs@), step_id@, output@) == Some(k as int) && k
                < refs@.len(),
            None => ref_index(ref_views(refs@), step_id@, output@) is None,
        },
{
    let ghost all = ref_views(refs@);
    let mut i: usize = 0;
    assert(all.skip(0) =~= all);
    while i < refs.len()
        invariant
            i <= refs@.len(),
            all == ref_views(refs@),
            ref_index(all, step_id@, output@) == match ref_index(
                all.skip(i as int),
                step_id@,
                output@,
            ) {
                Some(k) => Some(k + i),
                None => None,
            },
        decreases refs@.len() - i,
    {
        assert(all.skip(i as int)[0] == refs@[i as int]@);
        assert(all.skip(i as int).skip(1) =~= all.skip(i + 1));
        if same(refs[i].step_id.as_str(), step_id) && same(refs[i].output.as_str(), output) {
            return Some(i);
        }
        i += 1;
    }
    assert(all.skip(i as int).len() == 0);
    None
}

/// The value of an output of a step, if it is inherited.
pub fn inherited_value(refs: &Vec<InheritedRef>, step_id: &str, output: &str) -> (r: Option<
    EvaluatedValue,
>)
    ensures
        match r {
            Some(v) => ref_value(ref_views(refs@), step_id@, output@) == Some(v@),
            None => ref_value(ref_views(refs@), step_id@, output@) is None,
        },
{
    match find_ref(refs, step_id, output) {
        Some(k) => Some(refs[k].value.clone()),
        None => None,
    }
}

fn put_ref(refs: &mut Vec<InheritedRef>, step_id: &str, output: &str, value: EvaluatedValue)
    ensures
        ref_views(final(refs)@) == ref_put(ref_views(old(refs)@), step_id@, output@, value@),
{
    let ghost had = ref_views(refs@);
    let entry = InheritedRef { step_id: step_id.to_owned(), output: output.to_owned(), value };
    let ghost view = entry@;
    match find_ref(refs, step_id, output) {
        Some(k) => {
            refs.set(k, entry);
            assert(ref_views(refs@) =~= had.update(k as int, view));
        },
        None => {
            refs.push(entry);
            assert(ref_views(refs@) =~= had.push(view));
        },
    }
}

// ---------------------------------------------------------------------------
// Scopes
// ---------------------------------------------------------------------------

/// What `outputs.NAME` means in a text.
#[derive(Debug)]
pub enum OutputRule<'a> {
    /// An output that the fragment declares, if the text stands in one.
    Fragment(Option<&'a [FragmentOutputDecl]>),
    /// Nothing: the text is an input at the call of the named fragment.
    Boundary(&'a str),
    /// Nothing: the text is the value of the named output.
    Declaration(&'a str),
}

/// The model of an [`OutputRule`].
pub enum RuleView {
    Fragment(Option<Seq<FragmentOutputDecl>>),
    Boundary(Seq<char>),
    Declaration(Seq<char>),
}

impl<'a> View for OutputRule<'a> {
    type V = RuleView;

    open spec fn view(&self) -> RuleView {
        match self {
            OutputRule::Fragment(Some(decls)) => RuleView::Fragment(Some(decls@)),
            OutputRule::Fragment(None) => RuleView::Fragment(None),
            OutputRule::Boundary(uses) => RuleView::Boundary(uses@),
            OutputRule::Declaration(name) => RuleView::Declaration(name@),
        }
    }
}

/// The place that a text with references stands in.
#[derive(Debug)]
pub struct RefContext<'a> {
    /// The step that the text belongs to.
    pub consumer: &'a RunStep,
    /// The steps of the scope.
    pub scope_steps: &'a [TestStep],
    /// The steps of the scope that have run.
    pub prior_steps: &'a [TestStep],
    /// The references that were resolved where the fragment is called.
    pub inherited: &'a Vec<InheritedRef>,
    pub rule: OutputRule<'a>,
}

/// The model of a [`RefContext`].
pub struct RefScope {
    pub consumer: Seq<char>,
    pub scope: Seq<TestStep>,
    pub prior: Seq<TestStep>,
    pub inherited: Seq<RefEntry>,
    pub rule: RuleView,
}

impl<'a> View for RefContext<'a> {
    type V = RefScope;

    open spec fn view(&self) -> RefScope {
        RefScope {
            consumer: self.consumer.name@,
            scope: self.scope_steps@,
            prior: self.prior_steps@,
            inherited: ref_views(self.inherited@),
            rule: self.rule@,
        }
    }
}

/// How deep the rule of a scope can lead: a declared output has a value of its own.
pub open spec fn rank(rule: RuleView) -> nat {
    match rule {
        RuleView::Fragment(Some(_)) => 1,
        _ => 0,
    }
}

/// The first declaration of an output.
pub open spec fn decl_named(decls: Seq<FragmentOutputDecl>, name: Seq<char>) -> Option<
    FragmentOutputDecl,
>
    decreases decls.len(),
{
    if decls.len() == 0 {
        None
    } else if decls[0].name@ == name {
        Some(decls[0])
    } else {
        decl_named(decls.skip(1), name)
    }
}

/// The message that an output of a fragment cannot be resolved.
pub open spec fn unresolved_output(consumer: Seq<char>, output: Seq<char>) -> Seq<char> {
    "step '"@ + consumer + "': cannot resolve ${{ outputs."@ + output + " }}"@
}

/// What a piece of a text stands for, or why it stands for nothing.
pub open spec fn piece_value(ctx: RefScope, piece: PieceView) -> Result<EvaluatedView, Seq<char>>
    decreases rank(ctx.rule), 0nat, 0nat,
{
    match piece {
        PieceView::Literal(s) => Ok(EvaluatedView::String(s)),
        PieceView::StepOutput { step_id, output } => match ref_value(
            ctx.inherited,
            step_id,
            output,
        ) {
            Some(v) => Ok(v),
            None => step_reference(ctx.consumer, ctx.scope, ctx.prior, step_id, output),
        },
        PieceView::FragmentOutput { output } => match ctx.rule {
            RuleView::Boundary(uses) => Err(
                "'"@ + uses + "': outputs.* not available in outer-scope 'with:' (output: '"@
                    + output + "')"@,
            ),
            RuleView::Declaration(name) => Err(
                "fragment output '"@ + name + "': 'value:' cannot reference ${{ outputs."@ + output
                    + " }} — only steps.<id>.outputs.<name> references are available"@,
            ),
            RuleView::Fragment(None) => Err(
                unresolved_output(ctx.consumer, output)
                    + " — outputs.* is only available inside a fragment scope"@,
            ),
            RuleView::Fragment(Some(decls)) => match decl_named(decls, output) {
                None => Err(
                    unresolved_output(ctx.consumer, output)
                        + " — fragment does not declare output '"@ + output + "'"@,
                ),
                Some(decl) => match decl_value(decl, ctx.consumer, ctx.scope, ctx.prior) {
                    Ok(v) => Ok(evaluated(v)),
                    Err(e) => Err(in_context(unresolved_output(ctx.consumer, output), e)),
                },
            },
        },
    }
}

/// The text that the first `n` pieces stand for.
pub open spec fn pieces_text(ctx: RefScope, pieces: Seq<PieceView>, n: nat) -> Result<
    Seq<char>,
    Seq<char>,
>
    decreases rank(ctx.rule), 1nat, n,
{
    if n == 0 {
        Ok(seq![])
    } else {
        match pieces_text(ctx, pieces, (n - 1) as nat) {
            Err(e) => Err(e),
            Ok(front) => match piece_value(ctx, pieces[n - 1]) {
                Err(e) => Err(e),
                Ok(v) => Ok(front + v.rendered()),
            },
        }
    }
}

/// A text with its references resolved, or why that cannot be done.
pub open spec fn resolved_text(ctx: RefScope, text: Seq<char>) -> Result<Seq<char>, Seq<char>>
    decreases rank(ctx.rule), 2nat, 0nat,
{
    match pieces_of(text, text) {
        Err(e) => Err(e),
        Ok(pieces) => pieces_text(ctx, pieces, pieces.len()),
    }
}

/// The message that the value of an output is not of its type.
pub open spec fn wrong_type(decl: FragmentOutputDecl) -> Seq<char> {
    "fragment output '"@ + decl.name@ + "': resolved value does not satisfy declared type '"@
        + decl.output_type.word() + "'"@
}

/// The message that an output that is required has no value.
pub open spec fn no_value(decl: FragmentOutputDecl) -> Seq<char> {
    "fragment output '"@ + decl.name@ + "': value resolved to null and output is required"@
}

/// The value of an output that a fragment declares, once the steps in `prior` have
/// run, or why it has none.
pub open spec fn decl_value(
    decl: FragmentOutputDecl,
    consumer: Seq<char>,
    scope: Seq<TestStep>,
    prior: Seq<TestStep>,
) -> Result<OutputView, Seq<char>>
    decreases 0nat, 3nat, 0nat,
{
    let ctx = RefScope {
        consumer,
        scope,
        prior,
        inherited: seq![],
        rule: RuleView::Declaration(decl.name@),
    };
    match resolved_text(ctx, decl.value@) {
        Err(e) => Err(e),
        Ok(text) => match coerced(decl.name@, text, decl.output_type) {
            Err(e) => Err(in_context(wrong_type(decl), e)),
            Ok(v) => {
                let effective = match (v, decl.default) {
                    (OutputView::Null, Some(d)) => d@,
                    _ => v,
                };
                if decl.required && effective is Null {
                    Err(no_value(decl))
                } else {
                    Ok(effective)
                }
            },
        },
    }
}

proof fn lemma_pieces_error_stays(ctx: RefScope, pieces: Seq<PieceView>, n: nat, m: nat)
    requires
        n <= m,
        pieces_text(ctx, pieces, n) is Err,
    ensures
        pieces_text(ctx, pieces, m) == pieces_text(ctx, pieces, n),
    decreases m,
{
    if n < m {
        lemma_pieces_error_stays(ctx, pieces, n, (m - 1) as nat);
    }
}

fn find_decl<'a>(decls: &'a [FragmentOutputDecl], name: &str) -> (r: Option<&'a FragmentOutputDecl>)
    ensures
        match r {
            Some(d) => decl_named(decls@, name@) == Some(*d),
            None => decl_named(decls@, name@) is None,
        },
{
    let mut i: usize = 0;
    assert(decls@.skip(0) =~= decls@);
    while i < decls.len()
        invariant
            i <= decls@.len(),
            decl_named(decls@, name@) == decl_named(decls@.skip(i as int), name@),
        decreases decls@.len() - i,
    {
        assert(decls@.skip(i as int)[0] == decls@[i as int]);
        assert(decls@.skip(i as int).skip(1) =~= decls@.skip(i + 1));
        if same(decls[i].name.as_str(), name) {
            return Some(&decls[i]);
        }
        i += 1;
    }
    assert(decls@.skip(i as int).len() == 0);
    None
}

/// Resolves `outputs.NAME` in the scope of a fragment.
pub fn resolve_fragment_output_reference(
    consumer: &RunStep,
    scope_steps: &[TestStep],
    prior_steps: &[TestStep],
    fragment_output_decls: Option<&[FragmentOutputDecl]>,
    output_name: &str,
) -> (r: Result<EvaluatedValue, PlanError>)
    ensures
        ({
            let ctx = RefScope {
                consumer: consumer.name@,
                scope: scope_steps@,
                prior: prior_steps@,
                inherited: seq![],
                rule: OutputRule::Fragment(fragment_output_decls)@,
            };
            let want = piece_value(ctx, PieceView::FragmentOutput { output: output_name@ });
            match r {
                Ok(v) => want == Ok::<EvaluatedView, Seq<char>>(v@),
                Err(e) => want == Err::<EvaluatedView, Seq<char>>(e@),
            }
        }),
    decreases rank(OutputRule::Fragment(fragment_output_decls)@), 0nat, 0nat,
{
    let head = cat5(
        "step '",
        consumer.name.as_str(),
        "': cannot resolve ${{ outputs.",
        output_name,
        " }}",
    );
    let decls = match fragment_output_decls {
        Some(decls) => decls,
        None => {
            return Err(
                PlanError::new(
                    cat2(
                        head.as_str(),
                        " — outputs.* is only available inside a fragment scope",
                    ),
                ),
            );
        },
    };
    match find_decl(decls, output_name) {
        None => Err(
            PlanError::new(
                cat4(
                    head.as_str(),
                    " — fragment does not declare output '",
                    output_name,
                    "'",
                ),
            ),
        ),
        Some(decl) => match resolve_fragment_output_decl_value(
            decl,
            consumer,
            scope_steps,
            prior_steps,
        ) {
            Ok(v) => Ok(output_value_to_evaluated(v)),
            Err(e) => Err(e.within(head.as_str())),
        },
    }
}

/// The value of an output that a fragment declares: its text with the references
/// resolved, coerced to its type; the default stands in for a value that is empty.
pub fn resolve_fragment_output_decl_value(
    decl: &FragmentOutputDecl,
    consumer: &RunStep,
    scope_steps: &[TestStep],
    prior_steps: &[TestStep],
) -> (r: Result<OutputValue, PlanError>)
    ensures
        match r {
            Ok(v) => decl_value(*decl, consumer.name@, scope_steps@, prior_steps@) == Ok::<
                OutputView,
                Seq<char>,
            >(v@),
            Err(e) => decl_value(*decl, consumer.name@, scope_steps@, prior_steps@) == Err::<
                OutputView,
                Seq<char>,
            >(e@),
        },
    decreases 0nat, 3nat, 0nat,
{
    let none: Vec<InheritedRef> = Vec::new();
    assert(ref_views(none@) =~= seq![]);
    let ctx = RefContext {
        consumer,
        scope_steps,
        prior_steps,
        inherited: &none,
        rule: OutputRule::Declaration(decl.name.as_str()),
    };
    let text = match resolve_deferred_refs_in_string(decl.value.as_str(), &ctx) {
        Ok(text) => text,
        Err(e) => {
            return Err(e);
        },
    };
    let value = match coerce_output_value(decl.name.as_str(), text.as_str(), decl.output_type) {
        Ok(value) => value,
        Err(e) => {
            let context = cat5(
                "fragment output '",
                decl.name.as_str(),
                "': resolved value does not satisfy declared type '",
                decl.output_type.as_str(),
                "'",
            );
            return Err(e.within(context.as_str()));
        },
    };
    let effective = match (value, &decl.default) {
        (OutputValue::Null, Some(default)) => default.clone(),
        (value, _) => value,
    };
    let missing = match &effective {
        OutputValue::Null => true,
        _ => false,
    };
    if decl.required && missing {
        return Err(
            PlanError::new(
                cat3(
                    "fragment output '",
                    decl.name.as_str(),
                    "': value resolved to null and output is required",
                ),
            ),
        );
    }
    Ok(effective)
}

/// What a piece of a text stands for.
pub fn resolve_piece(piece: &Piece, ctx: &RefContext<'_>) -> (r: Result<EvaluatedValue, PlanError>)
    ensures
        match r {
            Ok(v) => piece_value(ctx@, piece@) == Ok::<EvaluatedView, Seq<char>>(v@),
            Err(e) => piece_value(ctx@, piece@) == Err::<EvaluatedView, Seq<char>>(e@),
        },
    decreases rank(ctx.rule@), 0nat, 1nat,
{
    match piece {
        Piece::Literal(s) => Ok(EvaluatedValue::String(s.clone())),
        Piece::StepOutput { step_id, output } => {
            if let Some(v) = inherited_value(ctx.inherited, step_id.as_str(), output.as_str()) {
                return Ok(v);
            }
            resolve_step_output_reference(
                ctx.consumer,
                ctx.scope_steps,
                ctx.prior_steps,
                step_id.as_str(),
                output.as_str(),
            )
        },
        Piece::FragmentOutput { output } => match ctx.rule {
            OutputRule::Boundary(uses) => Err(
                PlanError::new(
                    cat5(
                        "'",
                        uses,
                        "': outputs.* not available in outer-scope 'with:' (output: '",
                        output.as_str(),
                        "')",
                    ),
                ),
            ),
            OutputRule::Declaration(name) => Err(
                PlanError::new(
                    cat5(
                        "fragment output '",
                        name,
                        "': 'value:' cannot reference ${{ outputs.",
                        output.as_str(),
                        " }} — only steps.<id>.outputs.<name> references are available",
                    ),
                ),
            ),
            OutputRule::Fragment(decls) => resolve_fragment_output_reference(
                ctx.consumer,
                ctx.scope_steps,
                ctx.prior_steps,
                decls,
                output.as_str(),
            ),
        },
    }
}

/// A text with its references resolved.
pub fn resolve_deferred_refs_in_string(text: &str, ctx: &RefContext<'_>) -> (r: Result<
    String,
    PlanError,
>)
    ensures
        match r {
            Ok(s) => resolved_text(ctx@, text@) == Ok::<Seq<char>, Seq<char>>(s@),
            Err(e) => resolved_text(ctx@, text@) == Err::<Seq<char>, Seq<char>>(e@),
        },
    decreases rank(ctx.rule@), 2nat, 0nat,
{
    let pieces = match parse_references(text) {
        Ok(pieces) => pieces,
        Err(e) => {
            return Err(e);
        },
    };
    let ghost all = piece_views(pieces@);
    let mut out = String::new();
    assert(out@ =~= seq![]);
    let mut i: usize = 0;
    while i < pieces.len()
        invariant
            i <= pieces@.len(),
            all == piece_views(pieces@),
            pieces_of(text@, text@) == Ok::<Seq<PieceView>, Seq<char>>(all),
            pieces_text(ctx@, all, i as nat) == Ok::<Seq<char>, Seq<char>>(out@),
        decreases pieces@.len() - i,
    {
        assert(all[i as int] == pieces@[i as int]@);
        match resolve_piece(&pieces[i], ctx) {
            Ok(v) => {
                let shown = v.render();
                out.append(shown.as_str());
            },
            Err(e) => {
                proof {
                    lemma_pieces_error_stays(ctx@, all, (i + 1) as nat, all.len());
                }
                return Err(e);
            },
        }
        i += 1;
    }
    Ok(out)
}

/// Resolves the references in the script of the step at `step_idx`: against what the
/// fragment took over from its caller first, then against the steps that have run.
pub fn resolve_run_step_output_refs(
    step: &RunStep,
    scope_steps: &[TestStep],
    step_idx: usize,
    fragment_output_decls: Option<&[FragmentOutputDecl]>,
    inherited_step_refs: &Vec<InheritedRef>,
) -> (r: Result<String, PlanError>)
    requires
        step_idx <= scope_steps@.len(),
    ensures
        ({
            let ctx = RefScope {
                consumer: step.name@,
                scope: scope_steps@,
                prior: scope_steps@.take(step_idx as int),
                inherited: ref_views(inherited_step_refs@),
                rule: OutputRule::Fragment(fragment_output_decls)@,
            };
            match r {
                Ok(s) => resolved_text(ctx, step.run@) == Ok::<Seq<char>, Seq<char>>(s@),
                Err(e) => resolved_text(ctx, step.run@) == Err::<Seq<char>, Seq<char>>(e@),
            }
        }),
{
    let (prior, _) = scope_steps.split_at(step_idx);
    let ctx = RefContext {
        consumer: step,
        scope_steps,
        prior_steps: prior,
        inherited: inherited_step_refs,
        rule: OutputRule::Fragment(fragment_output_decls),
    };
    assert(prior@ =~= scope_steps@.take(step_idx as int));
    resolve_deferred_refs_in_string(step.run.as_str(), &ctx)
}

// ---------------------------------------------------------------------------
// The call of a fragment
// ---------------------------------------------------------------------------

/// What the first `n` pieces of an input resolve to, put behind what was resolved
/// before.
pub open spec fn collected(
    ctx: RefScope,
    pieces: Seq<PieceView>,
    n: nat,
    refs: Seq<RefEntry>,
) -> Result<Seq<RefEntry>, Seq<char>>
    decreases n,
{
    if n == 0 {
        Ok(refs)
    } else {
        match collected(ctx, pieces, (n - 1) as nat, refs) {
            Err(e) => Err(e),
            Ok(front) => match piece_value(ctx, pieces[n - 1]) {
                Err(e) => Err(e),
                Ok(v) => match pieces[n - 1] {
                    PieceView::StepOutput { step_id, output } => Ok(
                        ref_put(front, step_id, output, v),
                    ),
                    _ => Ok(front),
                },
            },
        }
    }
}

/// What the references in the first `n` inputs resolve to.
pub open spec fn inherited_refs(ctx: RefScope, with: Seq<(String, Node)>, n: nat) -> Result<
    Seq<RefEntry>,
    Seq<char>,
>
    decreases n,
{
    if n == 0 {
        Ok(seq![])
    } else {
        match inherited_refs(ctx, with, (n - 1) as nat) {
            Err(e) => Err(e),
            Ok(front) => match with[n - 1].1@ {
                NodeView::String(text) => match pieces_of(text, text) {
                    Err(e) => Err(e),
                    Ok(pieces) => collected(ctx, pieces, pieces.len(), front),
                },
                _ => Ok(front),
            },
        }
    }
}

proof fn lemma_collected_error_stays(
    ctx: RefScope,
    pieces: Seq<PieceView>,
    refs: Seq<RefEntry>,
    n: nat,
    m: nat,
)
    requires
        n <= m,
        collected(ctx, pieces, n, refs) is Err,
    ensures
        collected(ctx, pieces, m, refs) == collected(ctx, pieces, n, refs),
    decreases m,
{
    if n < m {
        lemma_collected_error_stays(ctx, pieces, refs, n, (m - 1) as nat);
    }
}

proof fn lemma_inherited_error_stays(ctx: RefScope, with: Seq<(String, Node)>, n: nat, m: nat)
    requires
        n <= m,
        inherited_refs(ctx, with, n) is Err,
    ensures
        inherited_refs(ctx, with, m) == inherited_refs(ctx, with, n),
    decreases m,
{
    if n < m {
        lemma_inherited_error_stays(ctx, with, n, (m - 1) as nat);
    }
}

/// The scope in which the inputs of a fragment are resolved where it is called.
pub open spec fn boundary_scope(
    uses: Seq<char>,
    scope: Seq<TestStep>,
    prior: Seq<TestStep>,
    inherited: Seq<RefEntry>,
) -> RefScope {
    RefScope {
        consumer: "<invoke boundary: "@ + uses + ">"@,
        scope,
        prior,
        inherited,
        rule: RuleView::Boundary(uses),
    }
}

fn collect_refs(text: &str, ctx: &RefContext<'_>, refs: &mut Vec<InheritedRef>) -> (r: Result<
    (),
    PlanError,
>)
    ensures
        match pieces_of(text@, text@) {
            Err(e) => outcome(r, Some(e)),
            Ok(pieces) => match collected(
                ctx@,
                pieces,
                pieces.len(),
                ref_views(old(refs)@),
            ) {
                Err(e) => outcome(r, Some(e)),
                Ok(all) => r is Ok && ref_views(final(refs)@) == all,
            },
        },
{
    let pieces = match parse_references(text) {
        Ok(pieces) => pieces,
        Err(e) => {
            return Err(e);
        },
    };
    let ghost ps = piece_views(pieces@);
    let ghost start = ref_views(refs@);
    let mut i: usize = 0;
    while i < pieces.len()
        invariant
            i <= pieces@.len(),
            ps == piece_views(pieces@),
            start == ref_views(old(refs)@),
            pieces_of(text@, text@) == Ok::<Seq<PieceView>, Seq<char>>(ps),
            collected(ctx@, ps, i as nat, start) == Ok::<Seq<RefEntry>, Seq<char>>(
                ref_views(refs@),
            ),
        decreases pieces@.len() - i,
    {
        assert(ps[i as int] == pieces@[i as int]@);
        match resolve_piece(&pieces[i], ctx) {
            Ok(v) => {
                if let Piece::StepOutput { step_id, output } = &pieces[i] {
                    put_ref(refs, step_id.as_str(), output.as_str(), v);
                }
            },
            Err(e) => {
                proof {
                    lemma_collected_error_stays(ctx@, ps, start, (i + 1) as nat, ps.len());
                }
                return Err(e);
            },
        }
        i += 1;
    }
    Ok(())
}

/// Resolves the references in the inputs of a fragment where it is called, at
/// `step_idx`. What they resolve to is what the fragment takes over.
pub fn resolve_invoke_deferred_with(
    invoke: &InvokeStep,
    scope_steps: &[TestStep],
    step_idx: usize,
    inherited_step_refs: &Vec<InheritedRef>,
) -> (r: Result<Vec<InheritedRef>, PlanError>)
    requires
        step_idx <= scope_steps@.len(),
    ensures
        ({
            let ctx = boundary_scope(
                invoke.uses@,
                scope_steps@,
                scope_steps@.take(step_idx as int),
                ref_views(inherited_step_refs@),
            );
            let want = inherited_refs(ctx, invoke.deferred_with@, invoke.deferred_with@.len());
            match r {
                Ok(refs) => want == Ok::<Seq<RefEntry>, Seq<char>>(ref_views(refs@)),
                Err(e) => want == Err::<Seq<RefEntry>, Seq<char>>(e@),
            }
        }),
{
    let (prior, _) = scope_steps.split_at(step_idx);
    let consumer = make_boundary_consumer(invoke.uses.as_str());
    let ctx = RefContext {
        consumer: &consumer,
        scope_steps,
        prior_steps: prior,
        inherited: inherited_step_refs,
        rule: OutputRule::Boundary(invoke.uses.as_str()),
    };
    assert(prior@ =~= scope_steps@.take(step_idx as int));
    let ghost view = boundary_scope(
        invoke.uses@,
        scope_steps@,
        scope_steps@.take(step_idx as int),
        ref_views(inherited_step_refs@),
    );
    assert(ctx@ == view);
    let ghost with = invoke.deferred_with@;
    let mut refs: Vec<InheritedRef> = Vec::new();
    assert(ref_views(refs@) =~= seq![]);
    let mut i: usize = 0;
    while i < invoke.deferred_with.len()
        invariant
            i <= invoke.deferred_with@.len(),
            with == invoke.deferred_with@,
            ctx@ == view,
            view == boundary_scope(
                invoke.uses@,
                scope_steps@,
                scope_steps@.take(step_idx as int),
                ref_views(inherited_step_refs@),
            ),
            inherited_refs(view, with, i as nat) == Ok::<Seq<RefEntry>, Seq<char>>(
                ref_views(refs@),
            ),
        decreases invoke.deferred_with@.len() - i,
    {
        if let Node::String(text) = &invoke.deferred_with[i].1 {
            match collect_refs(text.as_str(), &ctx, &mut refs) {
                Ok(()) => {},
                Err(e) => {
                    proof {
                        lemma_inherited_error_stays(view, with, (i + 1) as nat, with.len());
                    }
                    return Err(e);
                },
            }
        }
        i += 1;
    }
    Ok(refs)
}

/// The first `n` outputs that a fragment gives out when its steps have run, or why it
/// gives none out.
pub open spec fn invoke_outputs(invoke: InvokeStep, n: nat) -> Result<
    Seq<CapturedView>,
    Seq<char>,
>
    decreases n,
{
    if n == 0 {
        Ok(seq![])
    } else {
        let decl = invoke.output_decls@[n - 1];
        match invoke_outputs(invoke, (n - 1) as nat) {
            Err(e) => Err(e),
            Ok(front) => match decl_value(
                decl,
                "<invoke boundary: "@ + invoke.uses@ + ">"@,
                invoke.steps@,
                invoke.steps@,
            ) {
                Err(e) => Err(
                    in_context(not_given_out(invoke.uses@, decl.name@), e),
                ),
                Ok(value) => Ok(
                    front.push(
                        CapturedView {
                            name: decl.name@,
                            declared_type: decl.output_type,
                            value,
                        },
                    ),
                ),
            },
        }
    }
}

proof fn lemma_invoke_error_stays(invoke: InvokeStep, n: nat, m: nat)
    requires
        n <= m,
        invoke_outputs(invoke, n) is Err,
    ensures
        invoke_outputs(invoke, m) == invoke_outputs(invoke, n),
    decreases m,
{
    if n < m {
        lemma_invoke_error_stays(invoke, n, (m - 1) as nat);
    }
}

/// Stores the outputs that a fragment gives out when all its steps have run.
pub fn resolve_invoke_outputs(invoke: &mut InvokeStep) -> (r: Result<(), PlanError>)
    ensures
        *final(invoke) == (InvokeStep {
            captured_outputs: final(invoke).captured_outputs,
            ..*old(invoke)
        }),
        old(invoke).output_decls@.len() == 0 ==> r is Ok && *final(invoke) == *old(invoke),
        old(invoke).output_decls@.len() > 0 ==> match invoke_outputs(
            *old(invoke),
            old(invoke).output_decls@.len(),
        ) {
            Ok(outputs) => r is Ok && opt_captured(final(invoke).captured_outputs) == Some(
                outputs,
            ),
            Err(e) => outcome(r, Some(e)) && *final(invoke) == *old(invoke),
        },
{
    if invoke.output_decls.len() == 0 {
        return Ok(());
    }
    let ghost whole = *invoke;
    let consumer = make_boundary_consumer(invoke.uses.as_str());
    let mut outputs: Vec<CapturedOutput> = Vec::new();
    assert(captured_views(outputs@) =~= seq![]);
    let mut i: usize = 0;
    while i < invoke.output_decls.len()
        invariant
            i <= invoke.output_decls@.len(),
            whole == *old(invoke),
            *invoke == *old(invoke),
            invoke.output_decls@.len() > 0,
            consumer.name@ == "<invoke boundary: "@ + invoke.uses@ + ">"@,
            invoke_outputs(whole, i as nat) == Ok::<Seq<CapturedView>, Seq<char>>(
                captured_views(outputs@),
            ),
        decreases invoke.output_decls@.len() - i,
    {
        let ghost had = captured_views(outputs@);
        let value = match resolve_fragment_output_decl_value(
            &invoke.output_decls[i],
            &consumer,
            invoke.steps.as_slice(),
            invoke.steps.as_slice(),
        ) {
            Ok(value) => value,
            Err(e) => {
                proof {
                    lemma_invoke_error_stays(
                        whole,
                        (i + 1) as nat,
                        whole.output_decls@.len(),
                    );
                }
                let context = cat5(
                    "fragment '",
                    invoke.uses.as_str(),
                    "': failed to resolve output '",
                    invoke.output_decls[i].name.as_str(),
                    "'",
                );
                return Err(e.within(context.as_str()));
            },
        };
        let output = CapturedOutput {
            name: invoke.output_decls[i].name.clone(),
            declared_type: invoke.output_decls[i].output_type,
            value,
        };
        let ghost view = output@;
        outputs.push(output);
        assert(captured_views(outputs@) =~= had.push(view));
        i += 1;
    }
    invoke.captured_outputs = Some(outputs);
    Ok(())
}

// ---------------------------------------------------------------------------
// What holds of every reference
// ---------------------------------------------------------------------------

/// References look back only: unless the caller of the fragment resolved it, a
/// reference to a step that has not run is an error.
pub proof fn references_look_back(ctx: RefScope, step_id: Seq<char>, output: Seq<char>)
    requires
        ref_value(ctx.inherited, step_id, output) is None,
        step_by_id(ctx.prior, step_id) is None,
    ensures
        piece_value(ctx, PieceView::StepOutput { step_id, output }) is Err,
{
}

/// What the caller of a fragment resolved comes first: such a reference has that value
/// whatever the steps around it hold.
pub proof fn inherited_values_come_first(ctx: RefScope, step_id: Seq<char>, output: Seq<char>)
    requires
        ref_value(ctx.inherited, step_id, output) is Some,
    ensures
        piece_value(ctx, PieceView::StepOutput { step_id, output }) == Ok::<
            EvaluatedView,
            Seq<char>,
        >(ref_value(ctx.inherited, step_id, output)->0),
{
}

/// Text that opens no expression stays as it is, in every scope.
pub proof fn plain_text_is_kept(ctx: RefScope, text: Seq<char>)
    requires
        find(text, "${{"@) is None,
    ensures
        resolved_text(ctx, text) == Ok::<Seq<char>, Seq<char>>(text),
{
    plain_text_is_literal(text);
    let pieces = seq![PieceView::Literal(text)];
    assert(pieces_text(ctx, pieces, 0) == Ok::<Seq<char>, Seq<char>>(seq![]));
    assert(piece_value(ctx, pieces[0]) == Ok::<EvaluatedView, Seq<char>>(
        EvaluatedView::String(text),
    ));
    assert(seq![] + text =~= text);
    assert(pieces_text(ctx, pieces, 1) == Ok::<Seq<char>, Seq<char>>(text));
}

/// Whether two steps look alike apart from the values that they gave out.
pub open spec fn alike(a: TestStep, b: TestStep) -> bool {
    &&& step_id_of(a) == step_id_of(b)
    &&& kind_of(a) == kind_of(b)
    &&& match (outputs_of(a), outputs_of(b)) {
        (None, None) => true,
        (Some(x), Some(y)) => x.map_values(|o: CapturedView| o.name) == y.map_values(
            |o: CapturedView| o.name,
        ),
        _ => false,
    }
}

/// Whether two lists of steps look alike apart from the values that they gave out.
pub open spec fn all_alike(a: Seq<TestStep>, b: Seq<TestStep>) -> bool {
    a.len() == b.len() && forall|k: int| 0 <= k < a.len() ==> alike(#[trigger] a[k], b[k])
}

/// An error never shows a value, so no secret either: what a reference that cannot be
/// resolved is refused with does not depend on the values that steps gave out.
pub proof fn errors_do_not_show_values(
    consumer: Seq<char>,
    scope: Seq<TestStep>,
    prior: Seq<TestStep>,
    other_scope: Seq<TestStep>,
    other_prior: Seq<TestStep>,
    step_id: Seq<char>,
    output: Seq<char>,
)
    requires
        all_alike(scope, other_scope),
        all_alike(prior, other_prior),
        step_reference(consumer, scope, prior, step_id, output) is Err,
    ensures
        step_reference(consumer, other_scope, other_prior, step_id, output) == step_reference(
            consumer,
            scope,
            prior,
            step_id,
            output,
        ),
{
    lemma_alike_by_id(scope, other_scope, step_id);
    lemma_alike_by_id(prior, other_prior, step_id);
    if let Some(step) = step_by_id(prior, step_id) {
        let other = step_by_id(other_prior, step_id)->0;
        if let Some(outputs) = outputs_of(step) {
            lemma_same_names(outputs, outputs_of(other)->0, output);
        }
    }
}

/// The scope of the value of a declared output.
spec fn declaration_scope(
    name: Seq<char>,
    consumer: Seq<char>,
    scope: Seq<TestStep>,
    prior: Seq<TestStep>,
) -> RefScope {
    RefScope { consumer, scope, prior, inherited: seq![], rule: RuleView::Declaration(name) }
}

proof fn lemma_alike_the_other_way(a: Seq<TestStep>, b: Seq<TestStep>)
    requires
        all_alike(a, b),
    ensures
        all_alike(b, a),
{
    assert forall|k: int| 0 <= k < b.len() implies alike(#[trigger] b[k], a[k]) by {
        assert(alike(a[k], b[k]));
    }
}

proof fn lemma_blind_pieces(
    name: Seq<char>,
    consumer: Seq<char>,
    scope: Seq<TestStep>,
    prior: Seq<TestStep>,
    other_scope: Seq<TestStep>,
    other_prior: Seq<TestStep>,
    pieces: Seq<PieceView>,
    n: nat,
)
    requires
        all_alike(scope, other_scope),
        all_alike(prior, other_prior),
        n <= pieces.len(),
    ensures
        ({
            let here = pieces_text(
                declaration_scope(name, consumer, scope, prior),
                pieces,
                n,
            );
            let there = pieces_text(
                declaration_scope(name, consumer, other_scope, other_prior),
                pieces,
                n,
            );
            here is Err ==> there == here
        }),
    decreases n,
{
    if n > 0 {
        let front = (n - 1) as nat;
        lemma_blind_pieces(
            name,
            consumer,
            scope,
            prior,
            other_scope,
            other_prior,
            pieces,
            front,
        );
        lemma_alike_the_other_way(scope, other_scope);
        lemma_alike_the_other_way(prior, other_prior);
        lemma_blind_pieces(
            name,
            consumer,
            other_scope,
            other_prior,
            scope,
            prior,
            pieces,
            front,
        );
        let here = declaration_scope(name, consumer, scope, prior);
        let there = declaration_scope(name, consumer, other_scope, other_prior);
        assert(pieces_text(here, pieces, front) is Ok ==> pieces_text(there, pieces, front) is Ok);
        if let PieceView::StepOutput { step_id, output } = pieces[n - 1] {
            assert(ref_value(here.inherited, step_id, output) is None);
            assert(ref_value(there.inherited, step_id, output) is None);
            if step_reference(consumer, scope, prior, step_id, output) is Err {
                errors_do_not_show_values(
                    consumer,
                    scope,
                    prior,
                    other_scope,
                    other_prior,
                    step_id,
                    output,
                );
            }
        }
        assert(piece_value(here, pieces[n - 1]) is Err ==> piece_value(there, pieces[n - 1])
            == piece_value(here, pieces[n - 1]));
    }
}

/// Whether an error about the value of a declared output is told without looking at a value:
/// it is that the value is not of its type, that there is none, or what the other steps,
/// which look alike apart from the values that they gave out, give as well.
pub open spec fn is_blind(
    decl: FragmentOutputDecl,
    consumer: Seq<char>,
    other_scope: Seq<TestStep>,
    other_prior: Seq<TestStep>,
    error: Seq<char>,
) -> bool {
    ||| error == in_context(wrong_type(decl), mistyped(decl.name@, decl.output_type.word()))
    ||| error == no_value(decl)
    ||| decl_value(decl, consumer, other_scope, other_prior) == Err::<OutputView, Seq<char>>(error)
}

/// An error about the value of an output that a fragment declares never shows a value.
pub proof fn errors_of_declarations_do_not_show_values(
    decl: FragmentOutputDecl,
    consumer: Seq<char>,
    scope: Seq<TestStep>,
    prior: Seq<TestStep>,
    other_scope: Seq<TestStep>,
    other_prior: Seq<TestStep>,
)
    requires
        all_alike(scope, other_scope),
        all_alike(prior, other_prior),
    ensures
        decl_value(decl, consumer, scope, prior) matches Err(e) ==> is_blind(
            decl,
            consumer,
            other_scope,
            other_prior,
            e,
        ),
{
    let text = decl.value@;
    if let Ok(pieces) = pieces_of(text, text) {
        lemma_blind_pieces(
            decl.name@,
            consumer,
            scope,
            prior,
            other_scope,
            other_prior,
            pieces,
            pieces.len(),
        );
    }
}

/// An error about a reference to an output of the fragment never shows a value: what it
/// tells of the output's value is told without looking at one, and any other error is the
/// same whatever the values are.
pub proof fn errors_of_fragment_outputs_do_not_show_values(
    ctx: RefScope,
    other_scope: Seq<TestStep>,
    other_prior: Seq<TestStep>,
    output: Seq<char>,
)
    requires
        all_alike(ctx.scope, other_scope),
        all_alike(ctx.prior, other_prior),
    ensures
        ({
            let piece = PieceView::FragmentOutput { output };
            let other = RefScope { scope: other_scope, prior: other_prior, ..ctx };
            piece_value(ctx, piece) matches Err(e) ==> {
                ||| piece_value(other, piece) == Err::<EvaluatedView, Seq<char>>(e)
                ||| exists|decl: FragmentOutputDecl, inner: Seq<char>|
                    #![trigger is_blind(decl, ctx.consumer, other_scope, other_prior, inner)]
                    is_blind(decl, ctx.consumer, other_scope, other_prior, inner) && e
                        == in_context(unresolved_output(ctx.consumer, output), inner)
            }
        }),
{
    if let RuleView::Fragment(Some(decls)) = ctx.rule {
        if let Some(decl) = decl_named(decls, output) {
            errors_of_declarations_do_not_show_values(
                decl,
                ctx.consumer,
                ctx.scope,
                ctx.prior,
                other_scope,
                other_prior,
            );
            if let Err(inner) = decl_value(decl, ctx.consumer, ctx.scope, ctx.prior) {
                assert(is_blind(decl, ctx.consumer, other_scope, other_prior, inner));
            }
        }
    }
}

/// The message that an output of a fragment cannot be given out.
pub open spec fn not_given_out(uses: Seq<char>, name: Seq<char>) -> Seq<char> {
    "fragment '"@ + uses + "': failed to resolve output '"@ + name + "'"@
}

/// An error about the outputs that a fragment gives out never shows a value: it is about one
/// of the outputs, and told without looking at a value.
pub proof fn errors_at_the_boundary_do_not_show_values(
    invoke: InvokeStep,
    other_steps: Seq<TestStep>,
    n: nat,
)
    requires
        all_alike(invoke.steps@, other_steps),
        n <= invoke.output_decls@.len(),
    ensures
        invoke_outputs(invoke, n) matches Err(e) ==> exists|k: int, inner: Seq<char>|
            #![trigger not_given_out(invoke.uses@, invoke.output_decls@[k].name@), in_context(
                not_given_out(invoke.uses@, invoke.output_decls@[k].name@),
                inner,
            )]
            0 <= k < n && e == in_context(
                not_given_out(invoke.uses@, invoke.output_decls@[k].name@),
                inner,
            ) && is_blind(
                invoke.output_decls@[k],
                "<invoke boundary: "@ + invoke.uses@ + ">"@,
                other_steps,
                other_steps,
                inner,
            ),
    decreases n,
{
    if n > 0 {
        errors_at_the_boundary_do_not_show_values(invoke, other_steps, (n - 1) as nat);
        let decl = invoke.output_decls@[n - 1];
        let consumer = "<invoke boundary: "@ + invoke.uses@ + ">"@;
        errors_of_declarations_do_not_show_values(
            decl,
            consumer,
            invoke.steps@,
            invoke.steps@,
            other_steps,
            other_steps,
        );
        if invoke_outputs(invoke, (n - 1) as nat) is Ok {
            if let Err(inner) = decl_value(decl, consumer, invoke.steps@, invoke.steps@) {
                assert(invoke_outputs(invoke, n) == Err::<Seq<CapturedView>, Seq<char>>(
                    in_context(not_given_out(invoke.uses@, decl.name@), inner),
                ));
            }
        }
    }
}

proof fn lemma_alike_by_id(a: Seq<TestStep>, b: Seq<TestStep>, id: Seq<char>)
    requires
        all_alike(a, b),
    ensures
        match (step_by_id(a, id), step_by_id(b, id)) {
            (None, None) => true,
            (Some(x), Some(y)) => alike(x, y),
            _ => false,
        },
    decreases a.len(),
{
    if a.len() > 0 {
        assert(alike(a[0], b[0]));
        let ra = a.skip(1);
        let rb = b.skip(1);
        assert forall|k: int| 0 <= k < ra.len() implies alike(#[trigger] ra[k], rb[k]) by {
            assert(alike(a[k + 1], b[k + 1]));
        }
        lemma_alike_by_id(ra, rb, id);
    }
}

proof fn lemma_same_names(a: Seq<CapturedView>, b: Seq<CapturedView>, name: Seq<char>)
    requires
        a.map_values(|o: CapturedView| o.name) == b.map_values(|o: CapturedView| o.name),
    ensures
        output_named(a, name) is Some <==> output_named(b, name) is Some,
    decreases a.len(),
{
    let na = a.map_values(|o: CapturedView| o.name);
    let nb = b.map_values(|o: CapturedView| o.name);
    assert(a.len() == na.len() && b.len() == nb.len());
    if a.len() > 0 {
        assert(na[0] == nb[0]);
        assert(a.skip(1).map_values(|o: CapturedView| o.name) =~= na.skip(1));
        assert(b.skip(1).map_values(|o: CapturedView| o.name) =~= nb.skip(1));
        lemma_same_names(a.skip(1), b.skip(1), name);
    }
}

/// A fragment gives out what it declares: one output for each declaration, in their
/// order, under its name and with its type. So an output that is declared secret stays
/// secret for the caller.
pub proof fn fragments_give_out_what_they_declare(invoke: InvokeStep, n: nat)
    requires
        n <= invoke.output_decls@.len(),
        invoke_outputs(invoke, n) is Ok,
    ensures
        invoke_outputs(invoke, n)->Ok_0.len() == n,
        forall|k: int|
            0 <= k < n ==> (#[trigger] invoke_outputs(invoke, n)->Ok_0[k]).name
                == invoke.output_decls@[k].name@ && invoke_outputs(invoke, n)->Ok_0[k].declared_type
                == invoke.output_decls@[k].output_type,
    decreases n,
{
    if n > 0 {
        fragments_give_out_what_they_declare(invoke, (n - 1) as nat);
    }
}

proof fn lemma_captured_by_name(
    step_name: Seq<char>,
    decls: Seq<(String, OutputDecl)>,
    written: Seq<Pair>,
    n: nat,
    i: int,
)
    requires
        0 <= i < n <= decls.len(),
        forall|j: int| 0 <= j < i ==> (#[trigger] decls[j]).0@ != decls[i].0@,
        captured_outputs(step_name, decls, written, n) is Ok,
    ensures
        captured_output(step_name, decls[i], written) is Ok,
        captured_outputs(step_name, decls, written, n)->Ok_0.len() == n,
        captured_outputs(step_name, decls, written, n)->Ok_0[i] == captured_output(
            step_name,
            decls[i],
            written,
        )->Ok_0,
        forall|j: int|
            0 <= j < n ==> (#[trigger] captured_outputs(step_name, decls, written, n)->Ok_0[j]).name
                == decls[j].0@,
    decreases n,
{
    if i < n - 1 {
        lemma_captured_by_name(step_name, decls, written, (n - 1) as nat, i);
    } else {
        lemma_captured_names(step_name, decls, written, (n - 1) as nat);
    }
}

proof fn lemma_captured_names(
    step_name: Seq<char>,
    decls: Seq<(String, OutputDecl)>,
    written: Seq<Pair>,
    n: nat,
)
    requires
        n <= decls.len(),
        captured_outputs(step_name, decls, written, n) is Ok,
    ensures
        captured_outputs(step_name, decls, written, n)->Ok_0.len() == n,
        forall|j: int|
            0 <= j < n ==> (#[trigger] captured_outputs(step_name, decls, written, n)->Ok_0[j]).name
                == decls[j].0@,
    decreases n,
{
    if n > 0 {
        lemma_captured_names(step_name, decls, written, (n - 1) as nat);
    }
}

proof fn lemma_output_named(outputs: Seq<CapturedView>, i: int)
    requires
        0 <= i < outputs.len(),
        forall|j: int| 0 <= j < i ==> (#[trigger] outputs[j]).name != outputs[i].name,
    ensures
        output_named(outputs, outputs[i].name) == Some(outputs[i].value),
    decreases i,
{
    if i > 0 {
        assert(outputs[0].name != outputs[i].name);
        let rest = outputs.skip(1);
        assert forall|j: int| 0 <= j < i - 1 implies (#[trigger] rest[j]).name != rest[i - 1].name by {
            assert(outputs[j + 1].name != outputs[i].name);
        }
        lemma_output_named(rest, i - 1);
        assert(rest[i - 1] == outputs[i]);
    }
}

/// The text that stands for an output of a type that a step wrote as `value`: a number in plain
/// decimal notation, anything else as it was written.
pub open spec fn text_read(output_type: OutputType, value: Seq<char>) -> Seq<char> {
    if output_type == OutputType::Number {
        number_text(value)
    } else {
        value
    }
}

/// What a step writes, later steps read: where a step that has run wrote `value` as an output
/// that it declares, a reference to it stands for exactly that text, or for that number in plain
/// decimal notation, and the text around the reference stays.
pub proof fn outputs_reach_later_steps(
    ctx: RefScope,
    step: RunStep,
    step_id: Seq<char>,
    written: Seq<Pair>,
    i: int,
    value: Seq<char>,
    front: Seq<char>,
    rest: Seq<char>,
)
    requires
        step_by_id(ctx.prior, step_id) == Some(TestStep::Run(step)),
        0 <= i < step.outputs@.len(),
        forall|j: int| 0 <= j < i ==> (#[trigger] step.outputs@[j]).0@ != step.outputs@[i].0@,
        captured_outputs(step.name@, step.outputs@, written, step.outputs@.len()) is Ok,
        opt_captured(step.captured_outputs) == Some(
            captured_outputs(step.name@, step.outputs@, written, step.outputs@.len())->Ok_0,
        ),
        last_value(written, step.outputs@[i].0@) == Some(value),
        ref_value(ctx.inherited, step_id, step.outputs@[i].0@) is None,
        valid_name(step_id),
        valid_name(step.outputs@[i].0@),
        find(front, "${{"@) is None,
        find(rest, "${{"@) is None,
    ensures
        resolved_text(ctx, front + step_placeholder(step_id, step.outputs@[i].0@) + rest) == Ok::<
            Seq<char>,
            Seq<char>,
        >(front + text_read(step.outputs@[i].1.output_type, value) + rest),
{
    let output = step.outputs@[i].0@;
    let read = text_read(step.outputs@[i].1.output_type, value);
    let outputs = captured_outputs(step.name@, step.outputs@, written, step.outputs@.len())->Ok_0;
    let text = front + step_placeholder(step_id, output) + rest;
    lemma_captured_by_name(step.name@, step.outputs@, written, step.outputs@.len(), i);
    assert forall|j: int| 0 <= j < i implies (#[trigger] outputs[j]).name != outputs[i].name by {
        assert(step.outputs@[j].0@ != step.outputs@[i].0@);
    }
    lemma_output_named(outputs, i);
    let kept = outputs[i].value;
    assert(kept.used() == read) by {
        if value.len() == 0 {
            assert(value =~= seq![]);
            assert(number_text(value) == value) by {
                reveal_strlit("nan");
                reveal_strlit("inf");
                reveal_strlit("infinity");
                assert(lowered(value).len() == 0);
                assert(!is_decimal(value));
            }
        }
    }
    evaluation_keeps_the_text(kept);
    references_are_found(text, front, step_id, output, rest);
    let pieces = seq![
        PieceView::Literal(front),
        PieceView::StepOutput { step_id, output },
        PieceView::Literal(rest),
    ];
    assert(piece_value(ctx, pieces[0]) == Ok::<EvaluatedView, Seq<char>>(
        EvaluatedView::String(front),
    ));
    assert(piece_value(ctx, pieces[1]) == Ok::<EvaluatedView, Seq<char>>(evaluated(kept)));
    assert(piece_value(ctx, pieces[2]) == Ok::<EvaluatedView, Seq<char>>(
        EvaluatedView::String(rest),
    ));
    assert(pieces_text(ctx, pieces, 0) == Ok::<Seq<char>, Seq<char>>(seq![]));
    assert(seq![] + front =~= front);
    assert(pieces_text(ctx, pieces, 1) == Ok::<Seq<char>, Seq<char>>(front));
    assert(pieces_text(ctx, pieces, 2) == Ok::<Seq<char>, Seq<char>>(front + read));
    assert(pieces_text(ctx, pieces, 3) == Ok::<Seq<char>, Seq<char>>(front + read + rest));
}

} // verus!
