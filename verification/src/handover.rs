//! What steps hand over to one another: outputs, and the references to them.

use vstd::prelude::*;
use vstd::string::*;

use crate::env::last_value;
use crate::numbers::{is_decimal, is_number, lowered};
use crate::outputs::{
    EvaluatedView, captured_outputs, coerced, opt_captured, outputs_of, step_by_id, step_id_of,
};
use crate::pairs::Pair;
use crate::references::{PieceView, pieces_of};
use crate::scope::{
    RefEntry, RefScope, RuleView, collected, decl_named, decl_value,
    fragments_give_out_what_they_declare, inherited_refs, invoke_outputs, piece_value,
    pieces_text, rank, ref_index, ref_put, ref_value, resolved_text, text_read,
};
use crate::step::{InvokeStep, OutputDecl, OutputType, RunStep, TestStep};
use crate::text::opt_text;
use crate::value::{Node, NodeView};

verus! {

// ---------------------------------------------------------------------------
// Texts and the steps before them
// ---------------------------------------------------------------------------

/// Whether two scopes differ at most in the steps that have not run.
pub open spec fn same_past(a: RefScope, b: RefScope) -> bool {
    a.consumer == b.consumer && a.prior == b.prior && a.inherited == b.inherited && a.rule
        == b.rule
}

/// What a text stands for is settled by the steps that have run: steps that have not can make
/// an error, but no other text.
pub proof fn texts_depend_on_earlier_steps(a: RefScope, b: RefScope, text: Seq<char>)
    requires
        same_past(a, b),
    ensures
        resolved_text(a, text) is Ok && resolved_text(b, text) is Ok ==> resolved_text(a, text)
            == resolved_text(b, text),
    decreases rank(a.rule), 2nat, 0nat,
{
    if let Ok(pieces) = pieces_of(text, text) {
        lemma_pieces_past(a, b, pieces, pieces.len());
    }
}

proof fn lemma_pieces_past(a: RefScope, b: RefScope, pieces: Seq<PieceView>, n: nat)
    requires
        same_past(a, b),
    ensures
        pieces_text(a, pieces, n) is Ok && pieces_text(b, pieces, n) is Ok ==> pieces_text(
            a,
            pieces,
            n,
        ) == pieces_text(b, pieces, n),
    decreases rank(a.rule), 1nat, n,
{
    if n > 0 {
        lemma_pieces_past(a, b, pieces, (n - 1) as nat);
        lemma_piece_past(a, b, pieces[n - 1]);
    }
}

proof fn lemma_piece_past(a: RefScope, b: RefScope, piece: PieceView)
    requires
        same_past(a, b),
    ensures
        piece_value(a, piece) is Ok && piece_value(b, piece) is Ok ==> piece_value(a, piece)
            == piece_value(b, piece),
    decreases rank(a.rule), 0nat, 0nat,
{
    if let PieceView::FragmentOutput { output } = piece {
        if let RuleView::Fragment(Some(decls)) = a.rule {
            if let Some(decl) = decl_named(decls, output) {
                let rule = RuleView::Declaration(decl.name@);
                let none = Seq::<RefEntry>::empty();
                let x = RefScope {
                    consumer: a.consumer,
                    scope: a.scope,
                    prior: a.prior,
                    inherited: none,
                    rule,
                };
                let y = RefScope {
                    consumer: b.consumer,
                    scope: b.scope,
                    prior: b.prior,
                    inherited: none,
                    rule,
                };
                texts_depend_on_earlier_steps(x, y, decl.value@);
            }
        }
    }
}

// ---------------------------------------------------------------------------
// Outputs and their types
// ---------------------------------------------------------------------------

/// An output is used as it was written: where a text is accepted for a type, the value stands for
/// just that text, or for that number in plain decimal notation. Empty text is no value. Any text
/// is accepted for a string and a secret, numbers for a number, and `true` and `false` for a
/// truth value.
pub proof fn outputs_are_used_as_written(name: Seq<char>, text: Seq<char>, output_type: OutputType)
    ensures
        coerced(name, text, output_type) matches Ok(v) ==> {
            &&& v.used() == text_read(output_type, text)
            &&& v is Null <==> text.len() == 0
            &&& output_type == OutputType::Secret || output_type == OutputType::String ==> v is Null
                || v is String
            &&& output_type == OutputType::Number ==> v is Null || v is Number
            &&& output_type == OutputType::Bool ==> v is Null || v is Bool
        },
        coerced(name, text, output_type) is Ok <==> {
            ||| text.len() == 0
            ||| output_type == OutputType::String
            ||| output_type == OutputType::Secret
            ||| output_type == OutputType::Number && is_number(text)
            ||| output_type == OutputType::Bool && (text == "true"@ || text == "false"@)
        },
{
    reveal_strlit("nan");
    reveal_strlit("inf");
    reveal_strlit("infinity");
    if text.len() == 0 {
        assert(text =~= seq![]);
        assert(lowered(text).len() == 0);
        assert(!is_decimal(text));
    }
}

/// What a step gives out: an output for each declaration, in their order, with its name and its
/// type, so that what is declared secret stays secret. Its value is the last one that the step
/// wrote under that name, if it wrote one. What is required is there.
pub proof fn steps_give_out_what_they_wrote(
    step_name: Seq<char>,
    decls: Seq<(String, OutputDecl)>,
    written: Seq<Pair>,
    n: nat,
)
    requires
        n <= decls.len(),
    ensures
        captured_outputs(step_name, decls, written, n) matches Ok(outputs) ==> {
            &&& outputs.len() == n
            &&& forall|i: int|
                0 <= i < n ==> {
                    let output = #[trigger] outputs[i];
                    &&& output.name == decls[i].0@
                    &&& output.declared_type == decls[i].1.output_type
                    &&& match last_value(written, decls[i].0@) {
                        Some(text) => output.value.used() == text_read(
                            decls[i].1.output_type,
                            text,
                        ),
                        None => output.value is Null,
                    }
                    &&& decls[i].1.required ==> !(output.value is Null)
                }
        },
        captured_outputs(step_name, decls, written, n) is Ok <==> forall|i: int|
            0 <= i < n ==> is_given(#[trigger] decls[i], written),
    decreases n,
{
    if n > 0 {
        steps_give_out_what_they_wrote(step_name, decls, written, (n - 1) as nat);
        let decl = decls[n - 1];
        let text = match last_value(written, decl.0@) {
            Some(v) => v,
            None => seq![],
        };
        outputs_are_used_as_written(decl.0@, text, decl.1.output_type);
        if captured_outputs(step_name, decls, written, (n - 1) as nat) is Ok {
            assert(captured_outputs(step_name, decls, written, n) is Ok <==> is_given(
                decl,
                written,
            ));
        } else {
            let i = choose|i: int| 0 <= i < n - 1 && !is_given(#[trigger] decls[i], written);
            assert(!is_given(decls[i], written));
        }
    }
}

/// Whether a step wrote what it declares: text that its type accepts, and some text if the output
/// is required.
pub open spec fn is_given(decl: (String, OutputDecl), written: Seq<Pair>) -> bool {
    let text = match last_value(written, decl.0@) {
        Some(v) => v,
        None => Seq::empty(),
    };
    if text.len() == 0 {
        !decl.1.required
    } else {
        match decl.1.output_type {
            OutputType::String | OutputType::Secret => true,
            OutputType::Number => is_number(text),
            OutputType::Bool => text == "true"@ || text == "false"@,
        }
    }
}

/// What a fragment gives out for a declaration: the text that its value comes to once all its
/// steps have run, or the default where that is empty. What is required is there, or the
/// fragment fails.
pub proof fn fragments_give_out_their_values(invoke: InvokeStep, n: nat, i: int)
    requires
        0 <= i < n <= invoke.output_decls@.len(),
        invoke_outputs(invoke, n) is Ok,
    ensures
        ({
            let decl = invoke.output_decls@[i];
            let consumer = "<invoke boundary: "@ + invoke.uses@ + ">"@;
            let whole = RefScope {
                consumer,
                scope: invoke.steps@,
                prior: invoke.steps@,
                inherited: Seq::empty(),
                rule: RuleView::Declaration(decl.name@),
            };
            let value = invoke_outputs(invoke, n)->Ok_0[i].value;
            &&& resolved_text(whole, decl.value@) matches Ok(text) && {
                if text.len() > 0 {
                    !(value is Null) && value.used() == text_read(decl.output_type, text)
                } else {
                    match decl.default {
                        Some(default) => value == default@,
                        None => value is Null,
                    }
                }
            }
            &&& decl.required ==> !(value is Null)
        }),
    decreases n,
{
    fragments_give_out_what_they_declare(invoke, n);
    fragments_give_out_what_they_declare(invoke, (n - 1) as nat);
    if i < n - 1 {
        fragments_give_out_their_values(invoke, (n - 1) as nat, i);
    } else {
        let decl = invoke.output_decls@[i];
        let consumer = "<invoke boundary: "@ + invoke.uses@ + ">"@;
        let whole = RefScope {
            consumer,
            scope: invoke.steps@,
            prior: invoke.steps@,
            inherited: Seq::empty(),
            rule: RuleView::Declaration(decl.name@),
        };
        assert(Seq::<RefEntry>::empty() =~= seq![]);
        assert(decl_value(decl, consumer, invoke.steps@, invoke.steps@) is Ok);
        if let Ok(text) = resolved_text(whole, decl.value@) {
            outputs_are_used_as_written(decl.name@, text, decl.output_type);
        }
    }
}

// ---------------------------------------------------------------------------
// References that are handed down
// ---------------------------------------------------------------------------

/// Whether the values in a list of references are those that the references have in a scope.
pub open spec fn refs_hold(ctx: RefScope, refs: Seq<RefEntry>) -> bool {
    forall|k: int|
        0 <= k < refs.len() ==> piece_value(
            ctx,
            PieceView::StepOutput {
                step_id: (#[trigger] refs[k]).step_id,
                output: refs[k].output,
            },
        ) == Ok::<EvaluatedView, Seq<char>>(refs[k].value)
}

proof fn lemma_ref_index(refs: Seq<RefEntry>, step_id: Seq<char>, output: Seq<char>)
    ensures
        match ref_index(refs, step_id, output) {
            Some(k) => 0 <= k < refs.len() && refs[k].step_id == step_id && refs[k].output
                == output,
            None => forall|k: int|
                0 <= k < refs.len() ==> !((#[trigger] refs[k]).step_id == step_id
                    && refs[k].output == output),
        },
    decreases refs.len(),
{
    if refs.len() > 0 && !(refs[0].step_id == step_id && refs[0].output == output) {
        let rest = refs.skip(1);
        lemma_ref_index(rest, step_id, output);
        match ref_index(rest, step_id, output) {
            Some(k) => {
                assert(rest[k] == refs[k + 1]);
            },
            None => {
                assert forall|k: int| 0 <= k < refs.len() implies !((
                #[trigger] refs[k]).step_id == step_id && refs[k].output == output) by {
                    if k > 0 {
                        assert(rest[k - 1] == refs[k]);
                    }
                }
            },
        }
    }
}

proof fn lemma_ref_put(
    refs: Seq<RefEntry>,
    step_id: Seq<char>,
    output: Seq<char>,
    value: EvaluatedView,
    other: Seq<char>,
    other_output: Seq<char>,
)
    ensures
        ({
            let after = ref_put(refs, step_id, output, value);
            &&& ref_value(after, step_id, output) is Some
            &&& ref_value(refs, other, other_output) is Some ==> ref_value(
                after,
                other,
                other_output,
            ) is Some
        }),
{
    let after = ref_put(refs, step_id, output, value);
    lemma_ref_index(refs, step_id, output);
    lemma_ref_index(after, step_id, output);
    lemma_ref_index(refs, other, other_output);
    lemma_ref_index(after, other, other_output);
    match ref_index(refs, step_id, output) {
        Some(k) => {
            assert(after[k].step_id == step_id && after[k].output == output);
        },
        None => {
            let k = refs.len() as int;
            assert(after[k].step_id == step_id && after[k].output == output);
        },
    }
    if let Some(j) = ref_index(refs, other, other_output) {
        assert(after[j].step_id == other && after[j].output == other_output);
    }
}

proof fn lemma_collected(
    ctx: RefScope,
    pieces: Seq<PieceView>,
    n: nat,
    refs: Seq<RefEntry>,
    step_id: Seq<char>,
    output: Seq<char>,
)
    requires
        n <= pieces.len(),
        refs_hold(ctx, refs),
    ensures
        collected(ctx, pieces, n, refs) matches Ok(after) ==> {
            &&& refs_hold(ctx, after)
            &&& ref_value(refs, step_id, output) is Some ==> ref_value(
                after,
                step_id,
                output,
            ) is Some
            &&& (exists|i: int|
                0 <= i < n && #[trigger] pieces[i] == (PieceView::StepOutput { step_id, output }))
                ==> ref_value(after, step_id, output) is Some
        },
    decreases n,
{
    if n > 0 {
        lemma_collected(ctx, pieces, (n - 1) as nat, refs, step_id, output);
        if let Ok(front) = collected(ctx, pieces, (n - 1) as nat, refs) {
            if let PieceView::StepOutput { step_id: id, output: out } = pieces[n - 1] {
                if let Ok(value) = piece_value(ctx, pieces[n - 1]) {
                    lemma_ref_put(front, id, out, value, step_id, output);
                    lemma_ref_index(front, id, out);
                    let after = ref_put(front, id, out, value);
                    assert forall|k: int| 0 <= k < after.len() implies piece_value(
                        ctx,
                        PieceView::StepOutput {
                            step_id: (#[trigger] after[k]).step_id,
                            output: after[k].output,
                        },
                    ) == Ok::<EvaluatedView, Seq<char>>(after[k].value) by {
                        if k < front.len() && ref_index(front, id, out) != Some(k) {
                            assert(after[k] == front[k]);
                        }
                    }
                }
            }
        }
    }
}

/// What a caller hands down to a fragment: a value for each reference in the inputs that could
/// not be filled in before, and that is the value which the reference has where the caller
/// stands.
pub proof fn callers_hand_their_references_down(
    ctx: RefScope,
    with: Seq<(String, Node)>,
    n: nat,
    i: int,
    step_id: Seq<char>,
    output: Seq<char>,
)
    requires
        0 <= i < n <= with.len(),
        inherited_refs(ctx, with, n) is Ok,
        with[i].1@ matches NodeView::String(text) && (pieces_of(text, text) matches Ok(pieces)
            && pieces.contains(PieceView::StepOutput { step_id, output })),
    ensures
        refs_hold(ctx, inherited_refs(ctx, with, n)->Ok_0),
        ref_value(inherited_refs(ctx, with, n)->Ok_0, step_id, output) is Some,
        piece_value(ctx, PieceView::StepOutput { step_id, output }) == Ok::<
            EvaluatedView,
            Seq<char>,
        >(ref_value(inherited_refs(ctx, with, n)->Ok_0, step_id, output)->0),
    decreases n,
{
    let refs = inherited_refs(ctx, with, n)->Ok_0;
    lemma_refs_hold(ctx, with, (n - 1) as nat);
    lemma_refs_hold(ctx, with, n);
    let front = inherited_refs(ctx, with, (n - 1) as nat)->Ok_0;
    if i < n - 1 {
        callers_hand_their_references_down(ctx, with, (n - 1) as nat, i, step_id, output);
    }
    if let NodeView::String(text) = with[n - 1].1@ {
        if let Ok(pieces) = pieces_of(text, text) {
            lemma_collected(ctx, pieces, pieces.len(), front, step_id, output);
            if i == n - 1 {
                let k = choose|k: int|
                    0 <= k < pieces.len() && pieces[k] == (PieceView::StepOutput {
                        step_id,
                        output,
                    });
                assert(pieces[k] == (PieceView::StepOutput { step_id, output }));
            }
        }
    }
    lemma_ref_index(refs, step_id, output);
}

proof fn lemma_refs_hold(ctx: RefScope, with: Seq<(String, Node)>, n: nat)
    requires
        n <= with.len(),
        inherited_refs(ctx, with, n) is Ok,
    ensures
        refs_hold(ctx, inherited_refs(ctx, with, n)->Ok_0),
    decreases n,
{
    if n > 0 {
        lemma_refs_hold(ctx, with, (n - 1) as nat);
        let front = inherited_refs(ctx, with, (n - 1) as nat)->Ok_0;
        if let NodeView::String(text) = with[n - 1].1@ {
            if let Ok(pieces) = pieces_of(text, text) {
                lemma_collected(ctx, pieces, pieces.len(), front, seq![], seq![]);
            }
        }
    }
}

/// A step is found by its identifier: the first of those that have it, and none just if none has
/// it.
pub proof fn steps_are_found_by_id(steps: Seq<TestStep>, id: Seq<char>)
    ensures
        match step_by_id(steps, id) {
            Some(step) => exists|k: int|
                0 <= k < steps.len() && #[trigger] steps[k] == step && step_id_of(steps[k]) == Some(
                    id,
                ) && forall|j: int| 0 <= j < k ==> step_id_of(#[trigger] steps[j]) != Some(id),
            None => forall|k: int| 0 <= k < steps.len() ==> step_id_of(#[trigger] steps[k]) != Some(
                id,
            ),
        },
    decreases steps.len(),
{
    if steps.len() > 0 {
        let rest = steps.skip(1);
        assert forall|j: int| 0 <= j < rest.len() implies #[trigger] rest[j] == steps[j + 1] by {}
        steps_are_found_by_id(rest, id);
        if step_id_of(steps[0]) == Some(id) {
            assert(steps[0] == step_by_id(steps, id)->0);
        } else {
            match step_by_id(rest, id) {
                Some(step) => {
                    let k = choose|k: int|
                        0 <= k < rest.len() && #[trigger] rest[k] == step && step_id_of(rest[k])
                            == Some(id) && forall|j: int|
                            0 <= j < k ==> step_id_of(#[trigger] rest[j]) != Some(id);
                    assert(steps[k + 1] == step);
                    assert forall|j: int| 0 <= j < k + 1 implies step_id_of(#[trigger] steps[j])
                        != Some(id) by {
                        if j > 0 {
                            assert(rest[j - 1] == steps[j]);
                        }
                    }
                },
                None => {
                    assert forall|k: int| 0 <= k < steps.len() implies step_id_of(
                        #[trigger] steps[k],
                    ) != Some(id) by {
                        if k > 0 {
                            assert(rest[k - 1] == steps[k]);
                        }
                    }
                },
            }
        }
    }
}

/// The identifier of a step that runs something or takes a fragment in is its own; an archive
/// step has none.
pub proof fn steps_have_their_own_id(run: RunStep, invoke: InvokeStep)
    ensures
        step_id_of(TestStep::Run(run)) == opt_text(run.id),
        step_id_of(TestStep::Invoke(invoke)) == opt_text(invoke.id),
        outputs_of(TestStep::Run(run)) == opt_captured(run.captured_outputs),
        outputs_of(TestStep::Invoke(invoke)) == opt_captured(invoke.captured_outputs),
{
}

} // verus!
