//! Expressions that refer to the outputs of steps, and their place in a text.

use vstd::prelude::*;
use vstd::string::*;

use crate::error::PlanError;
use crate::strings::{cat3, search, slice, to_chars, trimmed, without_prefix};
use crate::template::{
    is_valid_namespace_name, lemma_first_expression, lemma_name_char_is_plain, valid_name,
};
use crate::text::{
    find, is_space, lemma_find_skip, lemma_first_is_found, occurs_at, starts_with, trim,
};

verus! {

/// A part of a text with expressions.
#[derive(Debug, PartialEq, Eq)]
pub enum Piece {
    /// Text that stands for itself.
    Literal(String),
    /// `${{ steps.ID.outputs.NAME }}`: an output of a step.
    StepOutput { step_id: String, output: String },
    /// `${{ outputs.NAME }}`: an output of the fragment.
    FragmentOutput { output: String },
}

/// The model of a [`Piece`].
pub enum PieceView {
    Literal(Seq<char>),
    StepOutput { step_id: Seq<char>, output: Seq<char> },
    FragmentOutput { output: Seq<char> },
}

impl View for Piece {
    type V = PieceView;

    open spec fn view(&self) -> PieceView {
        match self {
            Piece::Literal(s) => PieceView::Literal(s@),
            Piece::StepOutput { step_id, output } => PieceView::StepOutput {
                step_id: step_id@,
                output: output@,
            },
            Piece::FragmentOutput { output } => PieceView::FragmentOutput { output: output@ },
        }
    }
}

/// The contents of a list of pieces.
pub open spec fn piece_views(v: Seq<Piece>) -> Seq<PieceView> {
    v.map_values(|p: Piece| p@)
}

/// The output that an expression refers to.
pub open spec fn referred(expr: Seq<char>) -> Option<PieceView> {
    if starts_with(expr, "steps."@) {
        let path = expr.skip(6);
        match find(path, ".outputs."@) {
            Some(i) => {
                let step_id = path.take(i);
                let output = path.skip(i + 9);
                if valid_name(step_id) && valid_name(output) {
                    Some(PieceView::StepOutput { step_id, output })
                } else {
                    None
                }
            },
            None => None,
        }
    } else if starts_with(expr, "outputs."@) {
        let output = expr.skip(8);
        if valid_name(output) {
            Some(PieceView::FragmentOutput { output })
        } else {
            None
        }
    } else {
        None
    }
}

/// The output that an expression refers to.
fn reference_in(expr: &str) -> (r: Option<Piece>)
    ensures
        match r {
            Some(p) => referred(expr@) == Some(p@),
            None => referred(expr@) is None,
        },
{
    proof {
        reveal_strlit("steps.");
        reveal_strlit(".outputs.");
        reveal_strlit("outputs.");
    }
    match without_prefix(expr, "steps.") {
        Some(path) => {
            let v = to_chars(path.as_str());
            let mark = to_chars(".outputs.");
            match search(&v, &mark, 0) {
                Some(i) => {
                    let step_id = slice(&v, 0, i);
                    let output = slice(&v, i + 9, v.len());
                    if is_valid_namespace_name(step_id.as_str()) && is_valid_namespace_name(
                        output.as_str(),
                    ) {
                        Some(Piece::StepOutput { step_id, output })
                    } else {
                        None
                    }
                },
                None => None,
            }
        },
        None => match without_prefix(expr, "outputs.") {
            Some(output) => if is_valid_namespace_name(output.as_str()) {
                Some(Piece::FragmentOutput { output })
            } else {
                None
            },
            None => None,
        },
    }
}

/// `front` before the pieces of `r`.
pub open spec fn before_pieces(
    front: Seq<PieceView>,
    r: Result<Seq<PieceView>, Seq<char>>,
) -> Result<Seq<PieceView>, Seq<char>> {
    match r {
        Ok(rest) => Ok(front + rest),
        Err(e) => Err(e),
    }
}

/// The pieces of `rest`, a part of `text`, or why it has none.
pub open spec fn pieces_of(text: Seq<char>, rest: Seq<char>) -> Result<Seq<PieceView>, Seq<char>>
    decreases rest.len(),
{
    match find(rest, "${{"@) {
        Some(start) if 0 <= start && start + 3 <= rest.len() => {
            let inner = rest.skip(start + 3);
            match find(inner, "}}"@) {
                Some(end) if 0 <= end && end + 2 <= inner.len() => {
                    let expr = trim(inner.take(end));
                    match referred(expr) {
                        Some(piece) => before_pieces(
                            seq![PieceView::Literal(rest.take(start)), piece],
                            pieces_of(text, inner.skip(end + 2)),
                        ),
                        None => Err(
                            "unsupported expression '${{"@ + expr
                                + "}}'; only ${{ steps.ID.outputs.NAME }} and ${{ outputs.NAME }} are supported"@,
                        ),
                    }
                },
                _ => Err("unterminated expression in '"@ + text + "'"@),
            }
        },
        _ => Ok(seq![PieceView::Literal(rest)]),
    }
}

proof fn lemma_before_pieces_twice(
    a: Seq<PieceView>,
    b: Seq<PieceView>,
    r: Result<Seq<PieceView>, Seq<char>>,
)
    ensures
        before_pieces(a, before_pieces(b, r)) == before_pieces(a + b, r),
{
    if let Ok(rest) = r {
        assert(a + (b + rest) =~= a + b + rest);
    }
}

/// Takes a text apart into literal text and references.
pub fn parse_references(text: &str) -> (r: Result<Vec<Piece>, PlanError>)
    ensures
        match r {
            Ok(pieces) => pieces_of(text@, text@) == Ok::<Seq<PieceView>, Seq<char>>(
                piece_views(pieces@),
            ),
            Err(e) => pieces_of(text@, text@) == Err::<Seq<PieceView>, Seq<char>>(e@),
        },
{
    let v = to_chars(text);
    let open = to_chars("${{");
    let close = to_chars("}}");
    proof {
        reveal_strlit("${{");
        reveal_strlit("}}");
    }
    let ghost all = pieces_of(text@, text@);
    let mut pieces: Vec<Piece> = Vec::new();
    let mut at: usize = 0;
    assert(v@.skip(0) =~= v@);
    proof {
        if let Ok(rest) = all {
            assert(piece_views(pieces@) + rest =~= rest);
        }
    }
    loop
        invariant
            at <= v@.len(),
            v@ == text@,
            open@ == "${{"@,
            close@ == "}}"@,
            "${{"@.len() == 3,
            "}}"@.len() == 2,
            all == pieces_of(text@, text@),
            before_pieces(piece_views(pieces@), pieces_of(text@, v@.skip(at as int))) == all,
        decreases v@.len() - at,
    {
        let ghost rest = v@.skip(at as int);
        let ghost had = piece_views(pieces@);
        proof {
            lemma_find_skip(v@, "${{"@, at as int);
        }
        match search(&v, &open, at) {
            None => {
                let tail = slice(&v, at, v.len());
                assert(tail@ =~= rest);
                pieces.push(Piece::Literal(tail));
                assert(piece_views(pieces@) =~= had + seq![PieceView::Literal(rest)]);
                return Ok(pieces);
            },
            Some(start) => {
                let ghost inner = rest.skip(start - at + 3);
                assert(inner =~= v@.skip(start + 3));
                proof {
                    lemma_find_skip(v@, "}}"@, start + 3);
                }
                match search(&v, &close, start + 3) {
                    None => {
                        return Err(
                            PlanError::new(cat3("unterminated expression in '", text, "'")),
                        );
                    },
                    Some(end) => {
                        let raw = slice(&v, start + 3, end);
                        assert(raw@ =~= inner.take(end - start - 3));
                        let expr = trimmed(raw.as_str());
                        let head = slice(&v, at, start);
                        assert(head@ =~= rest.take(start - at));
                        assert(inner.skip(end - start - 3 + 2) =~= v@.skip(end + 2));
                        match reference_in(expr.as_str()) {
                            Some(piece) => {
                                let ghost added = seq![PieceView::Literal(head@), piece@];
                                pieces.push(Piece::Literal(head));
                                pieces.push(piece);
                                proof {
                                    assert(piece_views(pieces@) =~= had + added);
                                    lemma_before_pieces_twice(
                                        had,
                                        added,
                                        pieces_of(text@, v@.skip(end + 2)),
                                    );
                                }
                                at = end + 2;
                            },
                            None => {
                                return Err(
                                    PlanError::new(
                                        cat3(
                                            "unsupported expression '${{",
                                            expr.as_str(),
                                            "}}'; only ${{ steps.ID.outputs.NAME }} and ${{ outputs.NAME }} are supported",
                                        ),
                                    ),
                                );
                            },
                        }
                    },
                }
            },
        }
    }
}

/// Text that opens no expression is one literal piece.
pub proof fn plain_text_is_literal(text: Seq<char>)
    requires
        find(text, "${{"@) is None,
    ensures
        pieces_of(text, text) == Ok::<Seq<PieceView>, Seq<char>>(
            seq![PieceView::Literal(text)],
        ),
{
}

/// A reference to an output of a step.
pub open spec fn step_placeholder(step_id: Seq<char>, output: Seq<char>) -> Seq<char> {
    "${{ "@ + ("steps."@ + step_id + ".outputs."@ + output) + " }}"@
}

/// A reference can stand in braces.
pub proof fn lemma_reference_is_plain(step_id: Seq<char>, output: Seq<char>)
    requires
        valid_name(step_id),
        valid_name(output),
    ensures
        ({
            let body = "steps."@ + step_id + ".outputs."@ + output;
            &&& body.len() > 0
            &&& !is_space(body[0])
            &&& !is_space(body.last())
            &&& !body.contains('}')
        }),
{
    reveal_strlit("steps.");
    reveal_strlit(".outputs.");
    let body = "steps."@ + step_id + ".outputs."@ + output;
    let n = step_id.len() as int;
    lemma_name_char_is_plain(output.last());
    assert(body[0] == 's');
    assert(body.last() == output.last());
    assert forall|k: int| 0 <= k < body.len() implies body[k] != '}' by {
        if 6 <= k < 6 + n {
            assert(body[k] == step_id[k - 6]);
            lemma_name_char_is_plain(step_id[k - 6]);
        } else if k >= 6 + n + 9 {
            assert(body[k] == output[k - 15 - n]);
            lemma_name_char_is_plain(output[k - 15 - n]);
        }
    }
}

proof fn lemma_no_mark_in_a_name(
    step_id: Seq<char>,
    mark: Seq<char>,
    output: Seq<char>,
    j: int,
)
    requires
        valid_name(step_id),
        mark.len() > 0,
        mark[0] == '.',
        0 <= j < step_id.len(),
    ensures
        !occurs_at(step_id + mark + output, mark, j),
{
    let path = step_id + mark + output;
    lemma_name_char_is_plain(step_id[j]);
    assert(path[j] == step_id[j]);
    if occurs_at(path, mark, j) {
        assert(path.subrange(j, j + mark.len())[0] == path[j]);
    }
}

proof fn lemma_occurs_between(front: Seq<char>, mark: Seq<char>, rest: Seq<char>)
    ensures
        occurs_at(front + mark + rest, mark, front.len() as int),
{
    let n = front.len() as int;
    assert((front + mark + rest).subrange(n, n + mark.len()) =~= mark);
}

proof fn lemma_mark_follows(step_id: Seq<char>, mark: Seq<char>, output: Seq<char>)
    requires
        valid_name(step_id),
        mark.len() > 0,
        mark[0] == '.',
    ensures
        find(step_id + mark + output, mark) == Some(step_id.len() as int),
{
    let path = step_id + mark + output;
    let n = step_id.len() as int;
    lemma_occurs_between(step_id, mark, output);
    assert forall|j: int| 0 <= j < n implies !#[trigger] occurs_at(path, mark, j) by {
        lemma_no_mark_in_a_name(step_id, mark, output, j);
    }
    lemma_first_is_found(path, mark, n);
}

/// A reference refers to what it names.
pub proof fn lemma_reference_refers(step_id: Seq<char>, output: Seq<char>)
    requires
        valid_name(step_id),
        valid_name(output),
    ensures
        referred("steps."@ + step_id + ".outputs."@ + output) == Some(
            PieceView::StepOutput { step_id, output },
        ),
{
    let head = "steps."@;
    let mark = ".outputs."@;
    let body = head + step_id + mark + output;
    let path = step_id + mark + output;
    let n = step_id.len() as int;
    assert(head.len() == 6 && mark.len() == 9 && mark[0] == '.') by {
        reveal_strlit("steps.");
        reveal_strlit(".outputs.");
    }
    assert(starts_with(body, head));
    assert(body.skip(6) =~= path);
    lemma_mark_follows(step_id, mark, output);
    assert(path.take(n) =~= step_id);
    assert(path.skip(n + 9) =~= output);
}

/// A reference between plain texts is found, with the texts around it as they are.
pub proof fn references_are_found(
    text: Seq<char>,
    front: Seq<char>,
    step_id: Seq<char>,
    output: Seq<char>,
    rest: Seq<char>,
)
    requires
        find(front, "${{"@) is None,
        find(rest, "${{"@) is None,
        valid_name(step_id),
        valid_name(output),
    ensures
        pieces_of(text, front + step_placeholder(step_id, output) + rest) == Ok::<
            Seq<PieceView>,
            Seq<char>,
        >(
            seq![
                PieceView::Literal(front),
                PieceView::StepOutput { step_id, output },
                PieceView::Literal(rest),
            ],
        ),
{
    reveal_with_fuel(pieces_of, 2);
    lemma_reference_is_plain(step_id, output);
    lemma_reference_refers(step_id, output);
    lemma_first_expression(front, "steps."@ + step_id + ".outputs."@ + output, rest);
    let piece = PieceView::StepOutput { step_id, output };
    assert(seq![PieceView::Literal(front), piece] + seq![PieceView::Literal(rest)] =~= seq![
        PieceView::Literal(front),
        piece,
        PieceView::Literal(rest),
    ]);
}

} // verus!
