//! Texts that are read and written: which are refused, and what the others stand for.

use vstd::prelude::*;
use vstd::string::*;

use crate::accounts::{behind, grouped_before};
use crate::budget::{NANOS_PER_SEC, WaitResult, cause_of};
use crate::decimals::lemma_value_of_digits;
use crate::document::{AssertGroup, AssertPackage, AssertUser};
use crate::env::{assignment, env_entries, find_line, is_line, lemma_written_lines, written};
use crate::globbing::{has_wildcard, matching, pattern_matches};
use crate::guest::replaced;
use crate::logging::{
    log_path, sanitized, sanitized_names_are_plain, shown_duration, truthy, two_digits,
};
use crate::numbers::{
    all_digits, integer, is_decimal, is_digit, is_exponent, is_number, leading_digits,
    lemma_leading_digits, lowered, unsigned_part,
};
use crate::pairs::{Pair, value_of};
use crate::probe::{
    Subject, group_script, grouped, keys, package_script, privileged, selected, user_script,
};
use crate::references::{
    PieceView, lemma_reference_is_plain, lemma_reference_refers, pieces_of, step_placeholder,
};
use crate::shell::quoted;
use crate::template::{
    lemma_first_expression, lemma_name_char_is_plain, lemma_placeholder_body, placeholder,
    substituted, valid_name,
};
use crate::text::{
    decimal, decimals_read_back, digit, ends_with, find, is_space, is_trim, is_white,
    lemma_contains_char, lemma_find_from, lemma_first_is_found, lemma_join_from_the_front,
    lemma_split_at, lines, lines_read_back, number_of, occurs_at, starts_with,
    trimming_takes_white_space,
};

verus! {

// ---------------------------------------------------------------------------
// Files of variables
// ---------------------------------------------------------------------------

proof fn lemma_no_mark(line: Seq<char>)
    requires
        !line.contains('<'),
    ensures
        find(line, "<<"@) is None,
{
    reveal_strlit("<<");
    lemma_find_from(line, "<<"@, 0);
    if let Some(k) = find(line, "<<"@) {
        assert(line.subrange(k, k + 2)[0] == '<');
        assert(line[k] == '<');
        assert(line.contains('<'));
    }
}

/// A line that neither assigns nor opens a value is passed over, and so is one that assigns to
/// nothing.
pub proof fn idle_lines_are_passed_over(line: Seq<char>, rest: Seq<Seq<char>>)
    requires
        !line.contains('<'),
        !line.contains('=') || line[0] == '=',
    ensures
        env_entries(seq![line] + rest) == env_entries(rest),
{
    let all = seq![line] + rest;
    lemma_no_mark(line);
    lemma_contains_char(line, '=');
    lemma_find_from(line, seq!['='], 0);
    if line.contains('=') {
        assert(line.subrange(0, 1) =~= seq!['=']);
        assert(occurs_at(line, seq!['='], 0));
    }
    assert(assignment(line) is None);
    assert(all[0] == line && all.skip(1) =~= rest);
    if let Ok(entries) = env_entries(rest) {
        assert(Seq::<Pair>::empty() + entries =~= entries);
    }
}

/// A value that is opened and not closed is refused by its name, whatever stands behind it.
pub proof fn open_values_are_refused(
    name: Seq<char>,
    delimiter: Seq<char>,
    rest: Seq<Seq<char>>,
)
    requires
        name.len() > 0,
        delimiter.len() > 0,
        !name.contains('='),
        !name.contains('<'),
        !rest.contains(delimiter),
    ensures
        env_entries(seq![name + "<<"@ + delimiter] + rest) == Err::<Seq<Pair>, Seq<char>>(name),
{
    reveal_strlit("<<");
    let line = name + "<<"@ + delimiter;
    let all = seq![line] + rest;
    let n = name.len() as int;
    assert(line.subrange(n, n + 2) =~= "<<"@);
    assert forall|j: int| 0 <= j < n implies !#[trigger] occurs_at(line, "<<"@, j) by {
        assert(line.subrange(j, j + 2)[0] == name[j]);
        assert(name.contains(name[j]));
    }
    lemma_first_is_found(line, "<<"@, n);
    assert(line.take(n) =~= name);
    assert(line.skip(n + 2) =~= delimiter);
    assert(all[0] == line && all.skip(1) =~= rest);
    lemma_line_not_found(rest, delimiter);
}

proof fn lemma_line_not_found(lines: Seq<Seq<char>>, wanted: Seq<char>)
    requires
        !lines.contains(wanted),
    ensures
        find_line(lines, wanted) is None,
    decreases lines.len(),
{
    if lines.len() > 0 {
        assert(lines.contains(lines[0]));
        let rest = lines.skip(1);
        assert forall|k: int| 0 <= k < rest.len() implies rest[k] != wanted by {
            assert(lines.contains(lines[k + 1]));
        }
        lemma_line_not_found(rest, wanted);
    }
}

/// An error behind the first lines is an error of the file: what stands before it does not
/// hide it.
pub proof fn assignments_stand_first(name: Seq<char>, value: Seq<char>, rest: Seq<Seq<char>>)
    requires
        name.len() > 0,
        !name.contains('='),
        !name.contains('<'),
        !value.contains('<'),
    ensures
        match env_entries(rest) {
            Ok(entries) => env_entries(seq![name + "="@ + value] + rest) == Ok::<
                Seq<Pair>,
                Seq<char>,
            >(seq![(name, value)] + entries),
            Err(e) => env_entries(seq![name + "="@ + value] + rest) == Err::<Seq<Pair>, Seq<char>>(
                e,
            ),
        },
{
    reveal_strlit("=");
    let line = name + "="@ + value;
    let all = seq![line] + rest;
    assert("="@ =~= seq!['=']);
    lemma_split_at(name, '=', value);
    if line.contains('<') {
        let k = choose|k: int| 0 <= k < line.len() && line[k] == '<';
        if k < name.len() {
            assert(name.contains(name[k]));
        } else if k > name.len() {
            assert(value.contains(value[k - name.len() - 1]));
        }
    }
    lemma_no_mark(line);
    assert(line.take(name.len() as int) =~= name);
    assert(line.skip(name.len() + 1int) =~= value);
    assert(all[0] == line && all.skip(1) =~= rest);
}

// ---------------------------------------------------------------------------
// Expressions
// ---------------------------------------------------------------------------

/// An expression that names an input without a value is refused.
pub proof fn missing_values_are_refused(
    text: Seq<char>,
    front: Seq<char>,
    name: Seq<char>,
    rest: Seq<char>,
    namespace: Seq<char>,
    values: Seq<Pair>,
    defer: bool,
)
    requires
        find(front, "${{"@) is None,
        valid_name(namespace),
        valid_name(name),
        value_of(values, name) is None,
    ensures
        substituted(
            text,
            front + placeholder(namespace, name) + rest,
            namespace,
            values,
            defer,
        ) is Err,
{
    lemma_placeholder_body(namespace, name);
    let expr = namespace + "."@ + name;
    lemma_first_expression(front, expr, rest);
    let prefix = namespace + "."@;
    assert(expr.subrange(0, prefix.len() as int) =~= prefix);
    assert(expr.skip(prefix.len() as int) =~= name);
}

/// An expression that does not end is refused.
pub proof fn open_expressions_are_refused(
    text: Seq<char>,
    front: Seq<char>,
    inner: Seq<char>,
    namespace: Seq<char>,
    values: Seq<Pair>,
    defer: bool,
)
    requires
        !front.contains('$'),
        !inner.contains('}'),
    ensures
        substituted(text, front + "${{"@ + inner, namespace, values, defer) is Err,
{
    reveal_strlit("${{");
    reveal_strlit("}}");
    let rest = front + "${{"@ + inner;
    let n = front.len() as int;
    assert(rest.subrange(n, n + 3) =~= "${{"@);
    assert forall|j: int| 0 <= j < n implies !#[trigger] occurs_at(rest, "${{"@, j) by {
        assert(rest.subrange(j, j + 3)[0] == front[j]);
        assert(front.contains(front[j]));
    }
    lemma_first_is_found(rest, "${{"@, n);
    assert(rest.skip(n + 3) =~= inner);
    lemma_find_from(inner, "}}"@, 0);
    if let Some(k) = find(inner, "}}"@) {
        assert(inner.subrange(k, k + 2)[0] == inner[k]);
        assert(inner.contains(inner[k]));
    }
}

/// An expression that names no namespace which is filled in or left is refused.
pub proof fn foreign_expressions_are_refused(
    text: Seq<char>,
    front: Seq<char>,
    expr: Seq<char>,
    rest: Seq<char>,
    namespace: Seq<char>,
    values: Seq<Pair>,
)
    requires
        find(front, "${{"@) is None,
        expr.len() > 0,
        !is_space(expr[0]),
        !is_space(expr.last()),
        !expr.contains('}'),
        !starts_with(expr, namespace + "."@),
    ensures
        substituted(text, front + ("${{ "@ + expr + " }}"@) + rest, namespace, values, false)
            is Err,
        !expr.contains('.') ==> substituted(
            text,
            front + ("${{ "@ + expr + " }}"@) + rest,
            namespace,
            values,
            true,
        ) is Err,
{
    lemma_first_expression(front, expr, rest);
    lemma_contains_char(expr, '.');
}

/// References are found one after another, each with the text before it.
pub proof fn references_follow_each_other(
    text: Seq<char>,
    front: Seq<char>,
    step_id: Seq<char>,
    output: Seq<char>,
    rest: Seq<char>,
)
    requires
        find(front, "${{"@) is None,
        valid_name(step_id),
        valid_name(output),
    ensures
        match pieces_of(text, rest) {
            Ok(pieces) => pieces_of(text, front + step_placeholder(step_id, output) + rest) == Ok::<
                Seq<PieceView>,
                Seq<char>,
            >(
                seq![PieceView::Literal(front), PieceView::StepOutput { step_id, output }]
                    + pieces,
            ),
            Err(_) => pieces_of(text, front + step_placeholder(step_id, output) + rest) is Err,
        },
{
    lemma_reference_is_plain(step_id, output);
    lemma_reference_refers(step_id, output);
    lemma_first_expression(front, "steps."@ + step_id + ".outputs."@ + output, rest);
}

/// An output of the fragment is referred to by its name alone.
pub proof fn own_outputs_are_found(
    text: Seq<char>,
    front: Seq<char>,
    output: Seq<char>,
    rest: Seq<char>,
)
    requires
        find(front, "${{"@) is None,
        valid_name(output),
    ensures
        match pieces_of(text, rest) {
            Ok(pieces) => pieces_of(
                text,
                front + ("${{ "@ + ("outputs."@ + output) + " }}"@) + rest,
            ) == Ok::<Seq<PieceView>, Seq<char>>(
                seq![PieceView::Literal(front), PieceView::FragmentOutput { output }] + pieces,
            ),
            Err(_) => pieces_of(
                text,
                front + ("${{ "@ + ("outputs."@ + output) + " }}"@) + rest,
            ) is Err,
        },
{
    reveal_strlit("steps.");
    reveal_strlit("outputs.");
    let body = "outputs."@ + output;
    assert(body.last() == output.last());
    lemma_name_char_is_plain(output.last());
    assert forall|k: int| 0 <= k < body.len() implies body[k] != '}' by {
        if k >= 8 {
            lemma_name_char_is_plain(output[k - 8]);
        }
    }
    lemma_first_expression(front, body, rest);
    if starts_with(body, "steps."@) {
        assert(body.subrange(0, 6)[0] == "steps."@[0]);
        assert(body[0] == 'o');
    }
    assert(body.take(8) =~= "outputs."@);
    assert(body.skip(8) =~= output);
}

/// A reference that does not end is refused, and so is an expression that is no reference.
pub proof fn other_references_are_refused(
    text: Seq<char>,
    front: Seq<char>,
    inner: Seq<char>,
    expr: Seq<char>,
    rest: Seq<char>,
)
    requires
        !front.contains('$'),
        !inner.contains('}'),
    ensures
        pieces_of(text, front + "${{"@ + inner) is Err,
        expr.len() > 0 && !is_space(expr[0]) && !is_space(expr.last()) && !expr.contains('}')
            && !starts_with(expr, "steps."@) && !starts_with(expr, "outputs."@) ==> pieces_of(
            text,
            front + ("${{ "@ + expr + " }}"@) + rest,
        ) is Err,
{
    reveal_strlit("${{");
    reveal_strlit("}}");
    let open = front + "${{"@ + inner;
    let n = front.len() as int;
    assert(open.subrange(n, n + 3) =~= "${{"@);
    assert forall|j: int| 0 <= j < n implies !#[trigger] occurs_at(open, "${{"@, j) by {
        assert(open.subrange(j, j + 3)[0] == front[j]);
        assert(front.contains(front[j]));
    }
    lemma_first_is_found(open, "${{"@, n);
    assert(open.skip(n + 3) =~= inner);
    lemma_find_from(inner, "}}"@, 0);
    if let Some(k) = find(inner, "}}"@) {
        assert(inner.subrange(k, k + 2)[0] == inner[k]);
        assert(inner.contains(inner[k]));
    }
    if expr.len() > 0 && !is_space(expr[0]) && !is_space(expr.last()) && !expr.contains('}')
        && !starts_with(expr, "steps."@) && !starts_with(expr, "outputs."@) {
        lemma_find_from(front, "${{"@, 0);
        if let Some(k) = find(front, "${{"@) {
            assert(front.subrange(k, k + 3)[0] == front[k]);
            assert(front.contains(front[k]));
        }
        lemma_first_expression(front, expr, rest);
    }
}

// ---------------------------------------------------------------------------
// Numbers
// ---------------------------------------------------------------------------

/// A number that is written out in decimal digits is read back, with a sign or without, as long
/// as it fits; beyond that it is no integer.
pub proof fn integers_read_back(n: nat)
    ensures
        n <= i64::MAX ==> integer(decimal(n)) == Some(n as int) && integer(seq!['+'] + decimal(n))
            == Some(n as int) && integer(seq!['-'] + decimal(n)) == Some(-(n as int)),
        n > i64::MAX ==> integer(decimal(n)) is None,
{
    decimals_read_back(n);
    let digits = decimal(n);
    lemma_value_of_digits(digits);
    assert(is_digit(digits[0]));
    assert((seq!['+'] + digits).skip(1) =~= digits);
    assert((seq!['-'] + digits).skip(1) =~= digits);
}

/// What holds anything but digits behind an optional sign is no integer, and neither is a sign
/// alone.
pub proof fn integers_are_digits(s: Seq<char>)
    ensures
        integer(s) is Some ==> s.len() > 0 && ('0' <= s.last() <= '9') && (forall|k: int|
            1 <= k < s.len() ==> '0' <= #[trigger] s[k] <= '9') && (s[0] == '+' || s[0] == '-' || '0'
            <= s[0] <= '9'),
{
    if integer(s) is Some {
        let digits = unsigned_part(s);
        assert forall|k: int| 1 <= k < s.len() implies '0' <= #[trigger] s[k] <= '9' by {
            if digits == s {
                assert(is_digit(digits[k]));
            } else {
                assert(is_digit(digits[k - 1]));
            }
        }
        assert(is_digit(digits[0]));
        if digits.len() == s.len() {
            assert(is_digit(digits[s.len() - 1]));
        }
    }
}

proof fn lemma_leading(digits: Seq<char>, rest: Seq<char>)
    requires
        all_digits(digits),
        rest.len() > 0 ==> !is_digit(rest[0]),
    ensures
        leading_digits(digits + rest) == digits.len(),
    decreases digits.len(),
{
    let s = digits + rest;
    if digits.len() == 0 {
        assert(s =~= rest);
    } else {
        assert(is_digit(digits[0]));
        let next = digits.skip(1);
        assert(s.skip(1) =~= next + rest);
        assert forall|i: int| 0 <= i < next.len() implies is_digit(#[trigger] next[i]) by {
            assert(is_digit(digits[i + 1]));
        }
        lemma_leading(next, rest);
    }
}

/// Numbers are written with digits, with a point among them or not, and with an exponent or
/// not, each behind an optional sign.
pub proof fn numbers_are_numbers(whole: Seq<char>, fraction: Seq<char>, exponent: Seq<char>)
    requires
        all_digits(whole),
        all_digits(fraction),
        all_digits(exponent),
        whole.len() > 0,
        exponent.len() > 0,
    ensures
        is_number(whole),
        is_number(seq!['-'] + whole),
        is_number(whole + seq!['.'] + fraction),
        is_number(whole + seq!['e'] + exponent),
        is_number(whole + seq!['.'] + fraction + seq!['e'] + exponent),
        fraction.len() > 0 ==> is_number(seq!['.'] + fraction),
{
    let nothing = Seq::<char>::empty();
    let power = seq!['e'] + exponent;
    assert(power.skip(1) =~= exponent);
    assert(is_digit(exponent[0]));
    assert(is_exponent(power));
    assert(is_digit(whole[0]));
    lemma_leading(whole, nothing);
    assert(whole + nothing =~= whole);
    assert(is_decimal(whole));
    assert((seq!['-'] + whole).skip(1) =~= whole);
    let pointed = whole + seq!['.'] + fraction;
    assert(pointed =~= whole + (seq!['.'] + fraction));
    lemma_leading(whole, seq!['.'] + fraction);
    let behind = pointed.skip(whole.len() as int);
    assert(behind =~= seq!['.'] + fraction);
    assert(behind.skip(1) =~= fraction);
    lemma_leading(fraction, nothing);
    assert(fraction + nothing =~= fraction);
    assert(is_decimal(pointed));
    let powered = whole + seq!['e'] + exponent;
    assert(powered =~= whole + power);
    lemma_leading(whole, power);
    assert(powered.skip(whole.len() as int) =~= power);
    assert(is_decimal(powered));
    let both = pointed + seq!['e'] + exponent;
    assert(both =~= whole + (seq!['.'] + fraction + power));
    lemma_leading(whole, seq!['.'] + fraction + power);
    let tail = both.skip(whole.len() as int);
    assert(tail =~= seq!['.'] + fraction + power);
    assert(tail.skip(1) =~= fraction + power);
    lemma_leading(fraction, power);
    assert(tail.skip(1 + fraction.len() as int) =~= power);
    assert(is_decimal(both));
    if fraction.len() > 0 {
        let small = seq!['.'] + fraction;
        assert(leading_digits(small) == 0);
        assert(small.skip(0) =~= small);
        assert(small.skip(1) =~= fraction);
        assert(small.skip(1 + fraction.len() as int).len() == 0);
        assert(is_decimal(small));
    }
}

/// A text that begins, behind an optional sign, with neither a digit nor a point is no number,
/// unless it is one of three words; and a number holds a digit unless it is one of them.
pub proof fn other_texts_are_no_numbers(s: Seq<char>)
    requires
        is_number(s),
    ensures
        ({
            let t = unsigned_part(s);
            let word = lowered(t);
            ||| word == "inf"@ || word == "infinity"@ || word == "nan"@
            ||| t.len() > 0 && (t[0] == '.' || '0' <= t[0] <= '9') && exists|k: int|
                0 <= k < t.len() && '0' <= #[trigger] t[k] <= '9'
        }),
{
    let t = unsigned_part(s);
    if is_decimal(t) {
        let whole = leading_digits(t);
        lemma_leading_digits(t);
        if whole > 0 {
            assert(is_digit(t[0]));
        } else {
            let rest = t.skip(0);
            assert(rest =~= t);
            lemma_leading_digits(rest.skip(1));
            assert(is_digit(rest.skip(1)[0]));
            assert(t[1] == rest.skip(1)[0]);
        }
    }
}

// ---------------------------------------------------------------------------
// Times and names
// ---------------------------------------------------------------------------

/// A time is shown in whole seconds: below a minute as they are, and from then on as minutes
/// and two digits for the seconds that are left.
pub proof fn times_are_shown_in_minutes_and_seconds(minutes: nat, seconds: nat, rest: nat)
    requires
        seconds < 60,
        rest < NANOS_PER_SEC,
    ensures
        ({
            let time = (minutes * 60 + seconds) * (NANOS_PER_SEC as nat) + rest;
            let two = two_digits(seconds);
            &&& minutes == 0 ==> shown_duration(time) == decimal(seconds) + "s"@
            &&& minutes > 0 ==> shown_duration(time) == decimal(minutes) + "m "@ + two + "s"@
            &&& two.len() == 2
            &&& number_of(two) == seconds
        }),
{
    let total = minutes * 60 + seconds;
    let time = total * (NANOS_PER_SEC as nat) + rest;
    assert(time / (NANOS_PER_SEC as nat) == total);
    assert(total / 60 == minutes && total % 60 == seconds);
    decimals_read_back(seconds);
    reveal_strlit("0");
    reveal_with_fuel(decimal, 2);
    reveal_with_fuel(number_of, 3);
    let two = two_digits(seconds);
    if seconds < 10 {
        assert(two =~= seq!['0', digit(seconds)]);
        assert(two.drop_last() =~= seq!['0']);
        assert(two.drop_last().drop_last() =~= Seq::<char>::empty());
        assert(digit(seconds) as u32 == '0' as u32 + seconds);
    } else {
        assert(two =~= seq![digit(seconds / 10), digit(seconds % 10)]);
    }
}

/// A name for a log file keeps its letters, digits, points, underscores and dashes, each in its
/// place; all else is written as an underscore.
pub proof fn log_names_keep_what_is_plain(name: Seq<char>, k: int)
    requires
        0 <= k < name.len(),
    ensures
        ({
            let c = name[k];
            let kept = 'a' <= c <= 'z' || 'A' <= c <= 'Z' || '0' <= c <= '9' || c == '.' || c == '_'
                || c == '-';
            sanitized(name)[k] == if kept {
                c
            } else {
                '_'
            }
        }),
{
}

/// Of two deadlines that have passed the first is blamed, and that of the step if both come
/// together.
pub proof fn the_first_deadline_is_blamed(now: u128, step_deadline: u128, overall_deadline: u128)
    ensures
        now >= step_deadline && step_deadline <= overall_deadline ==> cause_of(
            now,
            step_deadline,
            overall_deadline,
        ) == Some(WaitResult::StepTimeout),
        now >= overall_deadline && overall_deadline < step_deadline ==> cause_of(
            now,
            step_deadline,
            overall_deadline,
        ) == Some(WaitResult::OverallTimeout),
{
}

// ---------------------------------------------------------------------------
// Questions to a guest
// ---------------------------------------------------------------------------

/// A script asks about one name after another, in their order, and about each only with its
/// name in quotes.
pub proof fn questions_follow_the_names(
    subject: Subject,
    names: Seq<Seq<char>>,
    more: Seq<Seq<char>>,
    name: Seq<char>,
)
    ensures
        subject.blocks(names + more) == subject.blocks(names) + subject.blocks(more),
        subject.blocks(seq![name]) == subject.block(name),
        subject.template().len() >= 2,
        starts_with(subject.block(name), subject.template()[0] + quoted(name)),
    decreases more.len(),
{
    reveal_with_fuel(Subject::blocks, 2);
    assert(seq![name].drop_last() =~= Seq::<Seq<char>>::empty());
    assert(Seq::<char>::empty() + subject.block(name) =~= subject.block(name));
    if more.len() == 0 {
        assert(names + more =~= names);
        assert(subject.blocks(names) + subject.blocks(more) =~= subject.blocks(names));
    } else {
        questions_follow_the_names(subject, names, more.drop_last(), name);
        assert((names + more).drop_last() =~= names + more.drop_last());
        assert(subject.blocks(names) + (subject.blocks(more.drop_last()) + subject.block(
            more.last(),
        )) =~= subject.blocks(names) + subject.blocks(more.drop_last()) + subject.block(
            more.last(),
        ));
    }
    let parts = subject.template();
    lemma_join_from_the_front(parts, quoted(name));
    let lead = parts[0] + quoted(name);
    assert(subject.block(name).take(lead.len() as int) =~= lead);
}

/// The names that match a pattern come in the order in which the names came, each as often as it
/// came.
pub proof fn matches_keep_their_order(
    pattern: Seq<char>,
    names: Seq<Seq<char>>,
    name: Seq<char>,
    more: Seq<Seq<char>>,
)
    ensures
        matching(pattern, names + more) == matching(pattern, names) + matching(pattern, more),
        matching(pattern, seq![name]) == if pattern_matches(pattern, name) {
            seq![name]
        } else {
            Seq::<Seq<char>>::empty()
        },
    decreases more.len(),
{
    reveal_with_fuel(matching, 2);
    assert(seq![name].drop_last() =~= Seq::<Seq<char>>::empty());
    assert(Seq::<Seq<char>>::empty().push(name) =~= seq![name]);
    if more.len() == 0 {
        assert(names + more =~= names);
        assert(matching(pattern, names) + matching(pattern, more) =~= matching(pattern, names));
    } else {
        matches_keep_their_order(pattern, names, name, more.drop_last());
        assert((names + more).drop_last() =~= names + more.drop_last());
        assert(matching(pattern, names + more) =~= matching(pattern, names) + matching(
            pattern,
            more,
        ));
    }
}

/// Entries are asked about in the order in which they were written: those whose key is a pattern
/// on their own, and the others on their own.
pub proof fn selections_keep_their_order<T>(
    entries: Seq<(String, T)>,
    entry: (String, T),
    more: Seq<(String, T)>,
    patterns: bool,
)
    ensures
        selected(entries + more, patterns) == selected(entries, patterns) + selected(
            more,
            patterns,
        ),
        selected(seq![entry], patterns) == if has_wildcard(entry.0@) == patterns {
            seq![entry]
        } else {
            Seq::<(String, T)>::empty()
        },
    decreases more.len(),
{
    reveal_with_fuel(selected, 2);
    assert(seq![entry].drop_last() =~= Seq::<(String, T)>::empty());
    assert(Seq::<(String, T)>::empty().push(entry) =~= seq![entry]);
    if more.len() == 0 {
        assert(entries + more =~= entries);
        assert(selected(entries, patterns) + selected(more, patterns) =~= selected(
            entries,
            patterns,
        ));
    } else {
        selections_keep_their_order(entries, entry, more.drop_last(), patterns);
        assert((entries + more).drop_last() =~= entries + more.drop_last());
        assert(selected(entries + more, patterns) =~= selected(entries, patterns) + selected(
            more,
            patterns,
        ));
    }
}

/// A script that needs rights is handed over whole: between the line that opens it and the line
/// that closes it stand its own lines, and nothing else.
pub proof fn privileged_scripts_are_whole(script: Seq<Seq<char>>, delimiter: Seq<char>)
    requires
        forall|i: int| 0 <= i < script.len() ==> is_line(#[trigger] script[i]),
        is_line(delimiter),
    ensures
        lines(privileged(written(script), delimiter)) == seq![
            "sudo -n sh <<'"@ + delimiter + "'"@,
        ] + script + seq![delimiter],
{
    reveal_strlit("sudo -n sh <<'");
    reveal_strlit("'");
    reveal_strlit("'\n");
    reveal_strlit("\n");
    let open = "sudo -n sh <<'"@ + delimiter + "'"@;
    let nothing = Seq::<char>::empty();
    let close = delimiter + seq!['\n'] + nothing;
    let inner = written(script) + close;
    if open.contains('\n') {
        let k = choose|k: int| 0 <= k < open.len() && open[k] == '\n';
        if 14 <= k < 14 + delimiter.len() {
            assert(delimiter.contains(delimiter[k - 14]));
        }
    }
    assert(open.last() == '\'');
    lines_read_back(open, inner);
    lemma_written_lines(script, close);
    lines_read_back(delimiter, nothing);
    assert(privileged(written(script), delimiter) =~= open + seq!['\n'] + inner);
    assert(seq![delimiter] + Seq::<Seq<char>>::empty() =~= seq![delimiter]);
    assert(seq![open] + (script + seq![delimiter]) =~= seq![open] + script + seq![delimiter]);
}

/// Groups are asked for in the order of the users that need to be in some, so that what is
/// printed can be told apart by counting.
pub proof fn groups_are_asked_in_order(users: Seq<(String, AssertUser)>, i: int)
    ensures
        grouped(users).len() == grouped_before(users, users.len()),
        0 <= i < users.len() && users[i].1.exists && users[i].1.groups@.len() > 0 ==> grouped_before(
            users,
            i as nat,
        ) < grouped(users).len() && grouped(users)[grouped_before(users, i as nat) as int]
            == users[i].0@,
    decreases users.len(),
{
    if users.len() > 0 {
        let front = users.drop_last();
        let n = front.len();
        groups_are_asked_in_order(front, i);
        lemma_grouped_before(front, users, n);
        if 0 <= i < n {
            lemma_grouped_before(front, users, i as nat);
            assert(front[i] == users[i]);
        }
    }
}

proof fn lemma_grouped_before(
    front: Seq<(String, AssertUser)>,
    users: Seq<(String, AssertUser)>,
    n: nat,
)
    requires
        n <= front.len() <= users.len(),
        forall|k: int| 0 <= k < front.len() ==> front[k] == users[k],
    ensures
        grouped_before(front, n) == grouped_before(users, n),
    decreases n,
{
    if n > 0 {
        lemma_grouped_before(front, users, (n - 1) as nat);
    }
}

/// All users, groups or packages of a guest are asked for just if some key is a pattern.
pub proof fn dumps_are_asked_for_patterns(
    users: Seq<(String, AssertUser)>,
    groups: Seq<(String, AssertGroup)>,
    packages: Seq<(String, AssertPackage)>,
    i: int,
)
    ensures
        0 <= i < users.len() && has_wildcard(users[i].0@) ==> ends_with(
            user_script(users),
            "getent passwd\nprintf '__END_PASSWD__\\n'\n"@,
        ),
        0 <= i < groups.len() && has_wildcard(groups[i].0@) ==> ends_with(
            group_script(groups),
            "getent group\nprintf '__END_GROUP__\\n'\n"@,
        ),
        0 <= i < packages.len() && has_wildcard(packages[i].0@) ==> ends_with(
            package_script(packages),
            "dpkg-query -W -f='${Package} ${Status}\\n' 2>/dev/null || true\nprintf '__END_DPKG__\\n'\n"@,
        ),
        (forall|k: int| 0 <= k < groups.len() ==> !has_wildcard((#[trigger] groups[k]).0@))
            ==> group_script(groups) == "set -e\n"@ + Subject::Group.blocks(keys(groups)),
        (forall|k: int| 0 <= k < packages.len() ==> !has_wildcard((#[trigger] packages[k]).0@))
            ==> package_script(packages) == "set -e\n"@ + Subject::Package.blocks(keys(packages)),
{
    if 0 <= i < users.len() && has_wildcard(users[i].0@) {
        lemma_selected_some(users, true, i);
        let exact = selected(users, false);
        let front = "set -e\n"@ + Subject::User.blocks(keys(exact)) + Subject::UserGroups.blocks(
            grouped(exact),
        );
        lemma_ends(front, "getent passwd\nprintf '__END_PASSWD__\\n'\n"@);
    }
    if 0 <= i < groups.len() && has_wildcard(groups[i].0@) {
        lemma_selected_some(groups, true, i);
        let front = "set -e\n"@ + Subject::Group.blocks(keys(selected(groups, false)));
        lemma_ends(front, "getent group\nprintf '__END_GROUP__\\n'\n"@);
    }
    if 0 <= i < packages.len() && has_wildcard(packages[i].0@) {
        lemma_selected_some(packages, true, i);
        let front = "set -e\n"@ + Subject::Package.blocks(keys(selected(packages, false)));
        lemma_ends(
            front,
            "dpkg-query -W -f='${Package} ${Status}\\n' 2>/dev/null || true\nprintf '__END_DPKG__\\n'\n"@,
        );
    }
    if forall|k: int| 0 <= k < groups.len() ==> !has_wildcard((#[trigger] groups[k]).0@) {
        lemma_selected_all(groups);
        let script = "set -e\n"@ + Subject::Group.blocks(keys(groups));
        assert(script + Seq::<char>::empty() =~= script);
    }
    if forall|k: int| 0 <= k < packages.len() ==> !has_wildcard((#[trigger] packages[k]).0@) {
        lemma_selected_all(packages);
        let script = "set -e\n"@ + Subject::Package.blocks(keys(packages));
        assert(script + Seq::<char>::empty() =~= script);
    }
}

proof fn lemma_ends(front: Seq<char>, tail: Seq<char>)
    ensures
        ends_with(front + tail, tail),
{
    let all = front + tail;
    assert(all.subrange(all.len() - tail.len(), all.len() as int) =~= tail);
}

proof fn lemma_selected_some<T>(entries: Seq<(String, T)>, patterns: bool, i: int)
    requires
        0 <= i < entries.len(),
        has_wildcard(entries[i].0@) == patterns,
    ensures
        selected(entries, patterns).len() > 0,
    decreases entries.len(),
{
    if i < entries.len() - 1 {
        lemma_selected_some(entries.drop_last(), patterns, i);
    }
}

proof fn lemma_selected_all<T>(entries: Seq<(String, T)>)
    requires
        forall|k: int| 0 <= k < entries.len() ==> !has_wildcard((#[trigger] entries[k]).0@),
    ensures
        selected(entries, false) == entries,
        selected(entries, true).len() == 0,
    decreases entries.len(),
{
    if entries.len() > 0 {
        let front = entries.drop_last();
        assert forall|k: int| 0 <= k < front.len() implies !has_wildcard(
            (#[trigger] front[k]).0@,
        ) by {
            assert(front[k] == entries[k]);
        }
        assert(!has_wildcard(entries[entries.len() - 1].0@));
        lemma_selected_all(front);
        assert(front.push(entries.last()) =~= entries);
    }
}

/// What stands behind the line that ends a dump is found there.
pub proof fn dumps_end_at_their_mark(
    front: Seq<Seq<char>>,
    sentinel: Seq<char>,
    rest: Seq<Seq<char>>,
)
    requires
        !front.contains(sentinel),
    ensures
        behind(front + seq![sentinel] + rest, sentinel) == rest,
    decreases front.len(),
{
    let all = front + seq![sentinel] + rest;
    if front.len() == 0 {
        assert(all[0] == sentinel);
        assert(all.skip(1) =~= rest);
    } else {
        assert(front.contains(front[0]));
        let next = front.skip(1);
        assert forall|k: int| 0 <= k < next.len() implies next[k] != sentinel by {
            assert(front.contains(front[k + 1]));
        }
        assert(all.skip(1) =~= next + seq![sentinel] + rest);
        dumps_end_at_their_mark(next, sentinel, rest);
    }
}

// ---------------------------------------------------------------------------
// Log files and settings
// ---------------------------------------------------------------------------

/// The log of a step stands in the directory for logs itself, whatever the step is called.
pub proof fn logs_stand_in_their_directory(
    log_dir: Seq<char>,
    display: Seq<char>,
    name: Seq<char>,
)
    requires
        log_dir.len() > 0,
        !ends_with(log_dir, "/"@),
        !display.contains('/'),
    ensures
        ({
            let path = log_path(log_dir, display, name);
            let file = path.skip(log_dir.len() + 1int);
            &&& path == log_dir + "/"@ + file
            &&& !file.contains('/')
            &&& ends_with(file, sanitized(name) + ".log"@)
        }),
{
    reveal_strlit("/");
    reveal_strlit("-");
    reveal_strlit("step-");
    reveal_strlit(".log");
    let shown = replaced(display, '.', '-');
    let plain_name = sanitized(name);
    let file = "step-"@ + shown + "-"@ + plain_name + ".log"@;
    sanitized_names_are_plain(name);
    assert forall|k: int| 0 <= k < file.len() implies file[k] != '/' by {
        if 5 <= k < 5 + shown.len() {
            assert(file[k] == shown[k - 5]);
            assert(display.contains(display[k - 5]));
        } else if 6 + shown.len() <= k < 6 + shown.len() + plain_name.len() {
            assert(file[k] == plain_name[k - 6 - shown.len()]);
            assert(plain_name.contains(plain_name[k - 6 - shown.len()]));
        }
    }
    if starts_with(file, "/"@) {
        assert(file.subrange(0, 1)[0] == '/');
    }
    let path = log_path(log_dir, display, name);
    assert(path == log_dir + "/"@ + file);
    assert(path.skip(log_dir.len() + 1int) =~= file);
    let tail = plain_name + ".log"@;
    assert(file =~= "step-"@ + shown + "-"@ + tail);
    lemma_ends("step-"@ + shown + "-"@, tail);
}

/// A setting says yes in three words, without regard to case and to white space around it.
pub proof fn settings_say_yes(front: Seq<char>, word: Seq<char>, back: Seq<char>)
    requires
        is_white(front),
        is_white(back),
        is_trim(word),
    ensures
        truthy(front + word + back) <==> lowered(word) == "1"@ || lowered(word) == "true"@
            || lowered(word) == "yes"@,
{
    trimming_takes_white_space(front, word, back);
}

} // verus!
