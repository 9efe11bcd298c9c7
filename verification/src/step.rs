//! Steps of a plan: what they run, where, and under which interpreter.

use vstd::prelude::*;
use vstd::string::*;

use crate::decimals::{number_text, show_number};
use crate::error::PlanError;
use crate::numbers::{integer, parse_integer};
use crate::strings::{cat2, cat3, cat5, contains, decimal_i64, same, text_words, trimmed};
use crate::text::{
    find, is_space, lemma_find_from, lemma_trim_start, lemma_word_len, occurs_at, opt_slice,
    opt_text, signed_decimal, texts, trim, trim_start, word_len, words,
};
use crate::value::Node;

verus! {

/// Where a step runs.
#[derive(Clone, Copy, Debug, PartialEq, Eq, Structural)]
pub enum StepTarget {
    /// Inside the guest.
    Guest,
    /// On the host, which reaches the guest through forwarded ports only.
    Host,
}

impl Default for StepTarget {
    fn default() -> (r: StepTarget)
        ensures
            r == StepTarget::Guest,
    {
        StepTarget::Guest
    }
}

/// What a stream of a step's output must hold, and must not.
#[derive(Clone, Debug, PartialEq, Eq)]
pub struct StdioExpect {
    /// All of these must appear.
    pub contains: Vec<String>,
    /// None of these may appear.
    pub not_contains: Vec<String>,
}

/// What is expected of a step's outcome.
#[derive(Clone, Debug, PartialEq, Eq)]
pub struct ExpectBlock {
    /// The exit code; zero if it is not given.
    pub exit: Option<i32>,
    /// What the standard output must hold.
    pub stdout: Option<StdioExpect>,
    /// What the standard error must hold.
    pub stderr: Option<StdioExpect>,
}

impl ExpectBlock {
    /// The exit code that is expected.
    pub open spec fn exit_code(&self) -> i32 {
        match self.exit {
            Some(code) => code,
            None => 0i32,
        }
    }

    /// The exit code that is expected.
    pub fn expected_exit(&self) -> (r: i32)
        ensures
            r == self.exit_code(),
    {
        match self.exit {
            Some(code) => code,
            None => 0,
        }
    }
}

/// The type that an output is declared with.
#[derive(Clone, Copy, Debug, PartialEq, Eq, Structural)]
pub enum OutputType {
    String,
    Number,
    Bool,
    /// Text that is masked wherever it is shown.
    Secret,
}

impl OutputType {
    /// The word that names the type.
    pub open spec fn word(self) -> Seq<char> {
        match self {
            OutputType::String => "string"@,
            OutputType::Number => "number"@,
            OutputType::Bool => "bool"@,
            OutputType::Secret => "secret"@,
        }
    }

    /// The word that names the type.
    pub fn as_str(self) -> (r: &'static str)
        ensures
            r@ == self.word(),
    {
        match self {
            OutputType::String => "string",
            OutputType::Number => "number",
            OutputType::Bool => "bool",
            OutputType::Secret => "secret",
        }
    }
}

/// A value that a step gave out. A number is kept as it was written, and used in plain decimal
/// notation: `7.0` is used as `7`.
#[derive(Debug, PartialEq, Eq)]
pub enum OutputValue {
    String(String),
    Number(String),
    Bool(bool),
    Null,
}

/// The model of an [`OutputValue`].
pub enum OutputView {
    String(Seq<char>),
    Number(Seq<char>),
    Bool(bool),
    Null,
}

impl View for OutputValue {
    type V = OutputView;

    open spec fn view(&self) -> OutputView {
        match self {
            OutputValue::String(s) => OutputView::String(s@),
            OutputValue::Number(n) => OutputView::Number(n@),
            OutputValue::Bool(b) => OutputView::Bool(*b),
            OutputValue::Null => OutputView::Null,
        }
    }
}

impl OutputView {
    /// The text of the value where it is used.
    pub open spec fn used(self) -> Seq<char> {
        match self {
            OutputView::String(s) => s,
            OutputView::Number(n) => number_text(n),
            OutputView::Bool(b) => if b {
                "true"@
            } else {
                "false"@
            },
            OutputView::Null => seq![],
        }
    }
}

impl OutputValue {
    /// The text of the value where it is used.
    pub fn to_use_string(&self) -> (r: String)
        ensures
            r@ == self@.used(),
    {
        match self {
            OutputValue::String(s) => s.clone(),
            OutputValue::Number(n) => show_number(n.as_str()),
            OutputValue::Bool(b) => if *b {
                "true".to_owned()
            } else {
                "false".to_owned()
            },
            OutputValue::Null => {
                let r = String::new();
                assert(r@ =~= seq![]);
                r
            },
        }
    }
}

impl Clone for OutputValue {
    fn clone(&self) -> (r: OutputValue)
        ensures
            r@ == self@,
    {
        match self {
            OutputValue::String(s) => OutputValue::String(s.clone()),
            OutputValue::Number(n) => OutputValue::Number(n.clone()),
            OutputValue::Bool(b) => OutputValue::Bool(*b),
            OutputValue::Null => OutputValue::Null,
        }
    }
}

/// How a step declares an output.
#[derive(Clone, Copy, Debug, PartialEq, Eq)]
pub struct OutputDecl {
    pub output_type: OutputType,
    pub required: bool,
}

/// An output that a step gave out.
#[derive(Debug, PartialEq, Eq)]
pub struct CapturedOutput {
    pub name: String,
    pub declared_type: OutputType,
    pub value: OutputValue,
}

/// The model of a [`CapturedOutput`].
pub struct CapturedView {
    pub name: Seq<char>,
    pub declared_type: OutputType,
    pub value: OutputView,
}

impl View for CapturedOutput {
    type V = CapturedView;

    open spec fn view(&self) -> CapturedView {
        CapturedView {
            name: self.name@,
            declared_type: self.declared_type,
            value: self.value@,
        }
    }
}

/// The contents of a list of captured outputs.
pub open spec fn captured_views(v: Seq<CapturedOutput>) -> Seq<CapturedView> {
    v.map_values(|c: CapturedOutput| c@)
}

impl CapturedView {
    /// The text of the output where it is shown: a secret is masked.
    pub open spec fn shown(self) -> Seq<char> {
        if self.declared_type == OutputType::Secret {
            "***"@
        } else {
            self.value.used()
        }
    }
}

impl CapturedOutput {
    /// The text of the output where it is shown: a secret is masked.
    pub fn display_value(&self) -> (r: String)
        ensures
            r@ == self@.shown(),
    {
        match self.declared_type {
            OutputType::Secret => "***".to_owned(),
            _ => self.value.to_use_string(),
        }
    }
}

/// Where it is shown, a secret gives nothing away: two outputs that are declared
/// secret look the same whatever they hold.
pub proof fn secrets_look_alike(a: CapturedView, b: CapturedView)
    requires
        a.declared_type == OutputType::Secret,
        b.declared_type == OutputType::Secret,
    ensures
        a.shown() == b.shown(),
{
}

/// How a fragment declares an output: the text of its value is resolved when the
/// fragment has run.
#[derive(Debug, PartialEq, Eq)]
pub struct FragmentOutputDecl {
    pub name: String,
    pub output_type: OutputType,
    pub value: String,
    pub required: bool,
    pub default: Option<OutputValue>,
}

/// When a step runs.
#[derive(Debug, PartialEq, Eq)]
pub enum StepCondition {
    /// Always.
    Always,
    /// As was decided when the plan was loaded.
    Resolved(bool),
    /// As an expression decides when the step's turn comes.
    Deferred(String),
}

/// A step that runs a script.
#[derive(Debug)]
pub struct RunStep {
    pub target: StepTarget,
    pub name: String,
    pub run: String,
    /// Seconds the step may take.
    pub timeout: Option<u64>,
    /// The interpreter of the script.
    pub shell: Option<String>,
    /// Whether the script runs as root.
    pub sudo: Option<bool>,
    pub id: Option<String>,
    pub expect: Option<ExpectBlock>,
    pub condition: StepCondition,
    /// The outputs that the step declares.
    pub outputs: Vec<(String, OutputDecl)>,
    /// The outputs that the step gave out, once it has run.
    pub captured_outputs: Option<Vec<CapturedOutput>>,
}

impl RunStep {
    /// Whether the script runs as root: it does unless the step says otherwise.
    pub open spec fn as_root(&self) -> bool {
        match self.sudo {
            Some(b) => b,
            None => true,
        }
    }

    /// Whether the script runs as root: it does unless the step says otherwise.
    pub fn sudo_enabled(&self) -> (r: bool)
        ensures
            r == self.as_root(),
    {
        match self.sudo {
            Some(b) => b,
            None => true,
        }
    }
}

/// What an archive step unpacks, and where.
#[derive(Debug, PartialEq, Eq)]
pub struct ArchiveStepSpec {
    pub src: String,
    pub into: Option<String>,
    pub name: Option<String>,
    /// The directory on the guest to unpack into.
    pub dest: Option<String>,
}

impl ArchiveStepSpec {
    /// The name that is shown for the archive: its source if it has no name.
    pub open spec fn label(&self) -> Seq<char> {
        match self.name {
            Some(name) => name@,
            None => self.src@,
        }
    }

    /// The name that is shown for the archive: its source if it has no name.
    pub fn shown_name(&self) -> (r: &str)
        ensures
            r@ == self.label(),
    {
        match &self.name {
            Some(name) => name.as_str(),
            None => self.src.as_str(),
        }
    }
}

/// A step that unpacks an archive.
#[derive(Debug, PartialEq, Eq)]
pub struct ArchiveStep {
    pub archive: ArchiveStepSpec,
    pub target: Option<StepTarget>,
    pub run: Option<String>,
    pub timeout: Option<u64>,
    pub shell: Option<String>,
}

/// A step that runs the steps of a fragment.
#[derive(Debug)]
pub struct InvokeStep {
    pub uses: String,
    pub id: Option<String>,
    pub steps: Vec<TestStep>,
    /// The outputs that the fragment declares.
    pub output_decls: Vec<FragmentOutputDecl>,
    /// The inputs whose values refer to outputs of earlier steps.
    pub deferred_with: Vec<(String, Node)>,
    /// The outputs that the fragment gave out, once it has run.
    pub captured_outputs: Option<Vec<CapturedOutput>>,
}

/// A step of a plan.
#[derive(Debug)]
pub enum TestStep {
    Run(RunStep),
    Archive(ArchiveStep),
    Invoke(InvokeStep),
}

impl TestStep {
    /// The name that is shown for the step.
    pub open spec fn label(&self) -> Seq<char> {
        match self {
            TestStep::Run(step) => step.name@,
            TestStep::Archive(step) => step.archive.label(),
            TestStep::Invoke(step) => step.uses@,
        }
    }

    /// The identifier that is shown for the step: that of a run step.
    pub open spec fn shown_id(&self) -> Option<Seq<char>> {
        match self {
            TestStep::Run(step) => opt_text(step.id),
            _ => None,
        }
    }

    /// The name that is shown for the step.
    pub fn display_name(&self) -> (r: &str)
        ensures
            r@ == self.label(),
    {
        match self {
            TestStep::Run(step) => step.name.as_str(),
            TestStep::Archive(step) => step.archive.shown_name(),
            TestStep::Invoke(step) => step.uses.as_str(),
        }
    }

    /// The identifier that is shown for the step: that of a run step.
    pub fn display_id(&self) -> (r: Option<&str>)
        ensures
            match r {
                Some(id) => self.shown_id() == Some(id@),
                None => self.shown_id() is None,
            },
    {
        match self {
            TestStep::Run(step) => match &step.id {
                Some(id) => Some(id.as_str()),
                None => None,
            },
            _ => None,
        }
    }
}

// ---------------------------------------------------------------------------
// Seconds
// ---------------------------------------------------------------------------

/// A number of seconds as a document writes it.
#[derive(Debug, PartialEq, Eq)]
pub enum SecondsValue {
    Integer(i64),
    String(String),
}

/// The number of seconds that a document writes, or why it is none.
pub open spec fn seconds(value: SecondsValue) -> Result<int, Seq<char>> {
    let parsed = match value {
        SecondsValue::Integer(n) => Some(n as int),
        SecondsValue::String(s) => integer(trim(s@)),
    };
    match parsed {
        Some(n) => if n > 0 {
            Ok(n)
        } else {
            Err("expected a positive integer number of seconds, got "@ + signed_decimal(n))
        },
        None => Err(
            "expected a positive integer number of seconds, got '"@ + value->String_0@ + "'"@,
        ),
    }
}

/// Reads a number of seconds, which must be positive.
pub fn parse_positive_seconds(value: SecondsValue) -> (r: Result<u64, String>)
    ensures
        match r {
            Ok(n) => seconds(value) == Ok::<int, Seq<char>>(n as int),
            Err(e) => seconds(value) == Err::<int, Seq<char>>(e@),
        },
{
    let parsed: i64 = match &value {
        SecondsValue::Integer(n) => *n,
        SecondsValue::String(s) => {
            let t = trimmed(s.as_str());
            match parse_integer(t.as_str()) {
                Some(n) => n,
                None => {
                    return Err(
                        cat3(
                            "expected a positive integer number of seconds, got '",
                            s.as_str(),
                            "'",
                        ),
                    );
                },
            }
        },
    };
    if parsed <= 0 {
        let shown = decimal_i64(parsed);
        return Err(
            cat2("expected a positive integer number of seconds, got ", shown.as_str()),
        );
    }
    Ok(parsed as u64)
}

// ---------------------------------------------------------------------------
// Interpreters
// ---------------------------------------------------------------------------

/// The command line of an interpreter, with `{0}` for the script, or why there is
/// none.
pub open spec fn shell_template(shell: Option<Seq<char>>) -> Result<Seq<Seq<char>>, Seq<char>> {
    match shell {
        None => Ok(bash_template()),
        Some(s) => if s == "bash"@ {
            Ok(bash_template())
        } else if s == "sh"@ {
            Ok(sh_template())
        } else if s == "python"@ {
            Ok(seq!["python3"@, "{0}"@])
        } else if find(s, "{0}"@) is Some {
            Ok(words(s))
        } else if words(s).len() <= 1 {
            Err(
                "unknown named shell '"@ + s
                    + "'; supported named shells: bash, sh, python. For a custom interpreter use the '{0}' placeholder form, e.g. '"@
                    + s + " {0}'"@,
            )
        } else {
            Err(
                "custom shell '"@ + s
                    + "' does not contain the '{0}' placeholder; '{0}' must appear in the shell template to indicate where the script file path is substituted"@,
            )
        },
    }
}

/// The command line of `bash`.
pub open spec fn bash_template() -> Seq<Seq<char>> {
    seq!["bash"@, "--noprofile"@, "--norc"@, "-e"@, "-o"@, "pipefail"@, "{0}"@]
}

/// The command line of `sh`.
pub open spec fn sh_template() -> Seq<Seq<char>> {
    seq!["sh"@, "-e"@, "{0}"@]
}

/// The command line of the interpreter that is used where that of a step is not there. Only a
/// step that names none has one.
pub open spec fn fallback_template(shell: Option<Seq<char>>) -> Option<Seq<Seq<char>>> {
    match shell {
        None => Some(sh_template()),
        Some(_) => None,
    }
}

/// The command line of `sh`, with `{0}` for the script.
pub fn sh_command() -> (r: Vec<String>)
    ensures
        texts(r@) == sh_template(),
{
    let r: Vec<String> = vec!["sh".to_owned(), "-e".to_owned(), "{0}".to_owned()];
    assert(texts(r@) =~= sh_template());
    r
}

fn bash_command() -> (r: Vec<String>)
    ensures
        texts(r@) == bash_template(),
{
    let r: Vec<String> = vec![
        "bash".to_owned(),
        "--noprofile".to_owned(),
        "--norc".to_owned(),
        "-e".to_owned(),
        "-o".to_owned(),
        "pipefail".to_owned(),
        "{0}".to_owned(),
    ];
    assert(texts(r@) =~= bash_template());
    r
}

/// The command line of a step's interpreter, with `{0}` for the script. `bash`,
/// `sh` and `python` are known by name, and `bash` is meant if none is named.
pub fn resolve_shell(shell: Option<&str>) -> (r: Result<Vec<String>, PlanError>)
    ensures
        match r {
            Ok(template) => shell_template(opt_slice(shell)) == Ok::<Seq<Seq<char>>, Seq<char>>(
                texts(template@),
            ),
            Err(e) => shell_template(opt_slice(shell)) == Err::<Seq<Seq<char>>, Seq<char>>(e@),
        },
{
    let s = match shell {
        None => {
            return Ok(bash_command());
        },
        Some(s) => s,
    };
    if same(s, "bash") {
        return Ok(bash_command());
    }
    if same(s, "sh") {
        return Ok(sh_command());
    }
    if same(s, "python") {
        let r: Vec<String> = vec!["python3".to_owned(), "{0}".to_owned()];
        assert(texts(r@) =~= seq!["python3"@, "{0}"@]);
        return Ok(r);
    }
    let parts = text_words(s);
    assert(texts(parts@).len() == parts@.len());
    if contains(s, "{0}") {
        Ok(parts)
    } else if parts.len() <= 1 {
        Err(
            PlanError::new(
                cat5(
                    "unknown named shell '",
                    s,
                    "'; supported named shells: bash, sh, python. For a custom interpreter use the '{0}' placeholder form, e.g. '",
                    s,
                    " {0}'",
                ),
            ),
        )
    } else {
        Err(
            PlanError::new(
                cat3(
                    "custom shell '",
                    s,
                    "' does not contain the '{0}' placeholder; '{0}' must appear in the shell template to indicate where the script file path is substituted",
                ),
            ),
        )
    }
}

/// Text without white space that stands in `s` stands in one of its words.
proof fn lemma_word_holds(s: Seq<char>, pat: Seq<char>, i: int) -> (k: int)
    requires
        pat.len() > 0,
        forall|j: int| 0 <= j < pat.len() ==> !is_space(#[trigger] pat[j]),
        occurs_at(s, pat, i),
    ensures
        0 <= k < words(s).len(),
        find(words(s)[k], pat) is Some,
    decreases s.len(),
{
    let t = trim_start(s);
    lemma_trim_start(s);
    let d = s.len() - t.len();
    assert(s.subrange(i, i + pat.len())[0] == s[i]);
    assert(!is_space(pat[0]));
    assert(i >= d);
    assert(t.subrange(i - d, i - d + pat.len()) =~= s.subrange(i, i + pat.len()));
    assert(occurs_at(t, pat, i - d));
    lemma_word_len(t);
    let n = word_len(t);
    let w = t.take(n);
    let rest = t.skip(n);
    if i - d + pat.len() <= n {
        assert(w.subrange(i - d, i - d + pat.len()) =~= t.subrange(i - d, i - d + pat.len()));
        assert(occurs_at(w, pat, i - d));
        lemma_find_from(w, pat, 0);
        assert(words(s)[0] == w);
        0
    } else {
        lemma_word_ends(t);
        if i - d < n {
            assert(t.subrange(i - d, i - d + pat.len())[n - (i - d)] == t[n]);
            assert(!is_space(pat[n - (i - d)]));
            assert(false);
        }
        assert(rest.subrange(i - d - n, i - d - n + pat.len()) =~= t.subrange(
            i - d,
            i - d + pat.len(),
        ));
        let k = lemma_word_holds(rest, pat, i - d - n);
        assert(words(s)[k + 1] == words(rest)[k]);
        k + 1
    }
}

proof fn lemma_word_ends(s: Seq<char>)
    ensures
        word_len(s) < s.len() ==> is_space(s[word_len(s)]),
    decreases s.len(),
{
    if s.len() > 0 && !is_space(s[0]) {
        lemma_word_ends(s.skip(1));
        lemma_word_len(s.skip(1));
        if word_len(s) < s.len() {
            assert(s.skip(1)[word_len(s) - 1] == s[word_len(s)]);
        }
    }
}

/// Every command line that an interpreter resolves to has a place for the script:
/// one of its words holds `{0}`.
pub proof fn templates_take_a_script(shell: Option<Seq<char>>)
    ensures
        shell_template(shell) matches Ok(template) ==> exists|k: int|
            0 <= k < template.len() && find(#[trigger] template[k], "{0}"@) is Some,
{
    reveal_strlit("{0}");
    let mark = "{0}"@;
    lemma_find_from(mark, mark, 0);
    assert(mark.subrange(0, mark.len() as int) =~= mark);
    assert(occurs_at(mark, mark, 0));
    assert(find(mark, mark) is Some);
    if let Ok(template) = shell_template(shell) {
        match shell {
            None => {
                assert(template[6] == mark);
            },
            Some(s) => {
                if s == "bash"@ {
                    assert(template[6] == mark);
                } else if s == "sh"@ {
                    assert(template[2] == mark);
                } else if s == "python"@ {
                    assert(template[1] == mark);
                } else {
                    lemma_find_from(s, mark, 0);
                    let i = find(s, mark)->0;
                    let k = lemma_word_holds(s, mark, i);
                    assert(template[k] == words(s)[k]);
                }
            },
        }
    }
}

} // verus!
