//! The shell commands that run in the guest.

use vstd::prelude::*;
use vstd::string::*;

use crate::budget::{Retries, SMALL_COMMAND_SECS, one_try};
use crate::env::{env_merge, merged};
use crate::pairs::{Pair, pairs};
use crate::paths::{join_path, joined_path};
use crate::shell::{
    command_words, is_literal, is_literal_word, lemma_joined_words, lemma_literal_word,
    lemma_quoted_word, quoted, reads_as_word, shell_single_quote, so_far,
};
use crate::step::{fallback_template, sh_command, shell_template};
use crate::strings::{cat2, cat3, cat4, cat5, cat6, joined, same, to_chars};
use crate::text::{join, opt_text, texts};

verus! {

/// `s` with every `from` written as `to`.
pub open spec fn replaced(s: Seq<char>, from: char, to: char) -> Seq<char> {
    s.map_values(
        |c: char|
            if c == from {
                to
            } else {
                c
            },
    )
}

/// `s` with every `from` written as `to`.
pub fn replace_char(s: &str, from: char, to: char) -> (r: String)
    ensures
        r@ == replaced(s@, from, to),
{
    let v = to_chars(s);
    let ghost want = replaced(s@, from, to);
    let mut r = String::new();
    assert(r@ =~= want.take(0));
    let mut i: usize = 0;
    while i < v.len()
        invariant
            i <= v@.len(),
            v@ == s@,
            want == replaced(s@, from, to),
            r@ == want.take(i as int),
        decreases v@.len() - i,
    {
        if v[i] == from {
            r.push(to);
        } else {
            r.push(v[i]);
        }
        assert(r@ =~= want.take(i + 1));
        i += 1;
    }
    assert(want.take(i as int) =~= want);
    r
}

/// The names of the files that belong to one run of a step in the guest.
#[derive(Debug, PartialEq, Eq)]
pub struct GuestStepFiles {
    /// The script on the host, below the directory for temporary files.
    pub local_script: String,
    pub remote_script: String,
    pub remote_env_path: String,
    pub remote_out_path: String,
}

/// The end of a name that belongs to a step: its index, with dashes for dots, and a
/// suffix that tells runs apart.
pub open spec fn step_mark(display: Seq<char>, suffix: Seq<char>) -> Seq<char> {
    replaced(display, '.', '-') + "-"@ + suffix
}

/// The names of the files for the step with the index `step_display`.
pub fn guest_step_files(temp_dir: &str, step_display: &str, suffix: &str) -> (r: GuestStepFiles)
    ensures
        r.local_script@ == joined_path(
            temp_dir@,
            "botforge-step-"@ + step_mark(step_display@, suffix@) + ".sh"@,
        ),
        r.remote_script@ == "/tmp/botforge-step-"@ + step_mark(step_display@, suffix@) + ".sh"@,
        r.remote_env_path@ == "/tmp/botforge-env-"@ + step_mark(step_display@, suffix@),
        r.remote_out_path@ == "/tmp/botforge-out-"@ + step_mark(step_display@, suffix@),
{
    let safe = replace_char(step_display, '.', '-');
    let mark = cat3(safe.as_str(), "-", suffix);
    let local = cat3("botforge-step-", mark.as_str(), ".sh");
    GuestStepFiles {
        local_script: join_path(temp_dir, local.as_str()),
        remote_script: cat3("/tmp/botforge-step-", mark.as_str(), ".sh"),
        remote_env_path: cat2("/tmp/botforge-env-", mark.as_str()),
        remote_out_path: cat2("/tmp/botforge-out-", mark.as_str()),
    }
}

/// The command that empties the two files that a step writes to, and lets everybody
/// write to them.
pub open spec fn files_init(env_path: Seq<char>, out_path: Seq<char>) -> Seq<char> {
    "sudo sh -c "@ + quoted(
        "umask 000; : > "@ + quoted(env_path) + "; chmod 0666 "@ + quoted(env_path) + "; : > "@
            + quoted(out_path) + "; chmod 0666 "@ + quoted(out_path),
    )
}

/// The command that empties the two files that a step writes to, and lets everybody
/// write to them.
pub fn guest_files_init_cmd(remote_env_path: &str, remote_out_path: &str) -> (r: String)
    ensures
        r@ == files_init(remote_env_path@, remote_out_path@),
{
    let env_path = shell_single_quote(remote_env_path);
    let out_path = shell_single_quote(remote_out_path);
    let first = cat5(
        "umask 000; : > ",
        env_path.as_str(),
        "; chmod 0666 ",
        env_path.as_str(),
        "; : > ",
    );
    let payload = cat4(first.as_str(), out_path.as_str(), "; chmod 0666 ", out_path.as_str());
    let word = shell_single_quote(payload.as_str());
    cat2("sudo sh -c ", word.as_str())
}

/// A command line with the script in the place of `{0}`.
pub open spec fn with_script(template: Seq<Seq<char>>, script: Seq<char>) -> Seq<Seq<char>> {
    template.map_values(
        |word: Seq<char>|
            if word == "{0}"@ {
                script
            } else {
                word
            },
    )
}

/// A command line with the script in the place of `{0}`.
pub fn place_script(template: &[String], script: &str) -> (r: Vec<String>)
    ensures
        texts(r@) == with_script(texts(template@), script@),
{
    let ghost all = texts(template@);
    let ghost want = with_script(all, script@);
    let mut r: Vec<String> = Vec::new();
    assert(texts(r@) =~= want.take(0));
    let mut i: usize = 0;
    while i < template.len()
        invariant
            i <= template@.len(),
            all == texts(template@),
            want == with_script(all, script@),
            texts(r@) == want.take(i as int),
        decreases template@.len() - i,
    {
        let ghost had = texts(r@);
        assert(all[i as int] == template@[i as int]@);
        let word = if same(template[i].as_str(), "{0}") {
            script.to_owned()
        } else {
            template[i].clone()
        };
        let ghost view = word@;
        r.push(word);
        assert(texts(r@) =~= had.push(view));
        assert(texts(r@) =~= want.take(i + 1));
        i += 1;
    }
    assert(want.take(i as int) =~= want);
    r
}

/// The assignments that hand the environment to a command of the guest.
pub open spec fn env_words(env: Seq<Pair>, env_path: Seq<char>, out_path: Seq<char>) -> Seq<
    Seq<char>,
> {
    env.map_values(|p: Pair| p.0 + "="@ + quoted(p.1)).push("BF_ENV="@ + quoted(env_path)).push(
        "BF_OUT="@ + quoted(out_path),
    )
}

/// The command that runs a script in the guest, with an environment.
pub open spec fn guest_command(
    template: Seq<Seq<char>>,
    script: Seq<char>,
    sudo: bool,
    env: Seq<Pair>,
    env_path: Seq<char>,
    out_path: Seq<char>,
) -> Seq<char> {
    (if sudo {
        "sudo -E env "@
    } else {
        "env "@
    }) + join(env_words(env, env_path, out_path), " "@) + " "@ + join(
        with_script(template, quoted(script)),
        " "@,
    )
}

/// The command that runs a script in the guest. The environment comes in front, behind
/// it the files that the script may write variables and outputs to.
pub fn build_guest_ssh_cmd(
    template: &[String],
    remote_script: &str,
    sudo: bool,
    accumulated_env: &[(String, String)],
    remote_env_path: &str,
    remote_out_path: &str,
) -> (r: String)
    ensures
        r@ == guest_command(
            texts(template@),
            remote_script@,
            sudo,
            pairs(accumulated_env@),
            remote_env_path@,
            remote_out_path@,
        ),
{
    let script = shell_single_quote(remote_script);
    let words = place_script(template, script.as_str());
    let interpreter = joined(&words, " ");
    let ghost env = pairs(accumulated_env@);
    let ghost front = env.map_values(|p: Pair| p.0 + "="@ + quoted(p.1));
    let mut parts: Vec<String> = Vec::new();
    assert(texts(parts@) =~= front.take(0));
    let mut i: usize = 0;
    while i < accumulated_env.len()
        invariant
            i <= accumulated_env@.len(),
            env == pairs(accumulated_env@),
            front == env.map_values(|p: Pair| p.0 + "="@ + quoted(p.1)),
            texts(parts@) == front.take(i as int),
        decreases accumulated_env@.len() - i,
    {
        let ghost had = texts(parts@);
        assert(env[i as int] == (accumulated_env@[i as int].0@, accumulated_env@[i as int].1@));
        let value = shell_single_quote(accumulated_env[i].1.as_str());
        let word = cat3(accumulated_env[i].0.as_str(), "=", value.as_str());
        let ghost view = word@;
        parts.push(word);
        assert(texts(parts@) =~= had.push(view));
        assert(texts(parts@) =~= front.take(i + 1));
        i += 1;
    }
    assert(front.take(i as int) =~= front);
    let env_path = shell_single_quote(remote_env_path);
    let out_path = shell_single_quote(remote_out_path);
    parts.push(cat2("BF_ENV=", env_path.as_str()));
    parts.push(cat2("BF_OUT=", out_path.as_str()));
    assert(texts(parts@) =~= env_words(env, remote_env_path@, remote_out_path@));
    let assignments = joined(&parts, " ");
    let lead = if sudo {
        "sudo -E env "
    } else {
        "env "
    };
    cat4(lead, assignments.as_str(), " ", interpreter.as_str())
}

/// A command that runs `first` where `bash` is there, and `second` where it is not.
pub open spec fn where_bash(first: Seq<char>, second: Seq<char>) -> Seq<char> {
    "if command -v bash >/dev/null 2>&1; then "@ + first + "; else "@ + second + "; fi"@
}

/// The command that runs the script of a step in the guest, with an environment. A step that
/// names no interpreter runs under `sh` where `bash` is not there.
pub open spec fn step_command(
    shell: Option<Seq<char>>,
    script: Seq<char>,
    sudo: bool,
    env: Seq<Pair>,
    env_path: Seq<char>,
    out_path: Seq<char>,
) -> Seq<char> {
    let command = guest_command(
        shell_template(shell)->Ok_0,
        script,
        sudo,
        env,
        env_path,
        out_path,
    );
    match fallback_template(shell) {
        Some(other) => where_bash(
            command,
            guest_command(other, script, sudo, env, env_path, out_path),
        ),
        None => command,
    }
}

/// The command that runs the script of a step in the guest. `template` is the interpreter
/// that `shell` names, or the default one. A step that names none runs under `sh` where
/// `bash` is not there.
pub fn build_step_cmd(
    shell: &Option<String>,
    template: &[String],
    remote_script: &str,
    sudo: bool,
    accumulated_env: &[(String, String)],
    remote_env_path: &str,
    remote_out_path: &str,
) -> (r: String)
    requires
        shell_template(opt_text(*shell)) == Ok::<Seq<Seq<char>>, Seq<char>>(texts(template@)),
    ensures
        r@ == step_command(
            opt_text(*shell),
            remote_script@,
            sudo,
            pairs(accumulated_env@),
            remote_env_path@,
            remote_out_path@,
        ),
{
    let command = build_guest_ssh_cmd(
        template,
        remote_script,
        sudo,
        accumulated_env,
        remote_env_path,
        remote_out_path,
    );
    if shell.is_some() {
        return command;
    }
    let other = sh_command();
    let second = build_guest_ssh_cmd(
        other.as_slice(),
        remote_script,
        sudo,
        accumulated_env,
        remote_env_path,
        remote_out_path,
    );
    cat5(
        "if command -v bash >/dev/null 2>&1; then ",
        command.as_str(),
        "; else ",
        second.as_str(),
        "; fi",
    )
}

/// The command that prints a file of the guest.
pub fn read_cmd(path: &str) -> (r: String)
    ensures
        r@ == "cat "@ + quoted(path@),
{
    let word = shell_single_quote(path);
    cat2("cat ", word.as_str())
}

/// The command that removes the files of a step from the guest.
pub fn cleanup_cmd(remote_out_path: &str, remote_env_path: &str, remote_script: &str) -> (r: String)
    ensures
        r@ == "rm -f "@ + quoted(remote_out_path@) + " "@ + quoted(remote_env_path@) + " "@
            + quoted(remote_script@),
{
    let out_path = shell_single_quote(remote_out_path);
    let env_path = shell_single_quote(remote_env_path);
    let script = shell_single_quote(remote_script);
    cat6("rm -f ", out_path.as_str(), " ", env_path.as_str(), " ", script.as_str())
}

/// The command that mounts a disc of the guest by its label.
pub fn bootstrap_mount_cmd(mount: &str, label: &str) -> (r: String)
    ensures
        r@ == "sudo mkdir -p "@ + quoted(mount@) + " && sudo mount -L "@ + quoted(label@)
            + " -o ro "@ + quoted(mount@),
{
    let m = shell_single_quote(mount);
    let l = shell_single_quote(label);
    cat6("sudo mkdir -p ", m.as_str(), " && sudo mount -L ", l.as_str(), " -o ro ", m.as_str())
}

/// The command that runs the script of a mounted disc.
pub fn bootstrap_run_cmd(mount: &str, script: &str) -> (r: String)
    ensures
        r@ == "sudo bash "@ + quoted(joined_path(mount@, script@)),
{
    let path = join_path(mount, script);
    let word = shell_single_quote(path.as_str());
    cat2("sudo bash ", word.as_str())
}

/// The environment of a step on the host: the files that it may write variables and
/// outputs to, and then the variables of earlier steps.
pub fn host_env(accumulated_env: &[(String, String)], env_file: &str, out_file: &str) -> (r: Vec<
    (String, String),
>)
    ensures
        pairs(r@) == merged(
            seq![("BF_ENV"@, env_file@), ("BF_OUT"@, out_file@)],
            pairs(accumulated_env@),
        ),
{
    let mut r: Vec<(String, String)> = vec![
        ("BF_ENV".to_owned(), env_file.to_owned()),
        ("BF_OUT".to_owned(), out_file.to_owned()),
    ];
    assert(pairs(r@) =~= seq![("BF_ENV"@, env_file@), ("BF_OUT"@, out_file@)]);
    let mut more: Vec<(String, String)> = Vec::new();
    let ghost all = pairs(accumulated_env@);
    assert(pairs(more@) =~= all.take(0));
    let mut i: usize = 0;
    while i < accumulated_env.len()
        invariant
            i <= accumulated_env@.len(),
            all == pairs(accumulated_env@),
            pairs(more@) == all.take(i as int),
        decreases accumulated_env@.len() - i,
    {
        let ghost had = pairs(more@);
        more.push((accumulated_env[i].0.clone(), accumulated_env[i].1.clone()));
        assert(pairs(more@) =~= had.push(all[i as int]));
        assert(pairs(more@) =~= all.take(i + 1));
        i += 1;
    }
    assert(all.take(i as int) =~= all);
    env_merge(&mut r, more);
    r
}

/// A command to run in the guest, that often and within that many seconds. How it ends does
/// not matter.
#[derive(Debug, PartialEq, Eq)]
pub struct GuestRequest {
    pub command: String,
    pub retries: Retries,
    pub secs: u64,
}

/// Whether a request is to run `command` once, as a small command.
pub open spec fn is_small(r: GuestRequest, command: Seq<char>) -> bool {
    r.command@ == command && r.retries == one_try() && r.secs == SMALL_COMMAND_SECS
}

fn small(command: &str) -> (r: GuestRequest)
    ensures
        is_small(r, command@),
{
    GuestRequest {
        command: command.to_owned(),
        retries: Retries::once(),
        secs: SMALL_COMMAND_SECS,
    }
}

/// The commands that show what went wrong in a guest: its failed units, its journal,
/// which the command `journal` shows, and the state of its first boot.
pub fn collect_test_diagnostics(journal: &str) -> (r: Vec<GuestRequest>)
    ensures
        r@.len() == 3,
        is_small(r@[0], "systemctl --failed"@),
        is_small(r@[1], journal@),
        is_small(r@[2], "cloud-init status --long"@),
{
    vec![small("systemctl --failed"), small(journal), small("cloud-init status --long")]
}

/// The last lines of a log.
pub fn log_tail(lines: &Vec<String>, line_count: usize) -> (r: Vec<String>)
    ensures
        texts(r@) == texts(lines@).skip(
            if lines@.len() > line_count {
                lines@.len() - line_count
            } else {
                0
            },
        ),
{
    let start: usize = if lines.len() > line_count {
        lines.len() - line_count
    } else {
        0
    };
    let ghost all = texts(lines@);
    let mut r: Vec<String> = Vec::new();
    let mut i: usize = start;
    assert(texts(r@) =~= all.subrange(start as int, start as int));
    while i < lines.len()
        invariant
            start <= i <= lines@.len(),
            all == texts(lines@),
            texts(r@) == all.subrange(start as int, i as int),
        decreases lines@.len() - i,
    {
        let ghost had = texts(r@);
        let line = lines[i].clone();
        let ghost view = line@;
        assert(all[i as int] == view);
        r.push(line);
        assert(texts(r@) =~= had.push(view));
        assert(texts(r@) =~= all.subrange(start as int, i + 1));
        i += 1;
    }
    assert(all.subrange(start as int, all.len() as int) =~= all.skip(start as int));
    r
}

/// The words of the command that runs a script in the guest: the interpreter with its
/// script, and the environment in front of it.
pub open spec fn command_meaning(
    template: Seq<Seq<char>>,
    script: Seq<char>,
    sudo: bool,
    env: Seq<Pair>,
    env_path: Seq<char>,
    out_path: Seq<char>,
) -> Seq<Seq<char>> {
    (if sudo {
        seq!["sudo"@, "-E"@, "env"@]
    } else {
        seq!["env"@]
    }) + env_meaning(env, env_path, out_path) + with_script(template, script)
}

/// What a script is given arrives as it was: a shell that reads the command finds the
/// interpreter with the script in its place, and in front of it every variable with its
/// value, whatever characters the values and the paths hold. The names of variables and
/// the words of the interpreter are literal words.
pub proof fn guest_commands_carry_their_values(
    template: Seq<Seq<char>>,
    script: Seq<char>,
    sudo: bool,
    env: Seq<Pair>,
    env_path: Seq<char>,
    out_path: Seq<char>,
)
    requires
        template.len() > 0,
        forall|k: int|
            0 <= k < template.len() ==> #[trigger] template[k] == "{0}"@ || is_literal_word(
                template[k],
            ),
        forall|k: int| 0 <= k < env.len() ==> is_literal_word((#[trigger] env[k]).0),
    ensures
        command_words(
            guest_command(template, script, sudo, env, env_path, out_path),
            None,
            false,
        ) == Some(command_meaning(template, script, sudo, env, env_path, out_path)),
{
    reveal_strlit(" ");
    let tail_words = with_script(template, script);
    let tail = join(with_script(template, quoted(script)), " "@);
    lemma_interpreter_words(template, script);
    let env_meanings = env_meaning(env, env_path, out_path);
    let behind = join(env_words(env, env_path, out_path), " "@) + (" "@ + tail);
    lemma_environment_words(env, env_path, out_path, tail, tail_words);
    let spaced = " "@ + behind;
    assert(spaced[0] == ' ' && spaced.skip(1) =~= behind);
    let lead = if sudo {
        seq!["sudo"@, "-E"@, "env"@]
    } else {
        seq!["env"@]
    };
    lemma_prefix_words();
    lemma_joined_words(lead, lead, spaced);
    assert(lead.drop_last() + (seq![lead.last()] + (env_meanings + tail_words)) =~= lead
        + env_meanings + tail_words);
    lemma_command_text(sudo);
    assert(guest_command(template, script, sudo, env, env_path, out_path) =~= join(lead, " "@)
        + spaced);
}

/// The words of the environment.
pub open spec fn env_meaning(env: Seq<Pair>, env_path: Seq<char>, out_path: Seq<char>) -> Seq<
    Seq<char>,
> {
    env.map_values(|p: Pair| p.0 + "="@ + p.1).push("BF_ENV="@ + env_path).push(
        "BF_OUT="@ + out_path,
    )
}

proof fn lemma_command_text(sudo: bool)
    ensures
        join(
            if sudo {
                seq!["sudo"@, "-E"@, "env"@]
            } else {
                seq!["env"@]
            },
            " "@,
        ) + " "@ == if sudo {
            "sudo -E env "@
        } else {
            "env "@
        },
{
    reveal_strlit(" ");
    reveal_strlit("sudo");
    reveal_strlit("-E");
    reveal_strlit("env");
    reveal_strlit("env ");
    reveal_strlit("sudo -E env ");
    reveal_with_fuel(join, 3);
    let three = seq!["sudo"@, "-E"@, "env"@];
    assert(three.drop_last() =~= seq!["sudo"@, "-E"@]);
    assert(three.drop_last().drop_last() =~= seq!["sudo"@]);
    assert(join(three, " "@) + " "@ =~= "sudo -E env "@);
    assert(join(seq!["env"@], " "@) + " "@ =~= "env "@);
}

proof fn lemma_interpreter_words(template: Seq<Seq<char>>, script: Seq<char>)
    requires
        template.len() > 0,
        forall|k: int|
            0 <= k < template.len() ==> #[trigger] template[k] == "{0}"@ || is_literal_word(
                template[k],
            ),
    ensures
        command_words(join(with_script(template, quoted(script)), " "@), None, false) == Some(
            with_script(template, script),
        ),
{
    let texts = with_script(template, quoted(script));
    let words = with_script(template, script);
    assert forall|k: int| 0 <= k < texts.len() implies reads_as_word(
        #[trigger] texts[k],
        words[k],
    ) by {
        if template[k] == "{0}"@ {
            lemma_quote_is_word(script);
        } else {
            lemma_literal_is_word(template[k]);
        }
    }
    let nothing: Seq<char> = seq![];
    lemma_joined_words(texts, words, nothing);
    assert(join(texts, " "@) + nothing =~= join(texts, " "@));
    assert(words.drop_last() + seq![words.last()] =~= words);
}

proof fn lemma_environment_words(
    env: Seq<Pair>,
    env_path: Seq<char>,
    out_path: Seq<char>,
    tail: Seq<char>,
    tail_words: Seq<Seq<char>>,
)
    requires
        forall|k: int| 0 <= k < env.len() ==> is_literal_word((#[trigger] env[k]).0),
        command_words(tail, None, false) == Some(tail_words),
    ensures
        command_words(
            join(env_words(env, env_path, out_path), " "@) + (" "@ + tail),
            None,
            false,
        ) == Some(env_meaning(env, env_path, out_path) + tail_words),
{
    reveal_strlit(" ");
    let texts = env_words(env, env_path, out_path);
    let words = env_meaning(env, env_path, out_path);
    lemma_prefix_words();
    assert forall|k: int| 0 <= k < texts.len() implies reads_as_word(
        #[trigger] texts[k],
        words[k],
    ) by {
        if k < env.len() {
            assert(is_literal_word(env[k].0));
            lemma_assignment_is_word(env[k].0, env[k].1);
        } else if k == env.len() {
            lemma_path_is_word("BF_ENV="@, env_path);
        } else {
            lemma_path_is_word("BF_OUT="@, out_path);
        }
    }
    let spaced = " "@ + tail;
    assert(spaced[0] == ' ' && spaced.skip(1) =~= tail);
    lemma_joined_words(texts, words, spaced);
    assert(words.drop_last() + (seq![words.last()] + tail_words) =~= words + tail_words);
}

/// A literal word is read as itself.
pub proof fn lemma_literal_is_word(text: Seq<char>)
    requires
        is_literal_word(text),
    ensures
        reads_as_word(text, text),
{
    reveal(reads_as_word);
    assert forall|rest: Seq<char>| #[trigger]
        command_words(text + rest, None, false) == command_words(rest, Some(text), false) by {
        lemma_literal_word(text, rest, None);
        assert(so_far(None) + text =~= text);
    }
}

/// A quoted text is read as the text.
pub proof fn lemma_quote_is_word(v: Seq<char>)
    ensures
        reads_as_word(quoted(v), v),
{
    reveal(reads_as_word);
    assert forall|rest: Seq<char>| #[trigger]
        command_words(quoted(v) + rest, None, false) == command_words(rest, Some(v), false) by {
        lemma_quoted_word(v, rest, None);
        assert(so_far(None) + v =~= v);
    }
}

/// A literal word with a quoted text right behind it is one word.
proof fn lemma_path_is_word(lead: Seq<char>, v: Seq<char>)
    requires
        is_literal_word(lead),
    ensures
        reads_as_word(lead + quoted(v), lead + v),
{
    reveal(reads_as_word);
    let text = lead + quoted(v);
    assert forall|rest: Seq<char>| #[trigger]
        command_words(text + rest, None, false) == command_words(
            rest,
            Some(lead + v),
            false,
        ) by {
        assert(text + rest =~= lead + (quoted(v) + rest));
        lemma_literal_word(lead, quoted(v) + rest, None);
        assert(so_far(None) + lead =~= lead);
        lemma_quoted_word(v, rest, Some(lead));
    }
}

proof fn lemma_assignment_is_word(name: Seq<char>, v: Seq<char>)
    requires
        is_literal_word(name),
    ensures
        reads_as_word(name + "="@ + quoted(v), name + "="@ + v),
{
    reveal_strlit("=");
    let lead = name + "="@;
    assert forall|k: int| 0 <= k < lead.len() implies is_literal(#[trigger] lead[k]) by {
        if k < name.len() {
            assert(is_literal(name[k]));
        }
    }
    lemma_path_is_word(lead, v);
}

proof fn lemma_prefix_words()
    ensures
        is_literal_word("BF_ENV="@),
        is_literal_word("BF_OUT="@),
        reads_as_word("sudo"@, "sudo"@),
        reads_as_word("-E"@, "-E"@),
        reads_as_word("env"@, "env"@),
{
    reveal_strlit("BF_ENV=");
    reveal_strlit("BF_OUT=");
    reveal_strlit("sudo");
    reveal_strlit("-E");
    reveal_strlit("env");
    lemma_literal_is_word("sudo"@);
    lemma_literal_is_word("-E"@);
    lemma_literal_is_word("env"@);
}

} // verus!
