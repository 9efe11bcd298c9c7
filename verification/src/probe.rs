//! The scripts that look at a guest, and the reading of what they print.

use vstd::prelude::*;
use vstd::string::*;

use crate::document::{AssertFile, AssertGroup, AssertPackage, AssertService, AssertUser};
use crate::globbing::{has_wildcard, is_glob_pattern};
use crate::shell::{quoted, shell_single_quote};
use crate::strings::{cat6, joined, text_lines};
use crate::text::{join, lines, texts};

verus! {

/// How often a probe is tried over a failing connection.
pub const ASSERT_TRANSPORT_RETRIES: usize = 3;

/// Seconds between two tries of a probe.
pub const ASSERT_TRANSPORT_RETRY_DELAY_SECS: u64 = 2;

/// Seconds a probe waits for its connection.
pub const ASSERT_CONNECT_TIMEOUT_SECS: u64 = 30;

/// The line that ends the script of a file probe.
pub const FILE_PROBE_HEREDOC_DELIM: &'static str = "__BOTFORGE_FILE_PROBE__";

/// The line that ends the script of a user probe.
pub const USERS_PROBE_HEREDOC_DELIM: &'static str = "__BOTFORGE_USERS_PROBE__";

/// The line that ends the script of a group probe.
pub const GROUPS_PROBE_HEREDOC_DELIM: &'static str = "__BOTFORGE_GROUPS_PROBE__";

/// The contents of a list of string slices.
pub open spec fn slices(v: Seq<&str>) -> Seq<Seq<char>> {
    v.map_values(|s: &str| s@)
}

/// The names of a list of named expectations.
pub open spec fn keys<T>(entries: Seq<(String, T)>) -> Seq<Seq<char>> {
    entries.map_values(|e: (String, T)| e.0@)
}

/// The entries whose name is a pattern, or those whose name is not, in order.
pub open spec fn selected<T>(entries: Seq<(String, T)>, patterns: bool) -> Seq<(String, T)>
    decreases entries.len(),
{
    if entries.len() == 0 {
        seq![]
    } else {
        let front = selected(entries.drop_last(), patterns);
        if has_wildcard(entries.last().0@) == patterns {
            front.push(entries.last())
        } else {
            front
        }
    }
}

/// The entries whose name is a pattern, or those whose name is not, in order.
pub fn select<T>(entries: &Vec<(String, T)>, patterns: bool) -> (r: Vec<&(String, T)>)
    ensures
        r@.unref() == selected(entries@, patterns),
{
    let mut r: Vec<&(String, T)> = Vec::new();
    let mut i: usize = 0;
    assert(r@.unref() =~= selected(entries@.take(0), patterns));
    while i < entries.len()
        invariant
            i <= entries@.len(),
            r@.unref() == selected(entries@.take(i as int), patterns),
        decreases entries@.len() - i,
    {
        let ghost had = r@.unref();
        assert(entries@.take(i + 1).drop_last() =~= entries@.take(i as int));
        assert(entries@.take(i + 1).last() == entries@[i as int]);
        if is_glob_pattern(entries[i].0.as_str()) == patterns {
            r.push(&entries[i]);
            assert(r@.unref() =~= had.push(entries@[i as int]));
        }
        i += 1;
    }
    assert(entries@.take(i as int) =~= entries@);
    r
}

/// The names of selected entries.
fn names_of<T>(entries: &Vec<&(String, T)>) -> (r: Vec<String>)
    ensures
        texts(r@) == keys(entries@.unref()),
{
    let mut r: Vec<String> = Vec::new();
    let mut i: usize = 0;
    while i < entries.len()
        invariant
            i <= entries@.len(),
            r@.len() == i,
            forall|j: int| 0 <= j < i ==> (#[trigger] r@[j])@ == entries@[j].0@,
        decreases entries@.len() - i,
    {
        r.push(entries[i].0.clone());
        i += 1;
    }
    assert(texts(r@) =~= keys(entries@.unref()));
    r
}

/// What a part of a probe looks at.
#[derive(Clone, Copy)]
pub enum Subject {
    /// A path: `absent`, or `present:` with its type, owner, group and mode.
    File,
    /// A user: `absent`, or `present:` with the login shell.
    User,
    /// The groups of a user, on one line.
    UserGroups,
    /// A group: `present` or `absent`.
    Group,
    /// A package: `present` if it is installed, else `absent`.
    Package,
    /// A service: its enabled state, a colon and its active state.
    Service,
}

impl Subject {
    /// The shell text of the part, with a gap for each place of the quoted name.
    pub open spec fn template(self) -> Seq<Seq<char>> {
        match self {
            Subject::File => seq![
                "if [ -L "@,
                " ] || [ -e "@,
                " ]; then\n  if [ -L "@,
                " ]; then _ft=symlink\n  elif [ -f "@,
                " ]; then _ft=file\n  elif [ -d "@,
                " ]; then _ft=directory\n  else _ft=other\n  fi\n  _owner=$(stat -c '%U' "@,
                ")\n  _group=$(stat -c '%G' "@,
                ")\n  _mode=$(stat -c '%a' "@,
                ")\n  printf 'present:%s:%s:%s:%s\\n' \"$_ft\" \"$_owner\" \"$_group\" \"$_mode\"\nelse\n  printf 'absent\\n'\nfi\n"@,
            ],
            Subject::User => seq![
                "if _u=$(getent passwd "@,
                "); then\n  _shell=$(echo \"$_u\" | cut -d: -f7)\n  printf 'present:%s\\n' \"$_shell\"\nelse\n  _rc=$?\n  if [ \"$_rc\" -eq 2 ]; then printf 'absent\\n'; else exit \"$_rc\"; fi\nfi\n"@,
            ],
            Subject::UserGroups => seq![
                "_groups=$(id -nG "@,
                ")\nprintf '%s\\n' \"$_groups\"\n"@,
            ],
            Subject::Group => seq![
                "if _g=$(getent group "@,
                "); then\n  printf 'present\\n'\nelse\n  _rc=$?\n  if [ \"$_rc\" -eq 2 ]; then printf 'absent\\n'; else exit \"$_rc\"; fi\nfi\n"@,
            ],
            Subject::Package => seq![
                "_s=$(dpkg-query -W -f='${Status}' "@,
                " 2>/dev/null || true)\nif [ \"$_s\" = 'install ok installed' ]; then\n  printf 'present\\n'\nelse\n  printf 'absent\\n'\nfi\n"@,
            ],
            Subject::Service => seq![
                "_e=$(systemctl is-enabled "@,
                " 2>/dev/null || true)\n_a=$(systemctl is-active "@,
                " 2>/dev/null || true)\nprintf '%s:%s\\n' \"$_e\" \"$_a\"\n"@,
            ],
        }
    }

    /// The part of a probe that prints the line of `name`.
    pub open spec fn block(self, name: Seq<char>) -> Seq<char> {
        join(self.template(), quoted(name))
    }

    /// The parts of a probe that print the lines of `names`, in order.
    pub open spec fn blocks(self, names: Seq<Seq<char>>) -> Seq<char>
        decreases names.len(),
    {
        if names.len() == 0 {
            seq![]
        } else {
            self.blocks(names.drop_last()) + self.block(names.last())
        }
    }

    fn template_text(self) -> (r: Vec<String>)
        ensures
            texts(r@) == self.template(),
    {
        let parts: Vec<String> = match self {
            Subject::File => vec![
                "if [ -L ".to_owned(),
                " ] || [ -e ".to_owned(),
                " ]; then\n  if [ -L ".to_owned(),
                " ]; then _ft=symlink\n  elif [ -f ".to_owned(),
                " ]; then _ft=file\n  elif [ -d ".to_owned(),
                " ]; then _ft=directory\n  else _ft=other\n  fi\n  _owner=$(stat -c '%U' ".to_owned(),
                ")\n  _group=$(stat -c '%G' ".to_owned(),
                ")\n  _mode=$(stat -c '%a' ".to_owned(),
                ")\n  printf 'present:%s:%s:%s:%s\\n' \"$_ft\" \"$_owner\" \"$_group\" \"$_mode\"\nelse\n  printf 'absent\\n'\nfi\n".to_owned(),
            ],
            Subject::User => vec![
                "if _u=$(getent passwd ".to_owned(),
                "); then\n  _shell=$(echo \"$_u\" | cut -d: -f7)\n  printf 'present:%s\\n' \"$_shell\"\nelse\n  _rc=$?\n  if [ \"$_rc\" -eq 2 ]; then printf 'absent\\n'; else exit \"$_rc\"; fi\nfi\n".to_owned(),
            ],
            Subject::UserGroups => vec![
                "_groups=$(id -nG ".to_owned(),
                ")\nprintf '%s\\n' \"$_groups\"\n".to_owned(),
            ],
            Subject::Group => vec![
                "if _g=$(getent group ".to_owned(),
                "); then\n  printf 'present\\n'\nelse\n  _rc=$?\n  if [ \"$_rc\" -eq 2 ]; then printf 'absent\\n'; else exit \"$_rc\"; fi\nfi\n".to_owned(),
            ],
            Subject::Package => vec![
                "_s=$(dpkg-query -W -f='${Status}' ".to_owned(),
                " 2>/dev/null || true)\nif [ \"$_s\" = 'install ok installed' ]; then\n  printf 'present\\n'\nelse\n  printf 'absent\\n'\nfi\n".to_owned(),
            ],
            Subject::Service => vec![
                "_e=$(systemctl is-enabled ".to_owned(),
                " 2>/dev/null || true)\n_a=$(systemctl is-active ".to_owned(),
                " 2>/dev/null || true)\nprintf '%s:%s\\n' \"$_e\" \"$_a\"\n".to_owned(),
            ],
        };
        assert(texts(parts@) =~= self.template());
        parts
    }

    fn block_text(self, name: &str) -> (r: String)
        ensures
            r@ == self.block(name@),
    {
        let parts = self.template_text();
        let q = shell_single_quote(name);
        joined(&parts, q.as_str())
    }

    /// `script` with the parts of the probe for `names` behind it.
    fn extend(self, script: String, names: &Vec<String>) -> (r: String)
        ensures
            r@ == script@ + self.blocks(texts(names@)),
    {
        let ghost start = script@;
        let ghost all = texts(names@);
        let mut r = script;
        let mut i: usize = 0;
        assert(all.take(0) =~= seq![]);
        assert(start + self.blocks(all.take(0)) =~= start);
        while i < names.len()
            invariant
                i <= names@.len(),
                all == texts(names@),
                r@ == start + self.blocks(all.take(i as int)),
            decreases names@.len() - i,
        {
            assert(all.take(i + 1).drop_last() =~= all.take(i as int));
            assert(all.take(i + 1).last() == names@[i as int]@);
            let part = self.block_text(names[i].as_str());
            r.append(part.as_str());
            assert(r@ =~= start + (self.blocks(all.take(i as int)) + self.block(
                names@[i as int]@,
            )));
            i += 1;
        }
        assert(all.take(i as int) =~= all);
        r
    }
}

/// `inner` as a script that runs as root.
pub open spec fn privileged(inner: Seq<char>, delimiter: Seq<char>) -> Seq<char> {
    "sudo -n sh <<'"@ + delimiter + "'\n"@ + inner + delimiter + "\n"@
}

/// `inner_script` as a script that runs as root without asking for a password.
pub fn build_privileged_probe_script(inner_script: &str, heredoc_delim: &str) -> (r: String)
    ensures
        r@ == privileged(inner_script@, heredoc_delim@),
{
    cat6("sudo -n sh <<'", heredoc_delim, "'\n", inner_script, heredoc_delim, "\n")
}

/// A script to run in the guest, and how often and how long it is tried.
#[derive(Debug, PartialEq, Eq)]
pub struct ProbeRequest {
    pub script: String,
    pub retries: usize,
    pub retry_delay_secs: u64,
    pub connect_timeout_secs: u64,
}

/// Whether a request is to run that script, as often and as long as probes are tried.
pub open spec fn requests(r: ProbeRequest, script: Seq<char>) -> bool {
    &&& r.script@ == script
    &&& r.retries == ASSERT_TRANSPORT_RETRIES
    &&& r.retry_delay_secs == ASSERT_TRANSPORT_RETRY_DELAY_SECS
    &&& r.connect_timeout_secs == ASSERT_CONNECT_TIMEOUT_SECS
}

fn request(script: String) -> (r: ProbeRequest)
    ensures
        requests(r, script@),
{
    ProbeRequest {
        script,
        retries: ASSERT_TRANSPORT_RETRIES,
        retry_delay_secs: ASSERT_TRANSPORT_RETRY_DELAY_SECS,
        connect_timeout_secs: ASSERT_CONNECT_TIMEOUT_SECS,
    }
}

/// Runs a script as root in the guest.
pub fn run_privileged_probe(inner_script: &str, heredoc_delim: &str) -> (r: ProbeRequest)
    ensures
        requests(r, privileged(inner_script@, heredoc_delim@)),
{
    request(build_privileged_probe_script(inner_script, heredoc_delim))
}

/// Probes files of the guest.
pub fn run_file_probe(paths: &[&str]) -> (r: ProbeRequest)
    ensures
        requests(r, privileged(file_script(slices(paths@)), FILE_PROBE_HEREDOC_DELIM@)),
{
    let inner = build_file_probe_script(paths);
    run_privileged_probe(inner.as_str(), FILE_PROBE_HEREDOC_DELIM)
}

/// The script of a file probe.
pub open spec fn file_script(paths: Seq<Seq<char>>) -> Seq<char> {
    "set -e\n"@ + Subject::File.blocks(paths)
}

/// The script that prints one line for each of `paths`, in order.
pub fn build_file_probe_script(paths: &[&str]) -> (r: String)
    ensures
        r@ == file_script(slices(paths@)),
{
    let mut names: Vec<String> = Vec::new();
    let mut i: usize = 0;
    while i < paths.len()
        invariant
            i <= paths@.len(),
            names@.len() == i,
            forall|j: int| 0 <= j < i ==> (#[trigger] names@[j])@ == paths@[j]@,
        decreases paths@.len() - i,
    {
        names.push(paths[i].to_owned());
        i += 1;
    }
    assert(texts(names@) =~= slices(paths@));
    Subject::File.extend("set -e\n".to_owned(), &names)
}

/// The probe of files; `None` if there is nothing to look at.
pub fn files_probe(files: &Vec<(String, AssertFile)>) -> (r: Option<ProbeRequest>)
    ensures
        match r {
            Some(asked) => files@.len() > 0 && requests(asked, privileged(file_script(keys(files@)), FILE_PROBE_HEREDOC_DELIM@)),
            None => files@.len() == 0,
        },
{
    if files.len() == 0 {
        return None;
    }
    let mut paths: Vec<&str> = Vec::new();
    let mut i: usize = 0;
    while i < files.len()
        invariant
            i <= files@.len(),
            paths@.len() == i,
            forall|j: int| 0 <= j < i ==> (#[trigger] paths@[j])@ == files@[j].0@,
        decreases files@.len() - i,
    {
        paths.push(files[i].0.as_str());
        i += 1;
    }
    assert(slices(paths@) =~= keys(files@));
    let inner = build_file_probe_script(paths.as_slice());
    Some(run_privileged_probe(inner.as_str(), FILE_PROBE_HEREDOC_DELIM))
}

/// Whether the groups of a user are looked at.
pub open spec fn wants_groups(user: AssertUser) -> bool {
    user.exists && user.groups@.len() > 0
}

/// The names of the users whose groups are looked at.
pub open spec fn grouped(users: Seq<(String, AssertUser)>) -> Seq<Seq<char>>
    decreases users.len(),
{
    if users.len() == 0 {
        seq![]
    } else {
        let front = grouped(users.drop_last());
        if wants_groups(users.last().1) {
            front.push(users.last().0@)
        } else {
            front
        }
    }
}

/// The script of a user probe: a line for each named user, then a line of groups
/// for each of them whose groups matter, then all users if there are patterns.
pub open spec fn user_script(users: Seq<(String, AssertUser)>) -> Seq<char> {
    let exact = selected(users, false);
    "set -e\n"@ + Subject::User.blocks(keys(exact)) + Subject::UserGroups.blocks(grouped(exact))
        + if selected(users, true).len() > 0 {
        "getent passwd\nprintf '__END_PASSWD__\\n'\n"@
    } else {
        seq![]
    }
}

/// The probe of users; `None` if there is nothing to look at.
pub fn users_probe(users: &Vec<(String, AssertUser)>) -> (r: Option<ProbeRequest>)
    ensures
        match r {
            Some(asked) => users@.len() > 0 && requests(asked, privileged(user_script(users@), USERS_PROBE_HEREDOC_DELIM@)),
            None => users@.len() == 0,
        },
{
    if users.len() == 0 {
        return None;
    }
    let exact = select(users, false);
    let ghost ex = exact@.unref();
    let names = names_of(&exact);
    let mut with_groups: Vec<String> = Vec::new();
    let mut i: usize = 0;
    assert(texts(with_groups@) =~= grouped(ex.take(0)));
    while i < exact.len()
        invariant
            i <= exact@.len(),
            ex == exact@.unref(),
            texts(with_groups@) == grouped(ex.take(i as int)),
        decreases exact@.len() - i,
    {
        let ghost had = texts(with_groups@);
        assert(ex.take(i + 1).drop_last() =~= ex.take(i as int));
        assert(ex.take(i + 1).last() == *exact@[i as int]);
        if exact[i].1.exists && exact[i].1.groups.len() > 0 {
            with_groups.push(exact[i].0.clone());
            assert(texts(with_groups@) =~= had.push(exact@[i as int].0@));
        }
        i += 1;
    }
    assert(ex.take(i as int) =~= ex);
    let script = Subject::User.extend("set -e\n".to_owned(), &names);
    let mut inner = Subject::UserGroups.extend(script, &with_groups);
    let patterns = select(users, true);
    if patterns.len() > 0 {
        inner.append("getent passwd\nprintf '__END_PASSWD__\\n'\n");
    }
    assert(inner@ =~= user_script(users@));
    Some(run_privileged_probe(inner.as_str(), USERS_PROBE_HEREDOC_DELIM))
}

/// The script of a group probe: a line for each named group, then all groups if
/// there are patterns.
pub open spec fn group_script(groups: Seq<(String, AssertGroup)>) -> Seq<char> {
    "set -e\n"@ + Subject::Group.blocks(keys(selected(groups, false))) + if selected(
        groups,
        true,
    ).len() > 0 {
        "getent group\nprintf '__END_GROUP__\\n'\n"@
    } else {
        seq![]
    }
}

/// The probe of groups; `None` if there is nothing to look at.
pub fn groups_probe(groups: &Vec<(String, AssertGroup)>) -> (r: Option<ProbeRequest>)
    ensures
        match r {
            Some(asked) => groups@.len() > 0 && requests(asked, privileged(group_script(groups@), GROUPS_PROBE_HEREDOC_DELIM@)),
            None => groups@.len() == 0,
        },
{
    if groups.len() == 0 {
        return None;
    }
    let exact = select(groups, false);
    let names = names_of(&exact);
    let mut inner = Subject::Group.extend("set -e\n".to_owned(), &names);
    let patterns = select(groups, true);
    if patterns.len() > 0 {
        inner.append("getent group\nprintf '__END_GROUP__\\n'\n");
    }
    assert(inner@ =~= group_script(groups@));
    Some(run_privileged_probe(inner.as_str(), GROUPS_PROBE_HEREDOC_DELIM))
}

/// The script of a package probe: a line for each named package, then all packages
/// with their states if there are patterns.
pub open spec fn package_script(packages: Seq<(String, AssertPackage)>) -> Seq<char> {
    "set -e\n"@ + Subject::Package.blocks(keys(selected(packages, false))) + if selected(
        packages,
        true,
    ).len() > 0 {
        "dpkg-query -W -f='${Package} ${Status}\\n' 2>/dev/null || true\nprintf '__END_DPKG__\\n'\n"@
    } else {
        seq![]
    }
}

/// The probe of packages; `None` if there is nothing to look at.
pub fn packages_probe(packages: &Vec<(String, AssertPackage)>) -> (r: Option<ProbeRequest>)
    ensures
        match r {
            Some(asked) => packages@.len() > 0 && requests(asked, package_script(packages@)),
            None => packages@.len() == 0,
        },
{
    if packages.len() == 0 {
        return None;
    }
    let exact = select(packages, false);
    let names = names_of(&exact);
    let mut script = Subject::Package.extend("set -e\n".to_owned(), &names);
    let patterns = select(packages, true);
    if patterns.len() > 0 {
        script.append(
            "dpkg-query -W -f='${Package} ${Status}\\n' 2>/dev/null || true\nprintf '__END_DPKG__\\n'\n",
        );
    }
    assert(script@ =~= package_script(packages@));
    Some(request(script))
}

/// The script of a service probe: a line for each service.
pub open spec fn service_script(services: Seq<(String, AssertService)>) -> Seq<char> {
    "set -e\n"@ + Subject::Service.blocks(keys(services))
}

/// The probe of services; `None` if there is nothing to look at.
pub fn services_probe(services: &Vec<(String, AssertService)>) -> (r: Option<ProbeRequest>)
    ensures
        match r {
            Some(asked) => services@.len() > 0 && requests(asked, service_script(services@)),
            None => services@.len() == 0,
        },
{
    if services.len() == 0 {
        return None;
    }
    let mut names: Vec<String> = Vec::new();
    let mut i: usize = 0;
    while i < services.len()
        invariant
            i <= services@.len(),
            names@.len() == i,
            forall|j: int| 0 <= j < i ==> (#[trigger] names@[j])@ == services@[j].0@,
        decreases services@.len() - i,
    {
        names.push(services[i].0.clone());
        i += 1;
    }
    assert(texts(names@) =~= keys(services@));
    Some(request(Subject::Service.extend("set -e\n".to_owned(), &names)))
}

// ---------------------------------------------------------------------------
// What a probe printed
// ---------------------------------------------------------------------------

/// The lines of a probe's output that are still to be read.
#[derive(Debug)]
pub struct LineCursor {
    lines: Vec<String>,
    next: usize,
}

impl LineCursor {
    /// The lines that are still to be read.
    pub closed spec fn rest(&self) -> Seq<Seq<char>> {
        texts(self.lines@).skip(self.next as int)
    }

    /// Whether the cursor stands inside its lines or at their end.
    #[verifier::type_invariant]
    spec fn inside(self) -> bool {
        self.next <= self.lines@.len()
    }

    /// A cursor at the first line of `output`.
    pub fn new(output: &str) -> (r: LineCursor)
        ensures
            r.rest() == lines(output@),
    {
        let r = LineCursor { lines: text_lines(output), next: 0 };
        assert(texts(r.lines@).skip(0) =~= texts(r.lines@));
        r
    }

    /// Reads the next line, if there is one.
    pub fn next(&mut self) -> (r: Option<String>)
        ensures
            match r {
                Some(line) => old(self).rest().len() > 0 && line@ == old(self).rest()[0]
                    && final(self).rest() == old(self).rest().skip(1),
                None => old(self).rest().len() == 0 && final(self).rest() == old(self).rest(),
            },
    {
        proof {
            use_type_invariant(&*self);
        }
        if self.next < self.lines.len() {
            let line = self.lines[self.next].clone();
            let ghost before_step = self.rest();
            self.next = self.next + 1;
            assert(self.rest() =~= before_step.skip(1));
            Some(line)
        } else {
            None
        }
    }

    /// Reads the next line; `missing` if there is none.
    pub fn next_or(&mut self, missing: &str) -> (r: String)
        ensures
            r@ == line_or(old(self).rest(), 0, missing@),
            final(self).rest() == after_lines(old(self).rest(), 1),
    {
        match self.next() {
            Some(line) => line,
            None => {
                assert(self.rest() =~= after_lines(self.rest(), 1));
                missing.to_owned()
            },
        }
    }
}

/// The line at position `i`; `missing` if there is none.
pub open spec fn line_or(lines: Seq<Seq<char>>, i: int, missing: Seq<char>) -> Seq<char> {
    if 0 <= i < lines.len() {
        lines[i]
    } else {
        missing
    }
}

/// What is left of `lines` when `n` of them have been read.
pub open spec fn after_lines(lines: Seq<Seq<char>>, n: int) -> Seq<Seq<char>> {
    if n <= lines.len() {
        lines.skip(n)
    } else {
        seq![]
    }
}

} // verus!
