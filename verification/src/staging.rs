//! Placing files in the guest.

use vstd::prelude::*;
use vstd::string::*;

use crate::budget::{Retries, SMALL_COMMAND_SECS, one_try, transport_tries};
use crate::error::{PlanError, in_context, outcome};
use crate::paths::{join_path, joined_path};
use crate::reference::{Reference, reference_of};
use crate::shell::{quoted, shell_single_quote};
use crate::strings::{cat2, cat3, cat4, cat5, cat6, cat7, decimal_u64, has_suffix, trimmed};
use crate::text::{decimal, ends_with, opt_text, trim};
use crate::validate::FileEntry;

verus! {

/// A file that a reference resolved to.
#[derive(Debug, PartialEq, Eq)]
pub struct ResolvedFile {
    pub local_path: String,
    /// Its path from the directory that the reference fixes.
    pub relative_path: String,
}

/// A file of the host and its place in the guest.
#[derive(Debug, PartialEq, Eq)]
pub struct FileMapping {
    pub local_path: String,
    pub guest_dest: String,
}

/// Whether a list of mappings gives each resolved file its place: below a destination
/// that ends with a slash, else at the destination itself.
pub open spec fn places(mappings: Seq<FileMapping>, files: Seq<ResolvedFile>, dest: Seq<char>) -> bool {
    &&& mappings.len() == files.len()
    &&& forall|k: int|
        0 <= k < files.len() ==> (#[trigger] mappings[k]).local_path@ == files[k].local_path@
            && mappings[k].guest_dest@ == if ends_with(dest, "/"@) {
            joined_path(dest, files[k].relative_path@)
        } else {
            dest
        }
}

/// Why the files of an entry cannot be placed: its source is no reference, or the
/// reference, as `resolved` says, resolves to nothing.
pub open spec fn mapping_error(
    file: FileEntry,
    resolved: Result<Vec<ResolvedFile>, PlanError>,
) -> Option<Seq<char>> {
    let src = trim(file.src@);
    match reference_of(src) {
        Err(e) => Some(in_context("file src '"@ + src + "' is not a valid @-reference"@, e)),
        Ok(_) => match resolved {
            Err(e) => Some(in_context("failed to resolve file src '"@ + src + "'"@, e@)),
            Ok(_) => None,
        },
    }
}

/// The places in the guest of the files of an entry. `resolved` is what its reference
/// resolved to.
pub fn resolve_file_mappings(
    file: &FileEntry,
    resolved: &Result<Vec<ResolvedFile>, PlanError>,
) -> (r: Result<Vec<FileMapping>, PlanError>)
    ensures
        outcome(r, mapping_error(*file, *resolved)),
        r matches Ok(mappings) ==> places(mappings@, resolved->Ok_0@, trim(file.dest@)),
{
    let src = trimmed(file.src.as_str());
    let dest = trimmed(file.dest.as_str());
    if let Err(e) = Reference::parse(src.as_str()) {
        let context = cat3("file src '", src.as_str(), "' is not a valid @-reference");
        return Err(e.within(context.as_str()));
    }
    let files = match resolved {
        Ok(files) => files,
        Err(e) => {
            let context = cat3("failed to resolve file src '", src.as_str(), "'");
            return Err(e.within(context.as_str()));
        },
    };
    let below = has_suffix(dest.as_str(), "/");
    let mut mappings: Vec<FileMapping> = Vec::new();
    let mut i: usize = 0;
    while i < files.len()
        invariant
            i <= files@.len(),
            below == ends_with(dest@, "/"@),
            mappings@.len() == i,
            forall|k: int|
                0 <= k < i ==> (#[trigger] mappings@[k]).local_path@ == files@[k].local_path@
                    && mappings@[k].guest_dest@ == if ends_with(dest@, "/"@) {
                    joined_path(dest@, files@[k].relative_path@)
                } else {
                    dest@
                },
        decreases files@.len() - i,
    {
        let guest_dest = if below {
            join_path(dest.as_str(), files[i].relative_path.as_str())
        } else {
            dest.clone()
        };
        mappings.push(FileMapping { local_path: files[i].local_path.clone(), guest_dest });
        i += 1;
    }
    Ok(mappings)
}

// ---------------------------------------------------------------------------
// One file
// ---------------------------------------------------------------------------

/// How a file is placed in the guest.
#[derive(Debug, PartialEq, Eq)]
pub struct InstallOpts {
    pub mode: Option<String>,
    pub owner: Option<String>,
    pub group: Option<String>,
    pub overwrite: Option<bool>,
    pub parents: Option<bool>,
}

/// `value`, or `default` if there is none.
pub open spec fn text_or(value: Option<String>, default: Seq<char>) -> Seq<char> {
    match value {
        Some(s) => s@,
        None => default,
    }
}

fn value_or<'a>(value: &'a Option<String>, default: &'a str) -> (r: &'a str)
    ensures
        r@ == text_or(*value, default@),
{
    match value {
        Some(s) => s.as_str(),
        None => default,
    }
}

impl InstallOpts {
    /// The options of a file entry.
    pub fn of(file: &FileEntry) -> (r: InstallOpts)
        ensures
            opt_text(r.mode) == opt_text(file.mode),
            opt_text(r.owner) == opt_text(file.owner),
            opt_text(r.group) == opt_text(file.group),
            r.overwrite == file.overwrite,
            r.parents == file.parents,
    {
        InstallOpts {
            mode: cloned_text(&file.mode),
            owner: cloned_text(&file.owner),
            group: cloned_text(&file.group),
            overwrite: file.overwrite,
            parents: file.parents,
        }
    }

    /// Whether a file that is already there may be replaced: it may unless the options
    /// say otherwise.
    pub open spec fn replaces(&self) -> bool {
        self.overwrite != Some(false)
    }

    /// The command that places the file.
    pub open spec fn command(&self, remote_tmp: Seq<char>, dest: Seq<char>) -> Seq<char> {
        (if self.parents == Some(false) {
            "sudo install -m "@
        } else {
            "sudo install -D -m "@
        }) + text_or(self.mode, "0644"@) + " -o "@ + quoted(text_or(self.owner, "root"@)) + " -g "@
            + quoted(text_or(self.group, "root"@)) + " "@ + quoted(remote_tmp) + " "@ + quoted(dest)
    }
}

/// A copy of an optional text.
pub fn cloned_text(value: &Option<String>) -> (r: Option<String>)
    ensures
        opt_text(r) == opt_text(*value),
{
    match value {
        Some(s) => Some(s.clone()),
        None => None,
    }
}

fn install_cmd(opts: &InstallOpts, remote_tmp: &str, dest: &str) -> (r: String)
    ensures
        r@ == opts.command(remote_tmp@, dest@),
{
    let owner = shell_single_quote(value_or(&opts.owner, "root"));
    let group = shell_single_quote(value_or(&opts.group, "root"));
    let from = shell_single_quote(remote_tmp);
    let to = shell_single_quote(dest);
    let parents = match opts.parents {
        Some(b) => b,
        None => true,
    };
    let lead = if parents {
        "sudo install -D -m "
    } else {
        "sudo install -m "
    };
    let front = cat6(
        lead,
        value_or(&opts.mode, "0644"),
        " -o ",
        owner.as_str(),
        " -g ",
        group.as_str(),
    );
    cat5(front.as_str(), " ", from.as_str(), " ", to.as_str())
}

/// How far the placing of a file has come.
#[derive(Clone, Copy, Debug, PartialEq, Eq, Structural)]
pub enum InstallPhase {
    Start,
    /// The file is copied to a temporary place in the guest.
    Copying,
    /// The destination is looked at.
    Checking,
    /// The temporary file is removed because the destination is taken.
    Refusing,
    /// The file is moved to its destination.
    Installing,
    /// The temporary file is removed.
    Removing,
    Finished,
}

/// Seconds that looking at a destination, or moving a file there, may take.
pub const INSTALL_SECS: u64 = 30;

/// The placing of one file.
#[derive(Debug, PartialEq, Eq)]
pub struct GuestInstall {
    /// What the file is, for messages: `file` or `upload`.
    pub what: String,
    pub dest: String,
    pub remote_tmp: String,
    pub opts: InstallOpts,
    pub phase: InstallPhase,
    /// Why the file could not be moved to its destination.
    pub failure: Option<PlanError>,
}

/// What to do next.
#[derive(Debug, PartialEq, Eq)]
pub enum InstallAction {
    /// Copy the file to that place in the guest, tried that often.
    Copy { remote_tmp: String, retries: Retries },
    /// Run that command in the guest, that often and within that many seconds.
    Run { command: String, retries: Retries, secs: u64 },
    Done(Result<(), PlanError>),
}

/// The text of an optional error.
pub open spec fn opt_error(e: Option<PlanError>) -> Option<Seq<char>> {
    match e {
        Some(e) => Some(e@),
        None => None,
    }
}

/// Whether `action` is to run `command` once, within `secs` seconds.
pub open spec fn runs(action: InstallAction, command: Seq<char>, secs: u64) -> bool {
    match action {
        InstallAction::Run { command: c, retries, secs: s } => c@ == command && retries
            == one_try() && s == secs,
        _ => false,
    }
}

/// Whether `action` is to end, with that error if there is one.
pub open spec fn ends(action: InstallAction, error: Option<Seq<char>>) -> bool {
    match action {
        InstallAction::Done(r) => outcome(r, error),
        _ => false,
    }
}

impl GuestInstall {
    /// Placing that has not begun. `temp_label` and `suffix` make up the name of the
    /// temporary file.
    pub fn new(what: &str, dest: &str, opts: InstallOpts, temp_label: &str, suffix: &str) -> (r:
        GuestInstall)
        ensures
            r.what@ == what@,
            r.dest@ == dest@,
            r.remote_tmp@ == "/tmp/botforge-upload-"@ + temp_label@ + "-"@ + suffix@,
            r.opts == opts,
            r.phase == InstallPhase::Start,
            r.failure is None,
    {
        GuestInstall {
            what: what.to_owned(),
            dest: dest.to_owned(),
            remote_tmp: cat4("/tmp/botforge-upload-", temp_label, "-", suffix),
            opts,
            phase: InstallPhase::Start,
            failure: None,
        }
    }

    /// The phase that follows, when the last action ended well or not.
    pub open spec fn next_phase(self, ok: bool) -> InstallPhase {
        match self.phase {
            InstallPhase::Start => InstallPhase::Copying,
            InstallPhase::Copying => if !ok {
                InstallPhase::Finished
            } else if self.opts.replaces() {
                InstallPhase::Installing
            } else {
                InstallPhase::Checking
            },
            InstallPhase::Checking => if ok {
                InstallPhase::Installing
            } else {
                InstallPhase::Refusing
            },
            InstallPhase::Installing => InstallPhase::Removing,
            InstallPhase::Refusing => InstallPhase::Finished,
            InstallPhase::Removing => InstallPhase::Finished,
            InstallPhase::Finished => InstallPhase::Finished,
        }
    }

    /// The command that removes the temporary file.
    pub open spec fn removal(self) -> Seq<char> {
        "rm -f "@ + quoted(self.remote_tmp@)
    }

    /// How the placing ends, in the phase that it is in, when the last action ended as
    /// `last` says.
    pub open spec fn ending(self, last: Result<(), PlanError>) -> Option<Seq<char>> {
        match self.phase {
            InstallPhase::Copying => match last {
                Err(e) => Some(
                    in_context(
                        "failed to scp file to guest for install to '"@ + self.dest@ + "'"@,
                        e@,
                    ),
                ),
                Ok(()) => None,
            },
            InstallPhase::Refusing => Some(
                self.what@ + " dest '"@ + self.dest@ + "' already exists and overwrite is false"@,
            ),
            _ => opt_error(self.failure),
        }
    }
}

/// Places a file in the guest: takes how the last action ended and says what to do next.
/// The file is copied to a temporary place, moved from there with its mode, owner and
/// group, and the temporary file is removed.
pub fn install_file_to_guest(state: &mut GuestInstall, last: &Result<(), PlanError>) -> (action:
    InstallAction)
    ensures
        final(state).phase == old(state).next_phase(*last is Ok),
        final(state).what == old(state).what,
        final(state).dest == old(state).dest,
        final(state).remote_tmp == old(state).remote_tmp,
        final(state).opts == old(state).opts,
        opt_error(final(state).failure) == match (old(state).phase, *last) {
            (InstallPhase::Installing, Err(e)) => Some(
                in_context("failed to install file to '"@ + old(state).dest@ + "' in guest"@, e@),
            ),
            _ => opt_error(old(state).failure),
        },
        match final(state).phase {
            InstallPhase::Copying => action matches InstallAction::Copy { remote_tmp, retries }
                && remote_tmp@ == old(state).remote_tmp@ && retries == transport_tries(),
            InstallPhase::Checking => runs(
                action,
                "sudo test ! -e "@ + quoted(old(state).dest@),
                INSTALL_SECS,
            ),
            InstallPhase::Installing => runs(
                action,
                old(state).opts.command(old(state).remote_tmp@, old(state).dest@),
                INSTALL_SECS,
            ),
            InstallPhase::Refusing | InstallPhase::Removing => runs(
                action,
                old(state).removal(),
                SMALL_COMMAND_SECS,
            ),
            InstallPhase::Finished => ends(action, old(state).ending(*last)),
            InstallPhase::Start => false,
        },
        old(state).phase == InstallPhase::Installing ==> (final(state).failure is Some <==> *last
            is Err || old(state).failure is Some),
        old(state).phase != InstallPhase::Installing ==> (final(state).failure is Some
            <==> old(state).failure is Some),
        (action matches InstallAction::Done(r) && r is Ok) <==> old(state).failure is None && (
        old(state).phase == InstallPhase::Removing || old(state).phase == InstallPhase::Finished),
{
    match state.phase {
        InstallPhase::Start => {
            state.phase = InstallPhase::Copying;
            InstallAction::Copy {
                remote_tmp: state.remote_tmp.clone(),
                retries: Retries::often(),
            }
        },
        InstallPhase::Copying => {
            if let Err(e) = last {
                state.phase = InstallPhase::Finished;
                let context = cat3(
                    "failed to scp file to guest for install to '",
                    state.dest.as_str(),
                    "'",
                );
                return InstallAction::Done(Err(e.within(context.as_str())));
            }
            let overwrite = match state.opts.overwrite {
                Some(b) => b,
                None => true,
            };
            if overwrite {
                start_install(state)
            } else {
                state.phase = InstallPhase::Checking;
                let dest = shell_single_quote(state.dest.as_str());
                InstallAction::Run {
                    command: cat2("sudo test ! -e ", dest.as_str()),
                    retries: Retries::once(),
                    secs: INSTALL_SECS,
                }
            }
        },
        InstallPhase::Checking => {
            if last.is_ok() {
                return start_install(state);
            }
            state.phase = InstallPhase::Refusing;
            remove_temporary(state)
        },
        InstallPhase::Installing => {
            if let Err(e) = last {
                let context = cat3(
                    "failed to install file to '",
                    state.dest.as_str(),
                    "' in guest",
                );
                state.failure = Some(e.within(context.as_str()));
            }
            state.phase = InstallPhase::Removing;
            remove_temporary(state)
        },
        InstallPhase::Refusing => {
            state.phase = InstallPhase::Finished;
            InstallAction::Done(
                Err(
                    PlanError::new(
                        cat4(
                            state.what.as_str(),
                            " dest '",
                            state.dest.as_str(),
                            "' already exists and overwrite is false",
                        ),
                    ),
                ),
            )
        },
        InstallPhase::Removing | InstallPhase::Finished => {
            state.phase = InstallPhase::Finished;
            match &state.failure {
                Some(e) => InstallAction::Done(Err(e.clone())),
                None => InstallAction::Done(Ok(())),
            }
        },
    }
}

fn start_install(state: &mut GuestInstall) -> (action: InstallAction)
    ensures
        *final(state) == (GuestInstall { phase: InstallPhase::Installing, ..*old(state) }),
        runs(action, old(state).opts.command(old(state).remote_tmp@, old(state).dest@), INSTALL_SECS),
{
    state.phase = InstallPhase::Installing;
    InstallAction::Run {
        command: install_cmd(&state.opts, state.remote_tmp.as_str(), state.dest.as_str()),
        retries: Retries::once(),
        secs: INSTALL_SECS,
    }
}

fn remove_temporary(state: &GuestInstall) -> (action: InstallAction)
    ensures
        runs(action, state.removal(), SMALL_COMMAND_SECS),
{
    let path = shell_single_quote(state.remote_tmp.as_str());
    InstallAction::Run {
        command: cat2("rm -f ", path.as_str()),
        retries: Retries::once(),
        secs: SMALL_COMMAND_SECS,
    }
}

/// The phase that placing has reached after a row of actions that ended well or not.
pub open spec fn reached(state: GuestInstall, results: Seq<bool>) -> GuestInstall
    decreases results.len(),
{
    if results.len() == 0 {
        state
    } else {
        let before = reached(state, results.drop_last());
        GuestInstall { phase: before.next_phase(results.last()), ..before }
    }
}

/// The temporary file never stays behind: once it was copied, the placing ends only
/// after the phase in which it is removed.
pub proof fn temporary_files_are_removed(start: GuestInstall, results: Seq<bool>)
    requires
        start.phase == InstallPhase::Start,
        reached(start, results).phase == InstallPhase::Finished,
    ensures
        exists|n: int|
            0 < n < results.len() && {
                let phase = (#[trigger] reached(start, results.take(n))).phase;
                ||| phase == InstallPhase::Refusing
                ||| phase == InstallPhase::Removing
                ||| (phase == InstallPhase::Copying && !results[n])
            },
    decreases results.len(),
{
    let front = results.drop_last();
    let before = reached(start, front);
    if before.phase == InstallPhase::Finished {
        temporary_files_are_removed(start, front);
        let n = choose|n: int|
            0 < n < front.len() && {
                let phase = (#[trigger] reached(start, front.take(n))).phase;
                ||| phase == InstallPhase::Refusing
                ||| phase == InstallPhase::Removing
                ||| (phase == InstallPhase::Copying && !front[n])
            };
        assert(front.take(n) =~= results.take(n));
        assert(front[n] == results[n]);
        assert(0 < n < results.len());
    } else {
        let n = front.len() as int;
        assert(front =~= results.take(n));
        if n == 0 {
            assert(before == start);
            assert(false);
        }
        assert(results[n] == results.last());
        assert(reached(start, results.take(n)).phase == before.phase);
    }
}

// ---------------------------------------------------------------------------
// Many files
// ---------------------------------------------------------------------------

/// The placing of a file of an entry: `entry` counts the entries, `index` the files of
/// this one.
pub fn stage_file(
    file: &FileEntry,
    mapping: &FileMapping,
    entry: usize,
    index: usize,
    suffix: &str,
) -> (r: GuestInstall)
    ensures
        r.what@ == "file"@,
        r.dest@ == mapping.guest_dest@,
        r.remote_tmp@ == "/tmp/botforge-upload-"@ + (decimal(entry as nat) + "-"@ + decimal(
            index as nat,
        )) + "-"@ + suffix@,
        opt_text(r.opts.mode) == opt_text(file.mode),
        opt_text(r.opts.owner) == opt_text(file.owner),
        opt_text(r.opts.group) == opt_text(file.group),
        r.opts.overwrite == file.overwrite,
        r.opts.parents == file.parents,
        r.phase == InstallPhase::Start,
        r.failure is None,
{
    let label = temp_label(entry, index);
    GuestInstall::new(
        "file",
        mapping.guest_dest.as_str(),
        InstallOpts::of(file),
        label.as_str(),
        suffix,
    )
}

/// What tells the temporary files of one run apart.
pub fn temp_label(entry: usize, index: usize) -> (r: String)
    ensures
        r@ == decimal(entry as nat) + "-"@ + decimal(index as nat),
{
    let a = decimal_u64(entry as u64);
    let b = decimal_u64(index as u64);
    cat3(a.as_str(), "-", b.as_str())
}

/// The error of an entry, when one of its files could not be placed.
pub fn staging_error(entry: &str, src: &str, mapping: &FileMapping, error: &PlanError) -> (e:
    PlanError)
    ensures
        e@ == staging_error_text(
            entry@,
            src@,
            mapping.local_path@,
            mapping.guest_dest@,
            error@,
        ),
{
    let front = cat4(entry, " '", src, "' failed while staging '");
    let context = cat5(
        front.as_str(),
        mapping.local_path.as_str(),
        "' to '",
        mapping.guest_dest.as_str(),
        "'",
    );
    error.within(context.as_str())
}

/// The line that tells that a file was placed. Entries are counted from one.
pub fn staged_line(what: &str, entry: usize, mapping: &FileMapping) -> (r: String)
    requires
        entry < usize::MAX,
    ensures
        r@ == staged_text(what@, entry as int, mapping.local_path@, mapping.guest_dest@),
{
    let n = decimal_u64((entry + 1) as u64);
    cat7(
        what,
        " ",
        n.as_str(),
        " staged ",
        mapping.local_path.as_str(),
        " -> ",
        mapping.guest_dest.as_str(),
    )
}

/// How far the placing of the files of a plan has come.
#[derive(Clone, Copy, Debug, PartialEq, Eq, Structural)]
pub enum StagingMode {
    Start,
    /// The source of an entry is resolved.
    Resolving,
    /// A file of an entry is placed.
    Placing,
    Finished,
}

/// The placing of the files of a plan.
#[derive(Debug, PartialEq, Eq)]
pub struct FileStaging {
    pub files: Vec<FileEntry>,
    /// The entry whose files are placed.
    pub entry: usize,
    /// Its files.
    pub mappings: Vec<FileMapping>,
    /// The file that is placed.
    pub index: usize,
    pub mode: StagingMode,
}

/// What the last action gave.
#[derive(Debug, PartialEq, Eq)]
pub enum StagingEvent {
    Begun,
    /// What the source of the entry resolved to.
    Resolved(Result<Vec<ResolvedFile>, PlanError>),
    /// How the placing of the file ended.
    Placed(Result<(), PlanError>),
}

/// What to do next.
#[derive(Debug, PartialEq, Eq)]
pub enum StagingAction {
    /// Resolve the source of that entry.
    Resolve { entry: usize },
    /// Place that file of that entry.
    Place { entry: usize, index: usize },
    Done(Result<(), PlanError>),
}

/// What to do next, and a line to show before it.
#[derive(Debug, PartialEq, Eq)]
pub struct StagingOutput {
    pub line: Option<String>,
    pub action: StagingAction,
}

/// Whether `action` is to end, with that error if there is one.
pub open spec fn staging_ends(action: StagingAction, error: Option<Seq<char>>) -> bool {
    match action {
        StagingAction::Done(r) => outcome(r, error),
        _ => false,
    }
}

/// The text of the error of an entry, when one of its files could not be placed.
pub open spec fn staging_error_text(
    entry: Seq<char>,
    src: Seq<char>,
    local_path: Seq<char>,
    guest_dest: Seq<char>,
    error: Seq<char>,
) -> Seq<char> {
    in_context(
        entry + " '"@ + src + "' failed while staging '"@ + local_path + "' to '"@ + guest_dest
            + "'"@,
        error,
    )
}

/// The text that tells that a file was placed.
pub open spec fn staged_text(
    what: Seq<char>,
    entry: int,
    local_path: Seq<char>,
    guest_dest: Seq<char>,
) -> Seq<char> {
    what + " "@ + decimal((entry + 1) as nat) + " staged "@ + local_path + " -> "@ + guest_dest
}

impl FileStaging {
    /// Placing that has not begun.
    pub fn new(files: Vec<FileEntry>) -> (r: FileStaging)
        ensures
            r.wf(),
            r.files == files,
            r.mode == StagingMode::Start,
    {
        FileStaging {
            files,
            entry: 0,
            mappings: Vec::new(),
            index: 0,
            mode: StagingMode::Start,
        }
    }

    /// What holds in every state: the entry and the file that are worked on exist.
    pub open spec fn wf(self) -> bool {
        match self.mode {
            StagingMode::Start => true,
            StagingMode::Resolving => self.entry < self.files@.len(),
            StagingMode::Placing => self.entry < self.files@.len() && self.index
                < self.mappings@.len(),
            StagingMode::Finished => true,
        }
    }

    /// Whether the event answers the last action.
    pub open spec fn awaits(self, event: StagingEvent) -> bool {
        match self.mode {
            StagingMode::Start => event is Begun,
            StagingMode::Resolving => event is Resolved,
            StagingMode::Placing => event is Placed,
            StagingMode::Finished => false,
        }
    }

    /// Whether work goes on with an entry: its source is resolved, and past the last entry
    /// all is done.
    pub open spec fn turns_to(self, entry: int, action: StagingAction) -> bool {
        &&& self.entry == entry
        &&& if entry < self.files@.len() {
            self.mode == StagingMode::Resolving && action == StagingAction::Resolve {
                entry: self.entry,
            }
        } else {
            self.mode == StagingMode::Finished && staging_ends(action, None)
        }
    }

    /// Whether work ends with an error.
    pub open spec fn fails_with(self, error: Seq<char>, action: StagingAction) -> bool {
        self.mode == StagingMode::Finished && staging_ends(action, Some(error))
    }
}

/// Whether an event takes the placing from one state to the next, with that line shown and
/// that to do. The entries come in their order, and so do the files of each. The first
/// source that does not resolve and the first file that cannot be placed end it.
pub open spec fn staging_moves(
    pre: FileStaging,
    event: StagingEvent,
    post: FileStaging,
    line: Option<Seq<char>>,
    action: StagingAction,
) -> bool {
    let file = pre.files@[pre.entry as int];
    let mapping = pre.mappings@[pre.index as int];
    &&& post.files == pre.files
    &&& match event {
        StagingEvent::Begun => line is None && post.turns_to(0, action),
        StagingEvent::Resolved(resolved) => line is None && match mapping_error(file, resolved) {
            Some(e) => post.fails_with(e, action),
            None => {
                let found = resolved->Ok_0@;
                &&& places(post.mappings@, found, trim(file.dest@))
                &&& if found.len() > 0 {
                    &&& post.mode == StagingMode::Placing
                    &&& post.entry == pre.entry
                    &&& post.index == 0
                    &&& action == StagingAction::Place { entry: post.entry, index: 0 }
                } else {
                    post.turns_to(pre.entry + 1, action)
                }
            },
        },
        StagingEvent::Placed(Err(e)) => line is None && post.fails_with(
            staging_error_text(
                "file entry"@,
                file.src@,
                mapping.local_path@,
                mapping.guest_dest@,
                e@,
            ),
            action,
        ),
        StagingEvent::Placed(Ok(_)) => {
            &&& line == Some(
                staged_text(
                    "file"@,
                    pre.entry as int,
                    mapping.local_path@,
                    mapping.guest_dest@,
                ),
            )
            &&& post.mappings == pre.mappings
            &&& if pre.index + 1 < pre.mappings@.len() {
                &&& post.mode == StagingMode::Placing
                &&& post.entry == pre.entry
                &&& post.index == pre.index + 1
                &&& action == StagingAction::Place { entry: post.entry, index: post.index }
            } else {
                post.turns_to(pre.entry + 1, action)
            }
        },
    }
}

/// Turns to an entry.
fn turn_to_file(state: &mut FileStaging, entry: usize) -> (action: StagingAction)
    requires
        entry <= old(state).files@.len(),
    ensures
        final(state).files == old(state).files,
        final(state).mappings == old(state).mappings,
        final(state).wf(),
        final(state).turns_to(entry as int, action),
{
    state.entry = entry;
    if entry < state.files.len() {
        state.mode = StagingMode::Resolving;
        StagingAction::Resolve { entry }
    } else {
        state.mode = StagingMode::Finished;
        StagingAction::Done(Ok(()))
    }
}

/// Places the files of a plan: takes in what the last action gave and tells what to do
/// next.
pub fn stage_files(state: &mut FileStaging, event: StagingEvent) -> (out: StagingOutput)
    requires
        old(state).wf(),
        old(state).awaits(event),
    ensures
        final(state).wf(),
        staging_moves(
            *old(state),
            event,
            *final(state),
            opt_text(out.line),
            out.action,
        ),
{
    match event {
        StagingEvent::Begun => {
            let action = turn_to_file(state, 0);
            StagingOutput { line: None, action }
        },
        StagingEvent::Resolved(resolved) => {
            let entry: usize = state.entry;
            assert(state.files.len() <= usize::MAX);
            match resolve_file_mappings(&state.files[entry], &resolved) {
                Err(e) => {
                    state.mode = StagingMode::Finished;
                    StagingOutput { line: None, action: StagingAction::Done(Err(e)) }
                },
                Ok(mappings) => {
                    let found: usize = mappings.len();
                    state.mappings = mappings;
                    if found > 0 {
                        state.mode = StagingMode::Placing;
                        state.index = 0;
                        StagingOutput { line: None, action: StagingAction::Place { entry, index: 0 } }
                    } else {
                        let action = turn_to_file(state, entry + 1);
                        StagingOutput { line: None, action }
                    }
                },
            }
        },
        StagingEvent::Placed(Err(e)) => {
            let error = staging_error(
                "file entry",
                state.files[state.entry].src.as_str(),
                &state.mappings[state.index],
                &e,
            );
            state.mode = StagingMode::Finished;
            StagingOutput { line: None, action: StagingAction::Done(Err(error)) }
        },
        StagingEvent::Placed(Ok(_)) => {
            let entry: usize = state.entry;
            assert(state.files.len() <= usize::MAX && state.mappings.len() <= usize::MAX);
            let line = staged_line("file", entry, &state.mappings[state.index]);
            let next: usize = state.index + 1;
            if next < state.mappings.len() {
                state.index = next;
                StagingOutput {
                    line: Some(line),
                    action: StagingAction::Place { entry, index: next },
                }
            } else {
                let action = turn_to_file(state, entry + 1);
                StagingOutput { line: Some(line), action }
            }
        },
    }
}

/// Success is told only after the last file of the last entry.
pub proof fn no_file_is_skipped(
    pre: FileStaging,
    event: StagingEvent,
    post: FileStaging,
    line: Option<Seq<char>>,
    action: StagingAction,
)
    requires
        pre.wf(),
        pre.awaits(event),
        staging_moves(pre, event, post, line, action),
        action matches StagingAction::Done(r) && r is Ok,
    ensures
        post.entry == post.files@.len(),
        post.files@.len() > 0 ==> {
            &&& pre.entry + 1 == pre.files@.len()
            &&& match event {
                StagingEvent::Begun => false,
                StagingEvent::Resolved(resolved) => resolved->Ok_0@.len() == 0,
                StagingEvent::Placed(_) => pre.index + 1 == pre.mappings@.len(),
            }
        },
{
}

} // verus!
