//! What a plan's files, assertions and ports must satisfy.

use vstd::prelude::*;
use vstd::string::*;

use crate::document::{AssertBlock, AssertFile, AssertGroup, AssertPackage, AssertUser};
use crate::error::{PlanError, in_context, outcome};
use crate::globbing::{has_wildcard, is_glob_pattern};
use crate::reference::{Reference, reference_of};
use crate::strings::{
    cat2, cat3, cat5, char_is_space, decimal_u64, has_prefix, has_suffix, is_blank, to_chars,
    trimmed,
};
use crate::text::{decimal, ends_with, is_space, starts_with, trim};

verus! {

/// A file that a plan places on the guest.
#[derive(Debug, PartialEq, Eq)]
pub struct FileEntry {
    pub src: String,
    pub dest: String,
    pub mode: Option<String>,
    pub owner: Option<String>,
    pub group: Option<String>,
    pub overwrite: Option<bool>,
    pub parents: Option<bool>,
}

impl Default for FileEntry {
    fn default() -> (r: FileEntry)
        ensures
            r.src@ == Seq::<char>::empty(),
            r.dest@ == Seq::<char>::empty(),
            r.mode is None,
            r.owner is None,
            r.group is None,
            r.overwrite is None,
            r.parents is None,
    {
        FileEntry {
            src: String::new(),
            dest: String::new(),
            mode: None,
            owner: None,
            group: None,
            overwrite: None,
            parents: None,
        }
    }
}

/// The first error of two checks that are made one after the other.
pub open spec fn first_error(a: Option<Seq<char>>, b: Option<Seq<char>>) -> Option<Seq<char>> {
    match a {
        Some(e) => Some(e),
        None => b,
    }
}

/// An error about a file entry.
pub open spec fn entry_error(kind: Seq<char>, src: Seq<char>, what: Seq<char>) -> Seq<char> {
    kind + " files entry '"@ + src + "': "@ + what
}

fn entry_failure(kind: &str, src: &str, what: &str) -> (e: PlanError)
    ensures
        e@ == entry_error(kind@, src@, what@),
{
    PlanError::new(cat5(kind, " files entry '", src, "': ", what))
}

/// Whether a character is an octal digit.
pub open spec fn is_octal(c: char) -> bool {
    '0' <= c <= '7'
}

/// Whether `mode` is three or four octal digits.
pub open spec fn valid_mode(mode: Seq<char>) -> bool {
    3 <= mode.len() <= 4 && forall|i: int| 0 <= i < mode.len() ==> is_octal(#[trigger] mode[i])
}

/// Why `mode` is refused.
pub open spec fn mode_error(mode: Seq<char>, src: Seq<char>, kind: Seq<char>) -> Option<
    Seq<char>,
> {
    if valid_mode(mode) {
        None
    } else {
        Some(entry_error(kind, src, "`mode` must be 3–4 octal digits, got '"@ + mode + "'"@))
    }
}

/// Accepts a mode of three or four octal digits.
pub fn validate_mode_string(mode: &str, src: &str, kind: &str) -> (r: Result<(), PlanError>)
    ensures
        outcome(r, mode_error(mode@, src@, kind@)),
{
    let v = to_chars(mode);
    let mut octal = true;
    let mut i: usize = 0;
    while i < v.len()
        invariant
            i <= v@.len(),
            octal == (forall|j: int| 0 <= j < i ==> is_octal(#[trigger] v@[j])),
        decreases v@.len() - i,
    {
        if !('0' <= v[i] && v[i] <= '7') {
            octal = false;
        }
        i += 1;
    }
    if v.len() < 3 || v.len() > 4 || !octal {
        let what = cat3("`mode` must be 3–4 octal digits, got '", mode, "'");
        return Err(entry_failure(kind, src, what.as_str()));
    }
    Ok(())
}

/// Whether a character may not stand in the name of an owner or a group.
pub open spec fn bad_in_name(c: char) -> bool {
    is_space(c) || c == '/' || c == '\'' || c == '"' || c == '`' || c == '$' || c == ';' || c == '&'
        || c == '|' || c == '<' || c == '>' || c == '(' || c == ')' || c == '\\'
}

/// The first character that may not stand in the name of an owner or a group.
pub open spec fn first_bad(s: Seq<char>) -> Option<char>
    decreases s.len(),
{
    if s.len() == 0 {
        None
    } else if bad_in_name(s[0]) {
        Some(s[0])
    } else {
        first_bad(s.skip(1))
    }
}

/// Why the name of an owner or a group is refused.
pub open spec fn owner_error(
    value: Seq<char>,
    field: Seq<char>,
    src: Seq<char>,
    kind: Seq<char>,
) -> Option<Seq<char>> {
    if trim(value).len() == 0 {
        Some(entry_error(kind, src, "`"@ + field + "` must be non-empty"@))
    } else {
        match first_bad(value) {
            Some(c) => Some(
                entry_error(
                    kind,
                    src,
                    "`"@ + field + "` contains invalid character '"@ + seq![c]
                        + "'; must not contain whitespace, '/', or shell metacharacters"@,
                ),
            ),
            None => None,
        }
    }
}

/// Accepts the name of an owner or a group: not empty, and without white space,
/// slashes and shell metacharacters.
pub fn validate_owner_group_string(value: &str, field: &str, src: &str, kind: &str) -> (r: Result<
    (),
    PlanError,
>)
    ensures
        outcome(r, owner_error(value@, field@, src@, kind@)),
{
    if is_blank(value) {
        let what = cat3("`", field, "` must be non-empty");
        return Err(entry_failure(kind, src, what.as_str()));
    }
    let v = to_chars(value);
    let mut i: usize = 0;
    assert(v@.skip(0) =~= v@);
    while i < v.len()
        invariant
            i <= v@.len(),
            v@ == value@,
            trim(value@).len() > 0,
            first_bad(value@) == first_bad(v@.skip(i as int)),
        decreases v@.len() - i,
    {
        let c = v[i];
        assert(v@.skip(i as int)[0] == c);
        assert(v@.skip(i as int).skip(1) =~= v@.skip(i + 1));
        if char_is_space(c) || c == '/' || c == '\'' || c == '"' || c == '`' || c == '$' || c
            == ';' || c == '&' || c == '|' || c == '<' || c == '>' || c == '(' || c == ')' || c
            == '\\' {
            let mut shown = String::new();
            shown.push(c);
            assert(shown@ =~= seq![c]);
            let what = cat5(
                "`",
                field,
                "` contains invalid character '",
                shown.as_str(),
                "'; must not contain whitespace, '/', or shell metacharacters",
            );
            return Err(entry_failure(kind, src, what.as_str()));
        }
        i += 1;
    }
    assert(v@.skip(i as int).len() == 0);
    Ok(())
}

/// Whether a character has a meaning of its own to a shell.
pub open spec fn is_shell_metacharacter(c: char) -> bool {
    c == '|' || c == '&' || c == ';' || c == '<' || c == '>' || c == '(' || c == ')' || c == '$'
        || c == '`' || c == '\\' || c == '"' || c == '\''
}

/// Whether a character is a letter, a digit, or one of `_`, `-` and `.`.
pub open spec fn is_usual_in_name(c: char) -> bool {
    'a' <= c <= 'z' || 'A' <= c <= 'Z' || '0' <= c <= '9' || c == '_' || c == '-' || c == '.'
}

proof fn lemma_first_bad(s: Seq<char>)
    ensures
        first_bad(s) is None <==> forall|i: int|
            0 <= i < s.len() ==> !bad_in_name(#[trigger] s[i]),
    decreases s.len(),
{
    if s.len() > 0 {
        let rest = s.skip(1);
        lemma_first_bad(rest);
        if forall|i: int| 0 <= i < rest.len() ==> !bad_in_name(#[trigger] rest[i]) {
            assert forall|i: int| 0 <= i < s.len() && !bad_in_name(s[0]) implies !bad_in_name(
                #[trigger] s[i],
            ) by {
                if i > 0 {
                    assert(s[i] == rest[i - 1]);
                }
            }
        } else {
            let i = choose|i: int| 0 <= i < rest.len() && bad_in_name(#[trigger] rest[i]);
            assert(bad_in_name(s[i + 1]));
        }
    }
}

/// An owner or group that is accepted is not empty and holds no white space, no slash and
/// no character that means something to a shell; and every name of letters, digits, `_`,
/// `-` and `.` is accepted.
pub proof fn accepted_owners_are_plain(
    value: Seq<char>,
    field: Seq<char>,
    src: Seq<char>,
    kind: Seq<char>,
)
    ensures
        owner_error(value, field, src, kind) is None ==> value.len() > 0 && forall|i: int|
            0 <= i < value.len() ==> !is_space(#[trigger] value[i]) && value[i] != '/'
                && !is_shell_metacharacter(value[i]),
        value.len() > 0 && (forall|i: int|
            0 <= i < value.len() ==> is_usual_in_name(#[trigger] value[i])) ==> owner_error(
            value,
            field,
            src,
            kind,
        ) is None,
{
    lemma_first_bad(value);
    if owner_error(value, field, src, kind) is None {
        if value.len() == 0 {
            assert(trim(value).len() == 0);
        }
        assert forall|i: int| 0 <= i < value.len() implies !is_space(#[trigger] value[i])
            && value[i] != '/' && !is_shell_metacharacter(value[i]) by {
            assert(!bad_in_name(value[i]));
        }
    }
    if value.len() > 0 && (forall|i: int|
        0 <= i < value.len() ==> is_usual_in_name(#[trigger] value[i])) {
        assert(is_usual_in_name(value[0]) && is_usual_in_name(value.last()));
        assert(trim(value) == value);
    }
}

/// Why the owner or group of an entry is refused, if there is one.
pub open spec fn opt_owner_error(
    value: Option<String>,
    field: Seq<char>,
    src: Seq<char>,
    kind: Seq<char>,
) -> Option<Seq<char>> {
    match value {
        Some(v) => owner_error(v@, field, src, kind),
        None => None,
    }
}

/// Why the attributes of an entry are refused.
pub open spec fn attributes_error(
    mode: Option<String>,
    owner: Option<String>,
    group: Option<String>,
    src: Seq<char>,
    kind: Seq<char>,
) -> Option<Seq<char>> {
    first_error(
        first_error(
            match mode {
                Some(m) => mode_error(m@, src, kind),
                None => None,
            },
            opt_owner_error(owner, "owner"@, src, kind),
        ),
        opt_owner_error(group, "group"@, src, kind),
    )
}

fn check_attributes(
    mode: &Option<String>,
    owner: &Option<String>,
    group: &Option<String>,
    src: &str,
    kind: &str,
) -> (r: Result<(), PlanError>)
    ensures
        outcome(r, attributes_error(*mode, *owner, *group, src@, kind@)),
{
    if let Some(mode) = mode {
        let r = validate_mode_string(mode.as_str(), src, kind);
        if r.is_err() {
            return r;
        }
    }
    if let Some(owner) = owner {
        let r = validate_owner_group_string(owner.as_str(), "owner", src, kind);
        if r.is_err() {
            return r;
        }
    }
    if let Some(group) = group {
        let r = validate_owner_group_string(group.as_str(), "group", src, kind);
        if r.is_err() {
            return r;
        }
    }
    Ok(())
}

/// Whether `src` holds a character that is special in a pattern.
pub fn src_has_glob_metacharacters(src: &str) -> (r: bool)
    ensures
        r == has_wildcard(src@),
{
    is_glob_pattern(src)
}

/// Why a file entry is refused.
pub open spec fn file_error(kind: Seq<char>, file: FileEntry) -> Option<Seq<char>> {
    let src = trim(file.src@);
    let dest = trim(file.dest@);
    if src.len() == 0 {
        Some(kind + " files entry: `src` is required and must be non-empty"@)
    } else if !starts_with(src, "@"@) {
        Some(
            entry_error(
                kind,
                src,
                "`src` must be an `@`-reference (e.g. `@foo`, `@://<glob>`, `@artifact://<glob>`); bare paths are not supported"@,
            ),
        )
    } else if reference_of(src) is Err {
        Some(
            in_context(
                entry_error(kind, src, "invalid `@`-reference in `src`"@),
                reference_of(src)->Err_0,
            ),
        )
    } else if dest.len() == 0 {
        Some(
            entry_error(
                kind,
                src,
                "`dest` is required and must be a non-empty absolute path"@,
            ),
        )
    } else if !starts_with(dest, "/"@) {
        Some(
            entry_error(
                kind,
                src,
                "`dest` must be an absolute guest path (got '"@ + dest + "')"@,
            ),
        )
    } else if has_wildcard(src) && !ends_with(dest, "/"@) {
        Some(
            entry_error(
                kind,
                src,
                "glob `src` requires `dest` to be a directory path ending with '/'"@,
            ),
        )
    } else {
        attributes_error(file.mode, file.owner, file.group, src, kind)
    }
}

/// Accepts a file entry: a reference as its source, an absolute path as its
/// destination, a directory if the source is a pattern, and sound attributes.
pub fn validate_top_level_file(kind: &str, file: &FileEntry) -> (r: Result<(), PlanError>)
    ensures
        outcome(r, file_error(kind@, *file)),
{
    let src_text = trimmed(file.src.as_str());
    let dest_text = trimmed(file.dest.as_str());
    let src = src_text.as_str();
    let dest = dest_text.as_str();
    if src.is_empty() {
        return Err(
            PlanError::new(cat2(kind, " files entry: `src` is required and must be non-empty")),
        );
    }
    if !has_prefix(src, "@") {
        return Err(
            entry_failure(
                kind,
                src,
                "`src` must be an `@`-reference (e.g. `@foo`, `@://<glob>`, `@artifact://<glob>`); bare paths are not supported",
            ),
        );
    }
    match Reference::parse(src) {
        Ok(_) => {},
        Err(e) => {
            let context = entry_failure(kind, src, "invalid `@`-reference in `src`");
            return Err(e.within(context.message.as_str()));
        },
    }
    if dest.is_empty() {
        return Err(
            entry_failure(
                kind,
                src,
                "`dest` is required and must be a non-empty absolute path",
            ),
        );
    }
    if !has_prefix(dest, "/") {
        let what = cat3("`dest` must be an absolute guest path (got '", dest, "')");
        return Err(entry_failure(kind, src, what.as_str()));
    }
    if src_has_glob_metacharacters(src) && !has_suffix(dest, "/") {
        return Err(
            entry_failure(
                kind,
                src,
                "glob `src` requires `dest` to be a directory path ending with '/'",
            ),
        );
    }
    check_attributes(&file.mode, &file.owner, &file.group, src, kind)
}

/// Why the first of `n` file entries that is refused is refused.
pub open spec fn files_error(kind: Seq<char>, files: Seq<FileEntry>, n: nat) -> Option<Seq<char>>
    decreases n,
{
    if n == 0 {
        None
    } else {
        first_error(files_error(kind, files, (n - 1) as nat), file_error(kind, files[n - 1]))
    }
}

/// Accepts the file entries of a document.
pub fn validate_top_level_files(kind: &str, files: &Vec<FileEntry>) -> (r: Result<(), PlanError>)
    ensures
        outcome(r, files_error(kind@, files@, files@.len())),
{
    let mut i: usize = 0;
    while i < files.len()
        invariant
            i <= files@.len(),
            files_error(kind@, files@, i as nat) is None,
        decreases files@.len() - i,
    {
        let r = validate_top_level_file(kind, &files[i]);
        if r.is_err() {
            proof {
                lemma_files_error_stays(kind@, files@, (i + 1) as nat, files@.len());
            }
            return r;
        }
        i += 1;
    }
    Ok(())
}

proof fn lemma_files_error_stays(kind: Seq<char>, files: Seq<FileEntry>, n: nat, m: nat)
    requires
        n <= m,
        files_error(kind, files, n) is Some,
    ensures
        files_error(kind, files, m) == files_error(kind, files, n),
    decreases m,
{
    if n < m {
        lemma_files_error_stays(kind, files, n, (m - 1) as nat);
    }
}

/// The files of a document are accepted exactly if each of them is.
pub proof fn files_accepted_iff(kind: Seq<char>, files: Seq<FileEntry>)
    ensures
        files_error(kind, files, files.len()) is None <==> forall|i: int|
            0 <= i < files.len() ==> file_error(kind, #[trigger] files[i]) is None,
{
    lemma_files_accepted(kind, files, files.len());
}

proof fn lemma_files_accepted(kind: Seq<char>, files: Seq<FileEntry>, n: nat)
    requires
        n <= files.len(),
    ensures
        files_error(kind, files, n) is None <==> forall|i: int|
            0 <= i < n ==> file_error(kind, #[trigger] files[i]) is None,
    decreases n,
{
    if n > 0 {
        lemma_files_accepted(kind, files, (n - 1) as nat);
        assert(file_error(kind, files[n - 1]) == file_error(kind, files[n - 1]));
    }
}

// ---------------------------------------------------------------------------
// Assertions
// ---------------------------------------------------------------------------

/// Why an `assert.files:` entry is refused.
pub open spec fn assert_file_error(path: Seq<char>, expected: AssertFile) -> Option<Seq<char>> {
    if !starts_with(path, "/"@) {
        Some(
            "assert.files: path '"@ + path
                + "' must be an absolute guest path (must start with '/')"@,
        )
    } else if !expected.exists {
        if expected.filetype is Some || expected.owner is Some || expected.group is Some
            || expected.mode is Some {
            Some(
                "assert.files: path '"@ + path
                    + "': attribute fields (filetype/owner/group/mode) must not be set when `exists: false`"@,
            )
        } else {
            None
        }
    } else {
        attributes_error(expected.mode, expected.owner, expected.group, path, "assert"@)
    }
}

/// Accepts an `assert.files:` entry: an absolute path, and attributes only of a
/// path that must exist.
pub fn validate_assert_file_entry(guest_path: &str, expectation: &AssertFile) -> (r: Result<
    (),
    PlanError,
>)
    ensures
        outcome(r, assert_file_error(guest_path@, *expectation)),
{
    if !has_prefix(guest_path, "/") {
        return Err(
            PlanError::new(
                cat3(
                    "assert.files: path '",
                    guest_path,
                    "' must be an absolute guest path (must start with '/')",
                ),
            ),
        );
    }
    if !expectation.exists {
        if expectation.filetype.is_some() || expectation.owner.is_some()
            || expectation.group.is_some() || expectation.mode.is_some() {
            return Err(
                PlanError::new(
                    cat3(
                        "assert.files: path '",
                        guest_path,
                        "': attribute fields (filetype/owner/group/mode) must not be set when `exists: false`",
                    ),
                ),
            );
        }
        return Ok(());
    }
    check_attributes(
        &expectation.mode,
        &expectation.owner,
        &expectation.group,
        guest_path,
        "assert",
    )
}

/// Why an `assert.users:` entry is refused.
pub open spec fn assert_user_error(name: Seq<char>, expected: AssertUser) -> Option<Seq<char>> {
    if !expected.exists && (expected.shell is Some || expected.groups@.len() > 0) {
        Some(
            "assert.users: entry '"@ + name
                + "': attribute fields (shell/groups) must not be set when `exists: false`"@,
        )
    } else {
        None
    }
}

/// Accepts an `assert.users:` entry: attributes only of a user who must exist.
pub fn validate_assert_user_entry(name_or_pattern: &str, expectation: &AssertUser) -> (r: Result<
    (),
    PlanError,
>)
    ensures
        outcome(r, assert_user_error(name_or_pattern@, *expectation)),
{
    if !expectation.exists && (expectation.shell.is_some() || expectation.groups.len() > 0) {
        return Err(
            PlanError::new(
                cat3(
                    "assert.users: entry '",
                    name_or_pattern,
                    "': attribute fields (shell/groups) must not be set when `exists: false`",
                ),
            ),
        );
    }
    Ok(())
}

/// Accepts any `assert.groups:` entry.
pub fn validate_assert_group_entry(_name_or_pattern: &str, _expectation: &AssertGroup) -> (r:
    Result<(), PlanError>)
    ensures
        r is Ok,
{
    Ok(())
}

/// Accepts any `assert.packages:` entry.
pub fn validate_assert_package_entry(_name_or_pattern: &str, _expectation: &AssertPackage) -> (r:
    Result<(), PlanError>)
    ensures
        r is Ok,
{
    Ok(())
}

/// Why the first of `n` `assert.files:` entries that is refused is refused.
pub open spec fn assert_files_error(files: Seq<(String, AssertFile)>, n: nat) -> Option<Seq<char>>
    decreases n,
{
    if n == 0 {
        None
    } else {
        first_error(
            assert_files_error(files, (n - 1) as nat),
            assert_file_error(files[n - 1].0@, files[n - 1].1),
        )
    }
}

/// Why the first of `n` `assert.users:` entries that is refused is refused.
pub open spec fn assert_users_error(users: Seq<(String, AssertUser)>, n: nat) -> Option<Seq<char>>
    decreases n,
{
    if n == 0 {
        None
    } else {
        first_error(
            assert_users_error(users, (n - 1) as nat),
            assert_user_error(users[n - 1].0@, users[n - 1].1),
        )
    }
}

/// Why an `assert:` block is refused.
pub open spec fn assert_block_error(block: AssertBlock) -> Option<Seq<char>> {
    first_error(
        assert_files_error(block.files@, block.files@.len()),
        assert_users_error(block.users@, block.users@.len()),
    )
}

proof fn lemma_assert_files_error_stays(files: Seq<(String, AssertFile)>, n: nat, m: nat)
    requires
        n <= m,
        assert_files_error(files, n) is Some,
    ensures
        assert_files_error(files, m) == assert_files_error(files, n),
    decreases m,
{
    if n < m {
        lemma_assert_files_error_stays(files, n, (m - 1) as nat);
    }
}

proof fn lemma_assert_users_error_stays(users: Seq<(String, AssertUser)>, n: nat, m: nat)
    requires
        n <= m,
        assert_users_error(users, n) is Some,
    ensures
        assert_users_error(users, m) == assert_users_error(users, n),
    decreases m,
{
    if n < m {
        lemma_assert_users_error_stays(users, n, (m - 1) as nat);
    }
}

/// Accepts an `assert:` block.
pub fn validate_assert_block(block: &AssertBlock) -> (r: Result<(), PlanError>)
    ensures
        outcome(r, assert_block_error(*block)),
{
    let mut i: usize = 0;
    while i < block.files.len()
        invariant
            i <= block.files@.len(),
            assert_files_error(block.files@, i as nat) is None,
        decreases block.files@.len() - i,
    {
        let r = validate_assert_file_entry(block.files[i].0.as_str(), &block.files[i].1);
        if r.is_err() {
            proof {
                lemma_assert_files_error_stays(
                    block.files@,
                    (i + 1) as nat,
                    block.files@.len(),
                );
            }
            return r;
        }
        i += 1;
    }
    let mut k: usize = 0;
    while k < block.users.len()
        invariant
            k <= block.users@.len(),
            assert_files_error(block.files@, block.files@.len()) is None,
            assert_users_error(block.users@, k as nat) is None,
        decreases block.users@.len() - k,
    {
        let r = validate_assert_user_entry(block.users[k].0.as_str(), &block.users[k].1);
        if r.is_err() {
            proof {
                lemma_assert_users_error_stays(
                    block.users@,
                    (k + 1) as nat,
                    block.users@.len(),
                );
            }
            return r;
        }
        k += 1;
    }
    let mut g: usize = 0;
    while g < block.groups.len()
        invariant
            g <= block.groups@.len(),
        decreases block.groups@.len() - g,
    {
        let r = validate_assert_group_entry(block.groups[g].0.as_str(), &block.groups[g].1);
        assert(r is Ok);
        g += 1;
    }
    let mut p: usize = 0;
    while p < block.packages.len()
        invariant
            p <= block.packages@.len(),
        decreases block.packages@.len() - p,
    {
        let r = validate_assert_package_entry(
            block.packages[p].0.as_str(),
            &block.packages[p].1,
        );
        assert(r is Ok);
        p += 1;
    }
    Ok(())
}

// ---------------------------------------------------------------------------
// Ports
// ---------------------------------------------------------------------------

/// A port that is forwarded to the guest, and the address it is bound to.
#[derive(Debug, PartialEq, Eq)]
pub struct PortSpec {
    pub addr: String,
    pub port: u16,
}

/// Whether a port number stands before position `i` already.
pub open spec fn taken_before(ports: Seq<PortSpec>, i: int) -> bool {
    exists|j: int| 0 <= j < i && (#[trigger] ports[j]).port == ports[i].port
}

/// Why the port at position `i` is refused.
pub open spec fn port_error(ports: Seq<PortSpec>, ssh_port: u16, i: int) -> Option<Seq<char>> {
    let port = ports[i].port;
    if port == 0 {
        Some("invalid test config port 0: ports must be in 1..=65535"@)
    } else if port == ssh_port {
        Some(
            "invalid test config port "@ + decimal(port as nat)
                + ": duplicates configured ssh port"@,
        )
    } else if port == 22 {
        Some("invalid test config port 22: guest ssh is forwarded automatically"@)
    } else if taken_before(ports, i) {
        Some(
            "invalid test config port "@ + decimal(port as nat)
                + ": duplicate port numbers are not allowed in `ports` (binds on different addresses may still conflict at QEMU startup)"@,
        )
    } else {
        None
    }
}

/// Why the first of `n` ports that is refused is refused.
pub open spec fn ports_error(ports: Seq<PortSpec>, ssh_port: u16, n: nat) -> Option<Seq<char>>
    decreases n,
{
    if n == 0 {
        None
    } else {
        first_error(
            ports_error(ports, ssh_port, (n - 1) as nat),
            port_error(ports, ssh_port, n - 1),
        )
    }
}

proof fn lemma_ports_error_stays(ports: Seq<PortSpec>, ssh_port: u16, n: nat, m: nat)
    requires
        n <= m,
        ports_error(ports, ssh_port, n) is Some,
    ensures
        ports_error(ports, ssh_port, m) == ports_error(ports, ssh_port, n),
    decreases m,
{
    if n < m {
        lemma_ports_error_stays(ports, ssh_port, n, (m - 1) as nat);
    }
}

/// Whether the number of the port at `i` stands before it already.
fn port_taken(ports: &[PortSpec], i: usize) -> (r: bool)
    requires
        i < ports@.len(),
    ensures
        r == taken_before(ports@, i as int),
{
    let mut j: usize = 0;
    while j < i
        invariant
            j <= i < ports@.len(),
            forall|k: int| 0 <= k < j ==> (#[trigger] ports@[k]).port != ports@[i as int].port,
        decreases i - j,
    {
        if ports[j].port == ports[i].port {
            return true;
        }
        j += 1;
    }
    false
}

/// Accepts ports that are not zero, not those of ssh, and all different.
pub fn validate_test_ports(ports: &[PortSpec], ssh_port: u16) -> (r: Result<(), PlanError>)
    ensures
        outcome(r, ports_error(ports@, ssh_port, ports@.len())),
{
    let mut i: usize = 0;
    while i < ports.len()
        invariant
            i <= ports@.len(),
            ports_error(ports@, ssh_port, i as nat) is None,
        decreases ports@.len() - i,
    {
        let port: u16 = ports[i].port;
        let taken = port_taken(ports, i);
        if port == 0 || port == ssh_port || port == 22 || taken {
            let shown = decimal_u64(port as u64);
            let message = if port == 0 {
                "invalid test config port 0: ports must be in 1..=65535".to_owned()
            } else if port == ssh_port {
                cat3(
                    "invalid test config port ",
                    shown.as_str(),
                    ": duplicates configured ssh port",
                )
            } else if port == 22 {
                "invalid test config port 22: guest ssh is forwarded automatically".to_owned()
            } else {
                cat3(
                    "invalid test config port ",
                    shown.as_str(),
                    ": duplicate port numbers are not allowed in `ports` (binds on different addresses may still conflict at QEMU startup)",
                )
            };
            proof {
                lemma_ports_error_stays(ports@, ssh_port, (i + 1) as nat, ports@.len());
            }
            return Err(PlanError::new(message));
        }
        i += 1;
    }
    Ok(())
}

/// Whether a port may be forwarded at all.
pub open spec fn usable_port(port: u16, ssh_port: u16) -> bool {
    port != 0 && port != ssh_port && port != 22
}

/// Ports are accepted exactly if each may be forwarded and no two have the same
/// number, whatever their addresses are.
pub proof fn ports_accepted_iff(ports: Seq<PortSpec>, ssh_port: u16)
    ensures
        ports_error(ports, ssh_port, ports.len()) is None <==> {
            &&& forall|i: int|
                0 <= i < ports.len() ==> usable_port((#[trigger] ports[i]).port, ssh_port)
            &&& forall|i: int, j: int|
                0 <= j < i < ports.len() ==> (#[trigger] ports[i]).port
                    != (#[trigger] ports[j]).port
        },
{
    lemma_ports_accepted(ports, ssh_port, ports.len());
}

proof fn lemma_ports_accepted(ports: Seq<PortSpec>, ssh_port: u16, n: nat)
    requires
        n <= ports.len(),
    ensures
        ports_error(ports, ssh_port, n) is None <==> {
            &&& forall|i: int| 0 <= i < n ==> usable_port((#[trigger] ports[i]).port, ssh_port)
            &&& forall|i: int, j: int|
                0 <= j < i < n ==> (#[trigger] ports[i]).port != (#[trigger] ports[j]).port
        },
    decreases n,
{
    if n > 0 {
        lemma_ports_accepted(ports, ssh_port, (n - 1) as nat);
        if port_error(ports, ssh_port, n - 1) is None {
            assert(!taken_before(ports, n - 1));
        }
    }
}

} // verus!
