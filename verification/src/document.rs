//! Plan documents: their kinds, their sections and the defaults of their fields.

use vstd::prelude::*;
use vstd::string::*;

use crate::ordered::in_key_order;

verus! {

/// The kind of a document, from its `type:` field.
#[derive(Clone, Copy, Debug, PartialEq, Eq, Structural)]
pub enum DocumentType {
    /// An entrypoint that is run as a test.
    Test,
    /// An entrypoint that is run as a build.
    Build,
    /// A reusable document that others take in through `uses:`.
    Fragment,
}

impl DocumentType {
    /// The word that names the kind.
    pub open spec fn word(self) -> Seq<char> {
        match self {
            DocumentType::Test => "test"@,
            DocumentType::Build => "build"@,
            DocumentType::Fragment => "fragment"@,
        }
    }

    /// The word that names the kind.
    pub fn as_str(self) -> (r: &'static str)
        ensures
            r@ == self.word(),
    {
        match self {
            DocumentType::Test => "test",
            DocumentType::Build => "build",
            DocumentType::Fragment => "fragment",
        }
    }

    /// Whether a test run can start at this kind of document.
    pub fn is_test_entrypoint(self) -> (r: bool)
        ensures
            r == (self == DocumentType::Test),
    {
        matches!(self, DocumentType::Test)
    }

    /// Whether a build run can start at this kind of document.
    pub fn is_build_entrypoint(self) -> (r: bool)
        ensures
            r == (self == DocumentType::Build),
    {
        matches!(self, DocumentType::Build)
    }

    /// Whether `uses:` can take in this kind of document.
    pub fn is_consumable_fragment(self) -> (r: bool)
        ensures
            r == (self == DocumentType::Fragment),
    {
        matches!(self, DocumentType::Fragment)
    }
}

/// The file type that an `assert.files:` entry can expect.
#[derive(Clone, Copy, Debug, PartialEq, Eq, Structural)]
pub enum AssertFileType {
    File,
    Directory,
    Symlink,
}

impl AssertFileType {
    /// The word that names the file type.
    pub open spec fn word(self) -> Seq<char> {
        match self {
            AssertFileType::File => "file"@,
            AssertFileType::Directory => "directory"@,
            AssertFileType::Symlink => "symlink"@,
        }
    }

    /// The word that names the file type.
    pub fn as_str(self) -> (r: &'static str)
        ensures
            r@ == self.word(),
    {
        match self {
            AssertFileType::File => "file",
            AssertFileType::Directory => "directory",
            AssertFileType::Symlink => "symlink",
        }
    }

    /// The file type as it is shown.
    pub fn to_string(&self) -> (r: String)
        ensures
            r@ == self.word(),
    {
        self.as_str().to_owned()
    }
}

/// Whether an `assert:` entry expects presence when it does not say.
pub fn default_assert_exists() -> (r: bool)
    ensures
        r,
{
    true
}

/// What is expected of a path on the guest.
#[derive(Debug, PartialEq, Eq)]
pub struct AssertFile {
    /// Whether the path must exist.
    pub exists: bool,
    /// The file type it must have.
    pub filetype: Option<AssertFileType>,
    /// The user that must own it.
    pub owner: Option<String>,
    /// The group that must own it.
    pub group: Option<String>,
    /// The permission mode it must have, in octal digits.
    pub mode: Option<String>,
}

/// What is expected of a user on the guest, or of the users that match a pattern.
#[derive(Debug, PartialEq, Eq)]
pub struct AssertUser {
    /// Whether the user must exist.
    pub exists: bool,
    /// The login shell the user must have.
    pub shell: Option<String>,
    /// The groups the user must be in.
    pub groups: Vec<String>,
}

/// What is expected of a group on the guest, or of the groups that match a pattern.
#[derive(Debug, PartialEq, Eq)]
pub struct AssertGroup {
    /// Whether the group must exist.
    pub exists: bool,
}

/// What is expected of a package, or of the packages that match a pattern.
#[derive(Debug, PartialEq, Eq)]
pub struct AssertPackage {
    /// Whether the package must be installed.
    pub installed: bool,
}

/// What is expected of a service. What is `None` is not checked.
#[derive(Debug, PartialEq, Eq)]
pub struct AssertService {
    /// Whether the service must be enabled.
    pub enabled: Option<bool>,
    /// Whether the service must be active.
    pub active: Option<bool>,
}

/// The `assert:` block of a test document. Each list is filled by
/// [`put_entry`](crate::ordered::put_entry), which keeps it in the order of its names.
#[derive(Debug, PartialEq, Eq)]
pub struct AssertBlock {
    pub files: Vec<(String, AssertFile)>,
    pub users: Vec<(String, AssertUser)>,
    pub groups: Vec<(String, AssertGroup)>,
    pub packages: Vec<(String, AssertPackage)>,
    pub services: Vec<(String, AssertService)>,
}

impl AssertBlock {
    /// Each list is in the order of its names, and no name occurs twice in it.
    pub open spec fn wf(self) -> bool {
        &&& in_key_order(self.files@)
        &&& in_key_order(self.users@)
        &&& in_key_order(self.groups@)
        &&& in_key_order(self.packages@)
        &&& in_key_order(self.services@)
    }
}

impl Default for AssertBlock {
    fn default() -> (r: AssertBlock)
        ensures
            r.wf(),
            r.files@.len() == 0,
            r.users@.len() == 0,
            r.groups@.len() == 0,
            r.packages@.len() == 0,
            r.services@.len() == 0,
    {
        AssertBlock {
            files: Vec::new(),
            users: Vec::new(),
            groups: Vec::new(),
            packages: Vec::new(),
            services: Vec::new(),
        }
    }
}

/// The size that a build gives its disk when the document does not say.
pub fn default_disk_size() -> (r: String)
    ensures
        r@ == "10G"@,
{
    "10G".to_owned()
}

/// Seconds a test step may take when the document does not say.
pub fn default_test_step_timeout() -> (r: u64)
    ensures
        r == 300,
{
    300
}

/// Seconds a build step may take when the document does not say.
pub fn default_build_step_timeout() -> (r: u64)
    ensures
        r == 1800,
{
    1800
}

/// Seconds a test run may take when the document does not say.
pub fn default_test_timeout() -> (r: u64)
    ensures
        r == 1800,
{
    1800
}

/// Seconds a build run may take when the document does not say.
pub fn default_build_timeout() -> (r: u64)
    ensures
        r == 7200,
{
    7200
}

/// Seconds a test run waits for cloud-init.
pub fn default_test_cloud_init_timeout() -> (r: u64)
    ensures
        r == 300,
{
    300
}

/// Seconds a build run waits for cloud-init.
pub fn default_build_cloud_init_timeout() -> (r: u64)
    ensures
        r == 600,
{
    600
}

/// The script that a bootstrap image runs when the document does not say.
pub fn default_bootstrap_path() -> (r: String)
    ensures
        r@ == "bootstrap.sh"@,
{
    "bootstrap.sh".to_owned()
}

} // verus!
