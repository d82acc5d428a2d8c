//! Every domain's failures, since all of them reach the same command line.
//!
//! A variant that only widens a type (`SessionError::Io`, say) reads as what it
//! holds does, and has the source that has. A variant with a message of its own
//! has what it holds as its source.
use crate::engine::error::EngineError;
use crate::paths::PathBuf;
use crate::text;
use vstd::prelude::*;

verus! {

// ---------------------------------------------------------------------------
// Paths
// ---------------------------------------------------------------------------

/// A filesystem error that names its path, which the reason alone does not.
#[derive(Debug, PartialEq)]
pub struct PathError {
    /// Whether nothing was there.
    pub not_found: bool,
    pub path: PathBuf,
    /// What the system said.
    pub reason: String,
}

impl PathError {
    /// The sentence that reports the error.
    pub open spec fn sentence(&self) -> Seq<char> {
        self.path@ + ": "@ + self.reason@
    }

    pub fn new(path: PathBuf, reason: String, not_found: bool) -> (r: Self)
        ensures
            r.path == path,
            r.reason == reason,
            r.not_found == not_found,
    {
        PathError { not_found, path, reason }
    }

    pub fn path(&self) -> (r: &PathBuf)
        ensures
            *r == self.path,
    {
        &self.path
    }

    /// Whether nothing was there. Several callers treat that as ordinary (no
    /// local manifest, no record, no spool yet) rather than a failure.
    pub fn is_not_found(&self) -> (r: bool)
        ensures
            r == self.not_found,
    {
        self.not_found
    }

    /// The sentence that reports the error.
    pub fn to_string(&self) -> (r: String)
        ensures
            r@ == self.sentence(),
    {
        let mut out = self.path.display();
        out.append(": ");
        out.append(self.reason.as_str());
        out
    }

    /// What caused the error: what the system said.
    pub fn source(&self) -> (r: Option<String>)
        ensures
            r == Some(self.reason),
    {
        Some(self.reason.clone())
    }
}

// ---------------------------------------------------------------------------
// Manifests
// ---------------------------------------------------------------------------

/// A TOML file compostbin owns (the project manifest, or a session's mount
/// record) that could not be read, parsed, or written. Every variant names the
/// file, since it may not be the manifest the user expected.
#[derive(Debug, PartialEq)]
pub enum ManifestError {
    Io(PathError),
    Parse { path: PathBuf, source: String },
    Render { path: PathBuf, source: String },
}

impl ManifestError {
    /// The file that the error is about.
    pub open spec fn file(&self) -> PathBuf {
        match self {
            ManifestError::Io(error) => error.path,
            ManifestError::Parse { path, .. } => *path,
            ManifestError::Render { path, .. } => *path,
        }
    }

    /// The sentence that reports the error: the file, and what was said of it.
    pub open spec fn sentence(&self) -> Seq<char> {
        match self {
            ManifestError::Io(error) => error.sentence(),
            ManifestError::Parse { path, source } => path@ + ": "@ + source@,
            ManifestError::Render { path, source } => path@ + ": "@ + source@,
        }
    }

    pub fn path(&self) -> (r: &PathBuf)
        ensures
            *r == self.file(),
    {
        match self {
            ManifestError::Io(error) => error.path(),
            ManifestError::Parse { path, .. } => path,
            ManifestError::Render { path, .. } => path,
        }
    }

    /// The sentence that reports the error.
    pub fn to_string(&self) -> (r: String)
        ensures
            r@ == self.sentence(),
    {
        match self {
            ManifestError::Io(error) => error.to_string(),
            ManifestError::Parse { path, source } => {
                let mut out = path.display();
                out.append(": ");
                out.append(source.as_str());
                out
            },
            ManifestError::Render { path, source } => {
                let mut out = path.display();
                out.append(": ");
                out.append(source.as_str());
                out
            },
        }
    }

    /// What caused the error.
    pub fn source(&self) -> (r: Option<String>)
        ensures
            r == Some(
                match *self {
                    ManifestError::Io(error) => error.reason,
                    ManifestError::Parse { source, .. } => source,
                    ManifestError::Render { source, .. } => source,
                },
            ),
    {
        match self {
            ManifestError::Io(error) => error.source(),
            ManifestError::Parse { source, .. } => Some(source.clone()),
            ManifestError::Render { source, .. } => Some(source.clone()),
        }
    }
}

impl From<PathError> for ManifestError {
    fn from(error: PathError) -> (r: Self) {
        ManifestError::Io(error)
    }
}

impl vstd::std_specs::convert::FromSpecImpl<PathError> for ManifestError {
    open spec fn obeys_from_spec() -> bool {
        true
    }

    open spec fn from_spec(error: PathError) -> Self {
        ManifestError::Io(error)
    }
}

// ---------------------------------------------------------------------------
// Credentials
// ---------------------------------------------------------------------------

/// A token that could not be read from the Keychain or written into the
/// assistant's home.
#[derive(Debug, PartialEq)]
pub enum CredentialError {
    Io(PathError),
    Keychain(String),
}

impl CredentialError {
    /// The sentence that reports the error.
    pub open spec fn sentence(&self) -> Seq<char> {
        match self {
            CredentialError::Io(error) => error.sentence(),
            CredentialError::Keychain(message) => "reading the login Keychain: "@ + message@,
        }
    }

    /// The sentence that reports the error.
    pub fn to_string(&self) -> (r: String)
        ensures
            r@ == self.sentence(),
    {
        match self {
            CredentialError::Io(error) => error.to_string(),
            CredentialError::Keychain(message) => {
                let mut out = "reading the login Keychain: ".to_string();
                out.append(message.as_str());
                out
            },
        }
    }

    /// What caused the error, where something else did.
    pub fn source(&self) -> (r: Option<String>)
        ensures
            r == (match *self {
                CredentialError::Io(error) => Some(error.reason),
                CredentialError::Keychain(_) => None,
            }),
    {
        match self {
            CredentialError::Io(error) => error.source(),
            CredentialError::Keychain(_) => None,
        }
    }
}

impl From<PathError> for CredentialError {
    fn from(error: PathError) -> (r: Self) {
        CredentialError::Io(error)
    }
}

impl vstd::std_specs::convert::FromSpecImpl<PathError> for CredentialError {
    open spec fn obeys_from_spec() -> bool {
        true
    }

    open spec fn from_spec(error: PathError) -> Self {
        CredentialError::Io(error)
    }
}

// ---------------------------------------------------------------------------
// Images
// ---------------------------------------------------------------------------

/// A base image that could not be written into a build context or built.
#[derive(Debug, PartialEq)]
pub enum ImageError {
    Engine(EngineError),
    Io(PathError),
}

impl ImageError {
    /// The sentence that reports the error.
    pub open spec fn sentence(&self) -> Seq<char> {
        match self {
            ImageError::Engine(error) => error@.sentence(),
            ImageError::Io(error) => error.sentence(),
        }
    }

    /// The sentence that reports the error.
    pub fn to_string(&self) -> (r: String)
        ensures
            r@ == self.sentence(),
    {
        match self {
            ImageError::Engine(error) => error.to_string(),
            ImageError::Io(error) => error.to_string(),
        }
    }

    /// What caused the error, where something else did.
    pub fn source(&self) -> (r: Option<String>)
        ensures
            r == (match *self {
                ImageError::Engine(_) => None,
                ImageError::Io(error) => Some(error.reason),
            }),
    {
        match self {
            ImageError::Engine(_) => None,
            ImageError::Io(error) => error.source(),
        }
    }
}

impl From<EngineError> for ImageError {
    fn from(error: EngineError) -> (r: Self) {
        ImageError::Engine(error)
    }
}

impl vstd::std_specs::convert::FromSpecImpl<EngineError> for ImageError {
    open spec fn obeys_from_spec() -> bool {
        true
    }

    open spec fn from_spec(error: EngineError) -> Self {
        ImageError::Engine(error)
    }
}

impl From<PathError> for ImageError {
    fn from(error: PathError) -> (r: Self) {
        ImageError::Io(error)
    }
}

impl vstd::std_specs::convert::FromSpecImpl<PathError> for ImageError {
    open spec fn obeys_from_spec() -> bool {
        true
    }

    open spec fn from_spec(error: PathError) -> Self {
        ImageError::Io(error)
    }
}

// ---------------------------------------------------------------------------
// Sessions
// ---------------------------------------------------------------------------

/// A session that could not be prepared or created, or whose mount record could
/// not be written. One error because `run` does all three as one step.
#[derive(Debug, PartialEq)]
pub enum SessionError {
    Credential(CredentialError),
    Engine(EngineError),
    Io(PathError),
    Record(ManifestError),
}

impl SessionError {
    /// The sentence that reports the error.
    pub open spec fn sentence(&self) -> Seq<char> {
        match self {
            SessionError::Credential(error) => error.sentence(),
            SessionError::Engine(error) => error@.sentence(),
            SessionError::Io(error) => error.sentence(),
            SessionError::Record(error) => "recording the container's mounts: "@
                + error.sentence(),
        }
    }

    /// The sentence that reports the error.
    pub fn to_string(&self) -> (r: String)
        ensures
            r@ == self.sentence(),
    {
        match self {
            SessionError::Credential(error) => error.to_string(),
            SessionError::Engine(error) => error.to_string(),
            SessionError::Io(error) => error.to_string(),
            SessionError::Record(error) => {
                let mut out = "recording the container's mounts: ".to_string();
                out.append(error.to_string().as_str());
                out
            },
        }
    }

    /// What caused the error, where something else did. A record that could not
    /// be written has a message of its own, so its error is the source.
    pub fn source(&self) -> (r: Option<String>)
        ensures
            match *self {
                SessionError::Credential(CredentialError::Io(error)) => r == Some(error.reason),
                SessionError::Credential(CredentialError::Keychain(_)) => r is None,
                SessionError::Engine(_) => r is None,
                SessionError::Io(error) => r == Some(error.reason),
                SessionError::Record(error) => r matches Some(shown) && shown@
                    == error.sentence(),
            },
    {
        match self {
            SessionError::Credential(error) => error.source(),
            SessionError::Engine(_) => None,
            SessionError::Io(error) => error.source(),
            SessionError::Record(error) => Some(error.to_string()),
        }
    }
}

impl From<CredentialError> for SessionError {
    fn from(error: CredentialError) -> (r: Self) {
        SessionError::Credential(error)
    }
}

impl vstd::std_specs::convert::FromSpecImpl<CredentialError> for SessionError {
    open spec fn obeys_from_spec() -> bool {
        true
    }

    open spec fn from_spec(error: CredentialError) -> Self {
        SessionError::Credential(error)
    }
}

impl From<EngineError> for SessionError {
    fn from(error: EngineError) -> (r: Self) {
        SessionError::Engine(error)
    }
}

impl vstd::std_specs::convert::FromSpecImpl<EngineError> for SessionError {
    open spec fn obeys_from_spec() -> bool {
        true
    }

    open spec fn from_spec(error: EngineError) -> Self {
        SessionError::Engine(error)
    }
}

impl From<PathError> for SessionError {
    fn from(error: PathError) -> (r: Self) {
        SessionError::Io(error)
    }
}

impl vstd::std_specs::convert::FromSpecImpl<PathError> for SessionError {
    open spec fn obeys_from_spec() -> bool {
        true
    }

    open spec fn from_spec(error: PathError) -> Self {
        SessionError::Io(error)
    }
}

impl From<ManifestError> for SessionError {
    fn from(error: ManifestError) -> (r: Self) {
        SessionError::Record(error)
    }
}

impl vstd::std_specs::convert::FromSpecImpl<ManifestError> for SessionError {
    open spec fn obeys_from_spec() -> bool {
        true
    }

    open spec fn from_spec(error: ManifestError) -> Self {
        SessionError::Record(error)
    }
}

// ---------------------------------------------------------------------------
// Host commands
// ---------------------------------------------------------------------------

/// Why a host command was refused: an outcome reported to the guest, not a
/// failure of the agent. Separate from `HostError` so it compares by value.
#[derive(Debug, Eq, PartialEq)]
pub enum Refusal {
    /// Declared without `arguments = true`.
    ArgumentsNotAllowed(String),
    DeniedArgument(String),
    /// Declared with an empty `argv`.
    EmptyCommand(String),
    EmptyRequest,
    NewlineInArgument(String),
    UnknownCommand(String),
}

/// A `Refusal`, its texts as sequences of characters.
pub enum RefusalView {
    ArgumentsNotAllowed(Seq<char>),
    DeniedArgument(Seq<char>),
    EmptyCommand(Seq<char>),
    EmptyRequest,
    NewlineInArgument(Seq<char>),
    UnknownCommand(Seq<char>),
}

impl View for Refusal {
    type V = RefusalView;

    open spec fn view(&self) -> RefusalView {
        match self {
            Refusal::ArgumentsNotAllowed(name) => RefusalView::ArgumentsNotAllowed(name@),
            Refusal::DeniedArgument(argument) => RefusalView::DeniedArgument(argument@),
            Refusal::EmptyCommand(name) => RefusalView::EmptyCommand(name@),
            Refusal::EmptyRequest => RefusalView::EmptyRequest,
            Refusal::NewlineInArgument(argument) => RefusalView::NewlineInArgument(argument@),
            Refusal::UnknownCommand(name) => RefusalView::UnknownCommand(name@),
        }
    }
}

impl RefusalView {
    /// The sentence that tells the guest why.
    pub open spec fn sentence(self) -> Seq<char> {
        match self {
            RefusalView::ArgumentsNotAllowed(name) => "\""@ + name
                + "\" takes no arguments; declare `arguments = true` on it to allow them"@,
            RefusalView::DeniedArgument(argument) => "the argument \""@ + argument
                + "\" is refused by this command's `deny` list"@,
            RefusalView::EmptyCommand(name) => "\""@ + name
                + "\" has an empty argv, so it names nothing to run"@,
            RefusalView::EmptyRequest => "the request names no command"@,
            RefusalView::NewlineInArgument(argument) =>
                "an argument may not contain a newline, which \""@ + argument + "\" does"@,
            RefusalView::UnknownCommand(name) => "\""@ + name + "\" is not in [host.commands]"@,
        }
    }
}

/// A text between two others.
fn between(before: &str, inner: &str, after: &str) -> (r: String)
    ensures
        r@ == before@ + inner@ + after@,
{
    let mut out = before.to_string();
    out.append(inner);
    out.append(after);
    out
}

impl Refusal {
    /// The sentence that tells the guest why.
    pub fn to_string(&self) -> (r: String)
        ensures
            r@ == self@.sentence(),
    {
        match self {
            Refusal::ArgumentsNotAllowed(name) => between(
                "\"",
                name.as_str(),
                "\" takes no arguments; declare `arguments = true` on it to allow them",
            ),
            Refusal::DeniedArgument(argument) => between(
                "the argument \"",
                argument.as_str(),
                "\" is refused by this command's `deny` list",
            ),
            Refusal::EmptyCommand(name) => between(
                "\"",
                name.as_str(),
                "\" has an empty argv, so it names nothing to run",
            ),
            Refusal::EmptyRequest => "the request names no command".to_string(),
            Refusal::NewlineInArgument(argument) => between(
                "an argument may not contain a newline, which \"",
                argument.as_str(),
                "\" does",
            ),
            Refusal::UnknownCommand(name) => between(
                "\"",
                name.as_str(),
                "\" is not in [host.commands]",
            ),
        }
    }
}

/// A host command that could not be submitted or served.
#[derive(Debug, PartialEq)]
pub enum HostError {
    Io(PathError),
    Refused(Refusal),
}

impl HostError {
    /// The sentence that reports the error.
    pub open spec fn sentence(&self) -> Seq<char> {
        match self {
            HostError::Io(error) => error.sentence(),
            HostError::Refused(refusal) => refusal@.sentence(),
        }
    }

    /// The sentence that reports the error.
    pub fn to_string(&self) -> (r: String)
        ensures
            r@ == self.sentence(),
    {
        match self {
            HostError::Io(error) => error.to_string(),
            HostError::Refused(refusal) => refusal.to_string(),
        }
    }

    /// What caused the error, where something else did.
    pub fn source(&self) -> (r: Option<String>)
        ensures
            r == (match *self {
                HostError::Io(error) => Some(error.reason),
                HostError::Refused(_) => None,
            }),
    {
        match self {
            HostError::Io(error) => error.source(),
            HostError::Refused(_) => None,
        }
    }
}

impl From<PathError> for HostError {
    fn from(error: PathError) -> (r: Self) {
        HostError::Io(error)
    }
}

impl vstd::std_specs::convert::FromSpecImpl<PathError> for HostError {
    open spec fn obeys_from_spec() -> bool {
        true
    }

    open spec fn from_spec(error: PathError) -> Self {
        HostError::Io(error)
    }
}

impl From<Refusal> for HostError {
    fn from(refusal: Refusal) -> (r: Self) {
        HostError::Refused(refusal)
    }
}

impl vstd::std_specs::convert::FromSpecImpl<Refusal> for HostError {
    open spec fn obeys_from_spec() -> bool {
        true
    }

    open spec fn from_spec(refusal: Refusal) -> Self {
        HostError::Refused(refusal)
    }
}

/// A refusal names what was refused.
pub proof fn law_refusals_name_what_they_refuse(refusal: RefusalView)
    ensures
        ({
            let said = refusal.sentence();
            match refusal {
                RefusalView::ArgumentsNotAllowed(name) => text::contains_text(said, name),
                RefusalView::DeniedArgument(argument) => text::contains_text(said, argument),
                RefusalView::EmptyCommand(name) => text::contains_text(said, name),
                RefusalView::EmptyRequest => said.len() > 0,
                RefusalView::NewlineInArgument(argument) => text::contains_text(said, argument),
                RefusalView::UnknownCommand(name) => text::contains_text(said, name),
            }
        }),
{
    let said = refusal.sentence();
    match refusal {
        RefusalView::ArgumentsNotAllowed(name) => {
            let at = "\""@.len() as int;
            assert(said.subrange(at, at + name.len()) =~= name);
        },
        RefusalView::DeniedArgument(argument) => {
            let at = "the argument \""@.len() as int;
            assert(said.subrange(at, at + argument.len()) =~= argument);
        },
        RefusalView::EmptyCommand(name) => {
            let at = "\""@.len() as int;
            assert(said.subrange(at, at + name.len()) =~= name);
        },
        RefusalView::EmptyRequest => {
            reveal_strlit("the request names no command");
        },
        RefusalView::NewlineInArgument(argument) => {
            let at = "an argument may not contain a newline, which \""@.len() as int;
            assert(said.subrange(at, at + argument.len()) =~= argument);
        },
        RefusalView::UnknownCommand(name) => {
            let at = "\""@.len() as int;
            assert(said.subrange(at, at + name.len()) =~= name);
        },
    }
}

/// An error about a file names the file first, and ends with what was said of it.
pub proof fn law_errors_name_the_file_and_the_reason(error: ManifestError)
    ensures
        (error.file()@ + ": "@).is_prefix_of(error.sentence()),
        (match error {
            ManifestError::Io(error) => error.reason@,
            ManifestError::Parse { source, .. } => source@,
            ManifestError::Render { source, .. } => source@,
        }).is_suffix_of(error.sentence()),
{
    let said = error.sentence();
    let head = error.file()@ + ": "@;
    assert(head =~= said.subrange(0, head.len() as int));
    let end = match error {
        ManifestError::Io(error) => error.reason@,
        ManifestError::Parse { source, .. } => source@,
        ManifestError::Render { source, .. } => source@,
    };
    assert(end =~= said.subrange(said.len() - end.len(), said.len() as int));
}

} // verus!
