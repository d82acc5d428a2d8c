//! The host's assistant token, seeded into the session's assistant home.
use crate::assistant;
use crate::assistant::Assistant;
use crate::engine::model::copy_text;
use crate::error::CredentialError;
use crate::paths;
use crate::paths::PathBuf;
use crate::text;
use vstd::prelude::*;

verus! {

/// Where the assistant looks for its OAuth token inside its home directory.
pub const CREDENTIALS_FILE_NAME: &'static str = ".credentials.json";

/// `security` exits with this when the item is simply absent, which is not a
/// failure.
pub const KEYCHAIN_ITEM_NOT_FOUND: i32 = 44;

/// A token is readable by its owner alone.
pub const CREDENTIALS_MODE: u32 = 0o600;

/// What seeding did, so the caller can say so without re-reading the filesystem.
#[derive(Clone, Copy, Debug, PartialEq, Eq, Structural)]
pub enum SeedOutcome {
    Disabled,
    KeptExisting,
    NotInKeychain,
    Seeded,
}

/// A place to read the host's assistant token from. `Ok(None)` means "no such
/// entry", which is not an error: the session may authenticate by API key.
///
/// A source keeps, as `answers`, what it said each time it was asked, in order.
/// One that is not verified keeps none: what is proved through this trait is not
/// shown of it.
pub trait CredentialSource {
    open spec fn answers(&self) -> Seq<Result<Option<String>, CredentialError>> {
        Seq::empty()
    }

    fn read(&mut self) -> (r: Result<Option<String>, CredentialError>)
        ensures
            final(self).answers() == old(self).answers().push(r),
    ;
}

/// Whether a source that said the first has been asked once more, and no more
/// than that, where it then has said the second.
pub open spec fn is_asked_once(
    before: Seq<Result<Option<String>, CredentialError>>,
    after: Seq<Result<Option<String>, CredentialError>>,
) -> bool {
    after.len() == before.len() + 1 && after.drop_last() == before
}

/// The login Keychain, which is asked through the `security` tool.
#[derive(Clone, Copy, Debug, PartialEq, Eq, Structural)]
pub struct Keychain;

impl Keychain {
    /// What `security` is asked with.
    pub fn arguments(assistant: &Assistant) -> (r: Vec<String>)
        ensures
            text::views(r@) == seq![
                "find-generic-password"@,
                "-s"@,
                assistant::keychain_service(assistant@),
                "-w"@,
            ],
    {
        let mut out: Vec<String> = Vec::new();
        out.push("find-generic-password".to_string());
        out.push("-s".to_string());
        out.push(assistant.keychain_service());
        out.push("-w".to_string());
        assert(text::views(out@) =~= seq![
            "find-generic-password"@,
            "-s"@,
            assistant::keychain_service(assistant@),
            "-w"@,
        ]);
        out
    }

    /// What `security` said: the token, that there is none, or why it failed.
    pub fn reply(code: Option<i32>, output: &str, errors: &str) -> (r: Result<
        Option<String>,
        CredentialError,
    >)
        ensures
            match r {
                Ok(Some(token)) => code == Some(0i32) && token@ == text::trim(output@),
                Ok(None) => code == Some(KEYCHAIN_ITEM_NOT_FOUND),
                Err(error) => code != Some(0i32) && code != Some(KEYCHAIN_ITEM_NOT_FOUND)
                    && error is Keychain && error->Keychain_0@ == text::trim(errors@),
            },
    {
        match code {
            Some(code) => {
                if code == KEYCHAIN_ITEM_NOT_FOUND {
                    Ok(None)
                } else if code == 0 {
                    Ok(Some(text::trimmed(output)))
                } else {
                    Err(CredentialError::Keychain(text::trimmed(errors)))
                }
            },
            None => Err(CredentialError::Keychain(text::trimmed(errors))),
        }
    }
}

/// A source that answers what it was given.
#[derive(Debug, PartialEq)]
pub struct FakeSource {
    /// What it answered each time it was asked.
    pub given: Vec<Option<String>>,
    pub token: Option<String>,
}

impl FakeSource {
    pub fn new(token: Option<String>) -> (r: Self)
        ensures
            r.answers() == Seq::<Result<Option<String>, CredentialError>>::empty(),
            r.token == token,
    {
        let r = FakeSource { given: Vec::new(), token };
        assert(r.answers() =~= seq![]);
        r
    }
}

impl CredentialSource for FakeSource {
    open spec fn answers(&self) -> Seq<Result<Option<String>, CredentialError>> {
        self.given@.map_values(|token: Option<String>| Ok::<Option<String>, CredentialError>(token))
    }

    fn read(&mut self) -> (r: Result<Option<String>, CredentialError>)
        ensures
            r == Ok::<Option<String>, CredentialError>(old(self).token),
            final(self).token == old(self).token,
    {
        let ghost before = self.answers();
        self.given.push(copy_text(&self.token));
        let r = Ok(copy_text(&self.token));
        assert(self.answers() =~= before.push(r));
        r
    }
}

/// What seeding comes to.
#[derive(Debug, PartialEq)]
pub enum Seed {
    /// Nothing is to be written.
    Done(SeedOutcome),
    /// The token is to be written there, for its owner alone; then it is seeded.
    Write { destination: PathBuf, token: String },
}

/// Whether this is what seeding comes to once the source has answered.
pub open spec fn is_seeded(claude_home: Seq<char>, answer: Option<String>, seed: Seed) -> bool {
    match answer {
        None => seed == Seed::Done(SeedOutcome::NotInKeychain),
        Some(secret) => seed matches Seed::Write { destination, token } && token == secret
            && destination@ == paths::joined(claude_home, ".credentials.json"@),
    }
}

/// What seeding comes to once the source has answered.
pub fn seeded(claude_home: &PathBuf, answer: Option<String>) -> (r: Seed)
    ensures
        is_seeded(claude_home@, answer, r),
{
    match answer {
        None => Seed::Done(SeedOutcome::NotInKeychain),
        Some(token) => Seed::Write {
            destination: claude_home.join(CREDENTIALS_FILE_NAME),
            token,
        },
    }
}

/// Seeds the host's token into the bind-mounted assistant home, but only
/// when there is no token there already (`present`): the container refreshes its
/// own token into that same file, and it may be newer than the Keychain's. The
/// source is asked only then, and once.
pub fn seed<S: CredentialSource>(
    claude_home: &PathBuf,
    enabled: bool,
    present: bool,
    source: &mut S,
) -> (r: Result<Seed, CredentialError>)
    ensures
        !enabled ==> r == Ok::<Seed, CredentialError>(Seed::Done(SeedOutcome::Disabled)),
        enabled && present ==> r == Ok::<Seed, CredentialError>(
            Seed::Done(SeedOutcome::KeptExisting),
        ),
        if enabled && !present {
            &&& is_asked_once(old(source).answers(), final(source).answers())
            &&& match final(source).answers().last() {
                Ok(answer) => r is Ok && is_seeded(claude_home@, answer, r->Ok_0),
                Err(error) => r == Err::<Seed, CredentialError>(error),
            }
        } else {
            *final(source) == *old(source)
        },
{
    if !enabled {
        return Ok(Seed::Done(SeedOutcome::Disabled));
    }
    if present {
        return Ok(Seed::Done(SeedOutcome::KeptExisting));
    }
    let ghost before = source.answers();
    let answer = source.read();
    assert(source.answers().drop_last() =~= before);
    match answer {
        Ok(answer) => Ok(seeded(claude_home, answer)),
        Err(error) => Err(error),
    }
}

/// A token that the source has is written whole into the assistant's home, under the
/// name the assistant reads it by; where the source has none, nothing is written.
pub proof fn law_a_token_is_written_where_it_is_read(
    home: Seq<char>,
    answer: Option<String>,
    seed: Seed,
)
    requires
        is_seeded(home, answer, seed),
    ensures
        seed is Write <==> answer is Some,
        answer is Some ==> seed->token == answer->0 && seed->destination@ == paths::joined(
            home,
            ".credentials.json"@,
        ),
        answer is None ==> seed == Seed::Done(SeedOutcome::NotInKeychain),
{
}

/// A source that is asked once has said one thing more, and unsaid nothing.
pub proof fn law_asking_once_adds_one_answer(
    before: Seq<Result<Option<String>, CredentialError>>,
    after: Seq<Result<Option<String>, CredentialError>>,
    i: int,
)
    requires
        is_asked_once(before, after),
    ensures
        after.len() == before.len() + 1,
        0 <= i < before.len() ==> after[i] == before[i],
{
    if 0 <= i < before.len() {
        assert(after.drop_last()[i] == after[i]);
    }
}

/// A token is what was printed, without the white space around it, exactly where the
/// Keychain was read; that there is none is told from a failure to read it.
pub proof fn law_the_keychain_is_read_or_told_apart(
    code: Option<i32>,
    output: &str,
    errors: &str,
    r: Result<Option<String>, CredentialError>,
)
    requires
        call_ensures(Keychain::reply, (code, output, errors), r),
    ensures
        (r matches Ok(Some(_))) <==> code == Some(0i32),
        (r matches Ok(None)) <==> code == Some(44i32),
        r matches Ok(Some(token)) ==> token@ == text::trim(output@),
        r matches Err(CredentialError::Keychain(message)) ==> message@ == text::trim(errors@),
{
}

} // verus!
