use compostbin::engine::error::EngineError;
use compostbin::error::{
    CredentialError, HostError, ImageError, ManifestError, PathError, Refusal, SessionError,
};
use compostbin::paths::PathBuf;

fn gone() -> PathError {
    PathError::new(PathBuf::from("/nowhere"), "no such file".to_string(), true)
}

fn engine() -> EngineError {
    EngineError::failed("boot", "no kernel")
}

#[test]
fn says_what_was_attempted_and_what_it_said() {
    assert_eq!(
        EngineError::failed("boot compostbin-cb", "no kernel at /nowhere").to_string(),
        "could not boot compostbin-cb: no kernel at /nowhere"
    );
    assert_eq!(
        EngineError::unavailable("read the image store", "it has never been built").to_string(),
        "cannot read the image store: it has never been built"
    );
}

#[test]
fn a_path_error_names_its_path() {
    assert_eq!(gone().to_string(), "/nowhere: no such file");
    assert_eq!(gone().path(), &PathBuf::from("/nowhere"));
    assert!(gone().is_not_found());
    assert_eq!(gone().source(), Some("no such file".to_string()));
}

#[test]
fn every_manifest_error_names_the_file() {
    let path = PathBuf::from("/p/.config/compostbin.toml");
    let parse = ManifestError::Parse { path: path.clone(), source: "bad key".to_string() };
    let render = ManifestError::Render { path: path.clone(), source: "no table".to_string() };

    assert_eq!(parse.to_string(), "/p/.config/compostbin.toml: bad key");
    assert_eq!(render.to_string(), "/p/.config/compostbin.toml: no table");
    assert_eq!(parse.path(), &path);
    assert_eq!(ManifestError::from(gone()).to_string(), "/nowhere: no such file");
    assert_eq!(ManifestError::from(gone()).path(), &PathBuf::from("/nowhere"));
}

#[test]
fn a_variant_that_only_widens_reads_as_what_it_holds() {
    assert_eq!(CredentialError::from(gone()).to_string(), "/nowhere: no such file");
    assert_eq!(
        CredentialError::Keychain("locked".to_string()).to_string(),
        "reading the login Keychain: locked"
    );
    assert_eq!(CredentialError::Keychain("locked".to_string()).source(), None);
    assert_eq!(ImageError::from(engine()).to_string(), "could not boot: no kernel");
    assert_eq!(ImageError::from(gone()).to_string(), "/nowhere: no such file");
    assert_eq!(SessionError::from(engine()).to_string(), "could not boot: no kernel");
    assert_eq!(SessionError::from(gone()).to_string(), "/nowhere: no such file");
    assert_eq!(
        SessionError::from(CredentialError::Keychain("locked".to_string())).to_string(),
        "reading the login Keychain: locked"
    );
    assert_eq!(
        SessionError::from(ManifestError::from(gone())).to_string(),
        "recording the container's mounts: /nowhere: no such file"
    );
    assert_eq!(HostError::from(gone()).to_string(), "/nowhere: no such file");
}

#[test]
fn every_refusal_says_what_it_refused() {
    for (refusal, said) in [
        (Refusal::UnknownCommand("rm".to_string()), "\"rm\" is not in [host.commands]"),
        (
            Refusal::ArgumentsNotAllowed("test".to_string()),
            "\"test\" takes no arguments; declare `arguments = true` on it to allow them",
        ),
        (
            Refusal::DeniedArgument("--config".to_string()),
            "the argument \"--config\" is refused by this command's `deny` list",
        ),
        (
            Refusal::NewlineInArgument("one\ntwo".to_string()),
            "an argument may not contain a newline, which \"one\ntwo\" does",
        ),
        (
            Refusal::EmptyCommand("noop".to_string()),
            "\"noop\" has an empty argv, so it names nothing to run",
        ),
        (Refusal::EmptyRequest, "the request names no command"),
    ] {
        assert_eq!(refusal.to_string(), said);
        assert_eq!(HostError::from(refusal).to_string(), said);
    }
}
