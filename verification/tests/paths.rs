use compostbin::paths::{root_containing, PathBuf, PathResolver};
use compostbin::workspace::danger::{danger, Danger};

fn path(text: &str) -> PathBuf {
    PathBuf::from(text)
}

fn resolver() -> PathResolver {
    PathResolver::new(path("/Users/user/workspace/compostbin"), path("/Users/user"))
}

#[test]
fn paths_refuses_paths_holding_credentials() {
    let resolver = resolver();

    assert_eq!(
        danger(&path("/Users/user/.ssh"), &resolver),
        Some(Danger::Sensitive(path("/Users/user/.ssh")))
    );
    assert_eq!(
        danger(&path("/Users/user/.ssh/id_ed25519"), &resolver),
        Some(Danger::Sensitive(path("/Users/user/.ssh"))),
        "a file inside a sensitive directory is just as sensitive"
    );
    assert_eq!(danger(&path("/etc/ssh"), &resolver), Some(Danger::Sensitive(path("/etc"))));
}

#[test]
fn paths_refuses_paths_covering_a_whole_account() {
    let resolver = resolver();

    assert_eq!(danger(&path("/"), &resolver), Some(Danger::Broad(path("/"))));
    assert_eq!(danger(&path("/Users/user"), &resolver), Some(Danger::Broad(path("/Users/user"))));
    assert_eq!(danger(&path("/Users"), &resolver), Some(Danger::Broad(path("/Users"))));
}

#[test]
fn paths_allows_an_ordinary_project() {
    let resolver = resolver();

    assert_eq!(danger(&path("/Users/user/workspace/compostbin"), &resolver), None);
    assert_eq!(
        danger(&path("/Users/user/.sshfoo"), &resolver),
        None,
        "a prefix match is not a containment match"
    );
    assert_eq!(danger(&path("/Users/user/Documents/notes"), &resolver), None);
}

#[test]
fn finds_containing_root() {
    let roots = [path("/Users/user/code"), path("/Users/user/workspace")];

    assert_eq!(
        root_containing(&path("/Users/user/workspace/compostbin/src"), &roots),
        Some(&path("/Users/user/workspace"))
    );
    assert_eq!(root_containing(&path("/Users/user/code"), &roots), Some(&path("/Users/user/code")));
    assert_eq!(root_containing(&path("/opt/homebrew"), &roots), None);
}

#[test]
fn rejects_prefix_match() {
    let roots = [path("/Users/user/workspace")];

    assert_eq!(root_containing(&path("/Users/user/workspaces/other"), &roots), None);
    assert_eq!(root_containing(&path("/Users/user/workspace-old"), &roots), None);
}

#[test]
fn expands_tilde() {
    assert_eq!(resolver().resolve("~/workspace"), path("/Users/user/workspace"));
    assert_eq!(resolver().resolve("~"), path("/Users/user"));
    assert_eq!(resolver().resolve("~/"), path("/Users/user"));
}

#[test]
fn makes_relative_absolute() {
    assert_eq!(resolver().resolve("src"), path("/Users/user/workspace/compostbin/src"));
    assert_eq!(resolver().resolve("./src"), path("/Users/user/workspace/compostbin/./src"));
    assert_eq!(
        resolver().resolve("../sibling"),
        path("/Users/user/workspace/compostbin/../sibling")
    );
    assert_eq!(resolver().resolve("/opt/homebrew"), path("/opt/homebrew"));
}

#[test]
fn treats_bare_tilde_prefix_as_literal() {
    assert_eq!(
        resolver().resolve("~workspace"),
        path("/Users/user/workspace/compostbin/~workspace")
    );
}

#[test]
fn paths_are_equal_by_component() {
    assert_eq!(path("/a//b/"), path("/a/b"));
    assert_eq!(path("/a/./b"), path("/a/b"));
    assert_ne!(path("a/b"), path("/a/b"));
    assert_ne!(path("/a/../b"), path("/b"));
    assert_ne!(path("./a"), path("a"));
}

#[test]
fn joins_strips_and_names() {
    assert_eq!(path("/a").join("b").as_str(), "/a/b");
    assert_eq!(path("/a/").join("b").as_str(), "/a/b");
    assert_eq!(path("/a").join("/b").as_str(), "/b");
    assert_eq!(path("").join("b").as_str(), "b");
    assert_eq!(path("/a/b").file_name(), Some("b".to_string()));
    assert_eq!(path("/a/b/").file_name(), Some("b".to_string()));
    assert_eq!(path("/a/..").file_name(), None);
    assert_eq!(path("/").file_name(), None);
    assert_eq!(path("/a/b/c").strip_prefix(&path("/a")), Some(path("b/c")));
    assert_eq!(path("/a/b").strip_prefix(&path("/b")), None);
    assert_eq!(
        path("/p/.config/compostbin.toml").with_extension("local.toml"),
        path("/p/.config/compostbin.local.toml")
    );
}

#[test]
fn what_is_stripped_joins_back() {
    let whole = path("/Users/user/workspace/compostbin/src");
    let base = path("/Users/user/workspace");
    let rest = whole.strip_prefix(&base).expect("the base is a prefix");

    assert_eq!(base.join(rest.as_str()), whole);
}
