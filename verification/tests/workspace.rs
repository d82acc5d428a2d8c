use compostbin::paths::{PathBuf, PathResolver};
use compostbin::workspace::danger::{danger, Danger};
use compostbin::workspace::{Child, Entry, Escape, Escapes, Origin, Workspace, WALK_LIMIT};

fn path(text: &str) -> PathBuf {
    PathBuf::from(text)
}

fn resolver() -> PathResolver {
    PathResolver::new(path("/Users/user/workspace/compostbin"), path("/Users/user"))
}

/// Walks trees that are given as directories and what each holds.
fn escaping_symlinks(
    workspace: &Workspace,
    limit: usize,
    tree: &dyn Fn(&str) -> Vec<Child>,
) -> Escapes {
    let mut walk = workspace.walk(limit);

    'walking: while let Some(directory) = walk.next_directory() {
        for child in tree(directory.as_str()) {
            if !walk.visit(workspace, child) {
                break 'walking;
            }
        }
    }

    walk.found
}

#[test]
fn danger_refuses_paths_holding_credentials() {
    let resolver = resolver();

    assert_eq!(
        danger(&path("/Users/user/.ssh"), &resolver),
        Some(Danger::Sensitive(path("/Users/user/.ssh")))
    );
    assert_eq!(
        danger(&path("/Users/user/.ssh/id_ed25519"), &resolver),
        Some(Danger::Sensitive(path("/Users/user/.ssh"))),
        "a file inside a sensitive directory is just as sensitive"
    );
    assert_eq!(danger(&path("/etc/ssh"), &resolver), Some(Danger::Sensitive(path("/etc"))));
}

#[test]
fn danger_refuses_paths_covering_a_whole_account() {
    let resolver = resolver();

    assert_eq!(danger(&path("/"), &resolver), Some(Danger::Broad(path("/"))));
    assert_eq!(danger(&path("/Users/user"), &resolver), Some(Danger::Broad(path("/Users/user"))));
    assert_eq!(danger(&path("/Users"), &resolver), Some(Danger::Broad(path("/Users"))));
}

#[test]
fn danger_allows_an_ordinary_project() {
    let resolver = resolver();

    assert_eq!(danger(&path("/Users/user/workspace/compostbin"), &resolver), None);
    assert_eq!(
        danger(&path("/Users/user/.sshfoo"), &resolver),
        None,
        "a prefix match is not a containment match"
    );
    assert_eq!(danger(&path("/Users/user/Documents/notes"), &resolver), None);
}

#[test]
fn explains_each_danger() {
    assert_eq!(
        Danger::Broad(path("/Users")).to_string(),
        "/Users covers a whole account or machine, so mounting it mounts every secret under it"
    );
    assert_eq!(
        Danger::Sensitive(path("/Users/user/.ssh")).to_string(),
        "/Users/user/.ssh holds credentials"
    );
}

#[test]
fn finds_a_symlink_escaping_every_mounted_tree() {
    let mut workspace = Workspace::new();
    workspace.push(path("/tmp/project"), None, Origin::Project, false);

    let found = escaping_symlinks(&workspace, WALK_LIMIT, &|directory| match directory {
        "/tmp/project" => vec![Child::Directory(path("/tmp/project/src"))],
        "/tmp/project/src" => vec![Child::Link(
            path("/tmp/project/src/vendor"),
            Some(path("/tmp/elsewhere")),
        )],
        _ => Vec::new(),
    });

    assert_eq!(
        found,
        Escapes {
            escapes: vec![Escape {
                link: path("/tmp/project/src/vendor"),
                target: path("/tmp/elsewhere"),
            }],
            exhausted: false,
        }
    );
}

#[test]
fn accepts_a_symlink_landing_in_another_mounted_tree() {
    let mut workspace = Workspace::new();
    workspace.push(path("/tmp/project"), None, Origin::Project, false);
    workspace.push(path("/tmp/libfoo"), None, Origin::Explicit, true);

    let found = escaping_symlinks(&workspace, WALK_LIMIT, &|directory| match directory {
        "/tmp/project" => {
            vec![Child::Link(path("/tmp/project/vendor"), Some(path("/tmp/libfoo")))]
        }
        _ => Vec::new(),
    });

    assert_eq!(
        found,
        Escapes::default(),
        "the target is mounted too, so the link is live in the container"
    );
}

#[test]
fn ignores_a_link_that_is_broken_on_the_host_as_well() {
    let mut workspace = Workspace::new();
    workspace.push(path("/tmp/project"), None, Origin::Project, false);

    let found = escaping_symlinks(&workspace, WALK_LIMIT, &|directory| match directory {
        "/tmp/project" => vec![Child::Link(path("/tmp/project/dead"), None)],
        _ => Vec::new(),
    });

    assert_eq!(
        found,
        Escapes::default(),
        "equally broken in both places is not a divergence"
    );
}

#[test]
fn never_follows_a_symlinked_directory() {
    let mut workspace = Workspace::new();
    workspace.push(path("/tmp/project"), None, Origin::Project, false);

    let found = escaping_symlinks(&workspace, WALK_LIMIT, &|directory| match directory {
        "/tmp/project" => {
            vec![Child::Link(path("/tmp/project/loop"), Some(path("/tmp/project")))]
        }
        _ => unreachable!("only the project is a directory"),
    });

    assert_eq!(
        found,
        Escapes::default(),
        "a link back into the tree is fine, and descending it would never terminate"
    );
}

#[test]
fn walks_a_nested_entry_once() {
    let mut workspace = Workspace::new();
    workspace.push(path("/tmp/workspace/project"), None, Origin::Project, false);
    workspace.push(path("/tmp/workspace"), None, Origin::Root, false);
    workspace.push(path("/tmp/workspace/project"), None, Origin::Explicit, true);

    let found = escaping_symlinks(&workspace, WALK_LIMIT, &|directory| match directory {
        "/tmp/workspace" => vec![Child::Directory(path("/tmp/workspace/project"))],
        "/tmp/workspace/project" => vec![Child::Link(
            path("/tmp/workspace/project/vendor"),
            Some(path("/tmp/elsewhere")),
        )],
        _ => Vec::new(),
    });

    assert_eq!(workspace.outermost(), [path("/tmp/workspace")]);
    assert_eq!(
        found.escapes,
        [Escape {
            link: path("/tmp/workspace/project/vendor"),
            target: path("/tmp/elsewhere"),
        }]
    );
}

#[test]
fn stops_walking_at_the_limit_and_says_so() {
    let mut workspace = Workspace::new();
    workspace.push(path("/tmp/project"), None, Origin::Project, false);

    let found = escaping_symlinks(&workspace, 4, &|_| {
        (0..8).map(|_| Child::Other).collect()
    });

    assert!(
        found.exhausted,
        "a partial answer must not be reported as a clean tree: {found:?}"
    );
}

#[test]
fn a_tree_of_exactly_the_limit_is_not_exhausted() {
    let mut workspace = Workspace::new();
    workspace.push(path("/tmp/project"), None, Origin::Project, false);

    let found = escaping_symlinks(&workspace, 8, &|_| (0..8).map(|_| Child::Other).collect());

    assert!(!found.exhausted);
}

#[test]
fn mounts_by_basename_under_workspace() {
    let mut workspace = Workspace::new();

    workspace.push(path("/Users/sax/workspace/compostbin"), None, Origin::Project, false);

    assert_eq!(
        workspace.entries(),
        [Entry {
            guest: path("/workspace/compostbin"),
            host: path("/Users/sax/workspace/compostbin"),
            origin: Origin::Project,
            readonly: false,
        }]
    );
}

#[test]
fn keeps_the_host_layout_out_of_the_guest_path() {
    let mut workspace = Workspace::new();

    workspace.push(path("/Users/sax/code/libfoo"), None, Origin::Explicit, true);

    let guest = &workspace.entries()[0].guest;
    assert!(
        !guest.display().contains("sax"),
        "the guest path must not leak the host account: {}",
        guest.display()
    );
}

#[test]
fn disambiguates_a_repeated_basename() {
    let mut workspace = Workspace::new();

    workspace.push(path("/Users/sax/work/libfoo"), None, Origin::Root, false);
    workspace.push(path("/Users/sax/vendor/libfoo"), None, Origin::Explicit, true);
    workspace.push(path("/opt/libfoo"), None, Origin::Explicit, true);

    let guests: Vec<String> = workspace
        .entries()
        .iter()
        .map(|entry| entry.guest.display())
        .collect();
    assert_eq!(
        guests,
        ["/workspace/libfoo", "/workspace/libfoo-2", "/workspace/libfoo-3"]
    );
}

#[test]
fn honours_a_declared_target() {
    let mut workspace = Workspace::new();

    workspace.push(
        path("/Users/sax/code/libfoo"),
        Some(path("/opt/libfoo")),
        Origin::Explicit,
        false,
    );

    assert_eq!(workspace.entries()[0].guest, path("/opt/libfoo"));
}

#[test]
fn translates_a_path_under_an_entry() {
    let mut workspace = Workspace::new();
    workspace.push(path("/Users/sax/workspace"), None, Origin::Root, false);

    assert_eq!(
        workspace.guest_path(&path("/Users/sax/workspace/compostbin/src")),
        Some(path("/workspace/workspace/compostbin/src"))
    );
    assert_eq!(
        workspace.guest_path(&path("/Users/sax/workspace")),
        Some(path("/workspace/workspace"))
    );
}

#[test]
fn translates_nothing_outside_every_entry() {
    let mut workspace = Workspace::new();
    workspace.push(path("/Users/sax/workspace"), None, Origin::Root, false);

    assert_eq!(workspace.guest_path(&path("/Users/sax/other")), None);
    assert_eq!(workspace.guest_path(&path("/Users/sax/workspace-old")), None);
}

#[test]
fn translates_by_the_first_entry_that_covers() {
    let mut workspace = Workspace::new();
    workspace.push(path("/a"), None, Origin::Root, false);
    workspace.push(path("/a/b"), Some(path("/b")), Origin::Explicit, false);

    assert_eq!(workspace.guest_path(&path("/a/b/c")), Some(path("/workspace/a/b/c")));
}
