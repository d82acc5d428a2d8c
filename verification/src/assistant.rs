//! The assistant that a session runs: a coding agent that is known by the name of
//! its program. The paths, variables, scripts and messages that are called after
//! it are said here, as functions of that name.
use crate::paths;
use crate::text;
use vstd::prelude::*;

verus! {

/// An assistant, by the name of its program.
#[derive(Debug, PartialEq, Eq)]
pub struct Assistant {
    pub name: String,
}

impl View for Assistant {
    type V = Seq<char>;

    open spec fn view(&self) -> Seq<char> {
        self.name@
    }
}

impl Clone for Assistant {
    fn clone(&self) -> (r: Self)
        ensures
            r@ == self@,
    {
        Assistant { name: self.name.clone() }
    }
}

// ---------------------------------------------------------------------------
// Names
// ---------------------------------------------------------------------------

/// Whether a name is a word in lower case, as the names of programs are.
pub open spec fn is_word(name: Seq<char>) -> bool {
    &&& name.len() > 0
    &&& forall|i: int| 0 <= i < name.len() ==> 'a' <= #[trigger] name[i] <= 'z'
}

/// A letter in upper case; any other character as it is.
pub open spec fn raised(c: char) -> char {
    if 'a' <= c <= 'z' {
        ((c as u8) - 32) as char
    } else {
        c
    }
}

/// A letter in lower case; any other character as it is.
pub open spec fn lowered(c: char) -> char {
    if 'A' <= c <= 'Z' {
        ((c as u8) + 32) as char
    } else {
        c
    }
}

/// A name in upper case.
pub open spec fn shouted(name: Seq<char>) -> Seq<char> {
    name.map_values(|c: char| raised(c))
}

/// A name with its first letter in upper case.
pub open spec fn capitalized(name: Seq<char>) -> Seq<char> {
    if name.len() == 0 {
        name
    } else {
        name.update(0, raised(name[0]))
    }
}

/// The variable that names the home of the assistant that sessions run. What comes
/// before its first underscore is that assistant's name, in upper case.
pub const HOME_VARIABLE: &'static str = "CLAUDE_CONFIG_DIR";

impl Default for Assistant {
    /// The assistant that sessions run: the one whose home `HOME_VARIABLE` names.
    fn default() -> (r: Self)
        ensures
            is_word(r@),
            home_variable(r@) == HOME_VARIABLE@,
    {
        proof {
            reveal_strlit("CLAUDE_CONFIG_DIR");
            reveal_strlit("_CONFIG_DIR");
        }
        let chars = text::chars_of(HOME_VARIABLE);
        let mut name = String::new();
        let mut i: usize = 0;
        assert(shouted(name@) =~= chars@.take(0));
        while i < chars.len() && chars[i] != '_'
            invariant
                chars@ == HOME_VARIABLE@,
                chars@ == "CLAUDE_CONFIG_DIR"@,
                i <= chars@.len(),
                name@.len() == i,
                shouted(name@) == chars@.take(i as int),
                forall|j: int| 0 <= j < i ==> (#[trigger] chars@[j]) != '_',
                forall|j: int| 0 <= j < i ==> name@[j] == lowered(#[trigger] chars@[j]),
            decreases chars.len() - i,
        {
            proof {
                reveal_strlit("CLAUDE_CONFIG_DIR");
            }
            let c = lower(chars[i]);
            let ghost before = name@;
            assert(chars@[6] == '_');
            assert(i < 6);
            assert('A' <= chars@[i as int] <= 'Z');
            name.push(c);
            assert(shouted(name@) =~= shouted(before).push(raised(c)));
            assert(chars@.take(i + 1) =~= chars@.take(i as int).push(chars@[i as int]));
            i = i + 1;
        }
        proof {
            reveal_strlit("CLAUDE_CONFIG_DIR");
            assert(chars@[6] == '_');
            assert(i == 6);
            assert forall|j: int| 0 <= j < name@.len() implies 'a' <= #[trigger] name@[j]
                <= 'z' by {
                assert(name@[j] == lowered(chars@[j]));
            }
            assert(home_variable(name@) =~= HOME_VARIABLE@);
        }
        Assistant { name }
    }
}

/// Two assistants with the same variable are the same: what is said of the name
/// of the one that sessions run leaves no other.
pub proof fn law_the_variable_tells_the_assistant(a: Seq<char>, b: Seq<char>)
    requires
        is_word(a),
        is_word(b),
        home_variable(a) == home_variable(b),
    ensures
        a == b,
{
    assert(home_variable(a).len() == a.len() + "_CONFIG_DIR"@.len());
    assert(home_variable(b).len() == b.len() + "_CONFIG_DIR"@.len());
    assert forall|i: int| 0 <= i < a.len() implies a[i] == b[i] by {
        assert(home_variable(a)[i] == raised(a[i]));
        assert(home_variable(b)[i] == raised(b[i]));
    }
    assert(a =~= b);
}

// ---------------------------------------------------------------------------
// What is called after the assistant
// ---------------------------------------------------------------------------

/// The home of the guest user, who is called as the assistant is.
pub open spec fn user_home(name: Seq<char>) -> Seq<char> {
    "/home/"@ + name
}

/// Where the assistant's own home is mounted inside the container.
pub open spec fn guest_home(name: Seq<char>) -> Seq<char> {
    "/home/"@ + name + "/."@ + name
}

/// The variable that names the assistant's home.
pub open spec fn home_variable(name: Seq<char>) -> Seq<char> {
    shouted(name) + "_CONFIG_DIR"@
}

/// The host user's own home of the assistant.
pub open spec fn host_home(name: Seq<char>) -> Seq<char> {
    "~/."@ + name
}

/// What the assistant's home is called under the session state directory.
pub open spec fn kept_home(name: Seq<char>) -> Seq<char> {
    name + "-home"@
}

/// The file that holds the user's house style.
pub open spec fn guide(name: Seq<char>) -> Seq<char> {
    shouted(name) + ".md"@
}

/// The assistant's managed settings directory.
pub open spec fn settings_dir(name: Seq<char>) -> Seq<char> {
    "/etc/"@ + name + "-code"@
}

/// The managed settings.
pub open spec fn settings(name: Seq<char>) -> Seq<char> {
    SETTINGS_HEAD@ + settings_dir(name) + SETTINGS_TAIL@
}

/// The Keychain item that the host's assistant writes its token to.
pub open spec fn keychain_service(name: Seq<char>) -> Seq<char> {
    capitalized(name) + " Code-credentials"@
}

/// The build step that installs the assistant.
pub open spec fn install_step(name: Seq<char>) -> Seq<char> {
    name + " code"@
}

/// What installs the assistant.
pub open spec fn install_script(name: Seq<char>) -> Seq<char> {
    "curl -fsSL https://"@ + name
        + ".ai/install.sh | bash \\\n && mv /root/.local/share/"@ + name
        + "/versions/* /usr/local/bin/"@ + name
}

/// What creates the guest user, and the directories that the mounts land on.
pub open spec fn account_script(name: Seq<char>) -> Seq<char> {
    "mkdir -p "@ + settings_dir(name) + " \\\n && useradd --create-home --shell /bin/bash "@ + name
        + " \\\n && mkdir -p "@ + guest_home(name) + " /workspace \\\n && chown -R "@ + name + ":"@
        + name + " "@ + user_home(name) + " /workspace"@
}

/// What comes before the path of the managed settings in them. A `SessionStart`
/// hook's stdout is added to the assistant's context, so the briefing is a file
/// the hook prints rather than anything the guest has to find.
pub const SETTINGS_HEAD: &'static str = "{\n  \"hooks\": {\n    \"SessionStart\": [\n      {\n        \"hooks\": [\n          {\n            \"type\": \"command\",\n            \"command\": \"cat ";

/// What comes after it.
pub const SETTINGS_TAIL: &'static str = "/session-context.txt\"\n          }\n        ]\n      }\n    ]\n  }\n}\n";

impl Assistant {
    pub fn new(name: &str) -> (r: Self)
        ensures
            r@ == name@,
    {
        Assistant { name: name.to_string() }
    }

    fn shout(&self) -> (r: String)
        ensures
            r@ == shouted(self@),
    {
        let chars = text::chars_of(self.name.as_str());
        let mut out = String::new();
        let mut i: usize = 0;
        assert(out@ =~= shouted(self@.take(0)));
        while i < chars.len()
            invariant
                chars@ == self@,
                i <= chars@.len(),
                out@ == shouted(self@.take(i as int)),
            decreases chars.len() - i,
        {
            assert(shouted(self@.take(i + 1)) =~= shouted(self@.take(i as int)).push(
                raised(self@[i as int]),
            ));
            out.push(raise(chars[i]));
            i = i + 1;
        }
        assert(self@.take(i as int) =~= self@);
        out
    }

    fn capitalize(&self) -> (r: String)
        ensures
            r@ == capitalized(self@),
    {
        let chars = text::chars_of(self.name.as_str());
        let mut out = String::new();
        let mut i: usize = 0;
        assert(out@ =~= capitalized(self@).take(0));
        while i < chars.len()
            invariant
                chars@ == self@,
                i <= chars@.len(),
                out@ == capitalized(self@).take(i as int),
            decreases chars.len() - i,
        {
            let c = if i == 0 {
                raise(chars[i])
            } else {
                chars[i]
            };
            assert(capitalized(self@).take(i + 1) =~= capitalized(self@).take(i as int).push(c));
            out.push(c);
            i = i + 1;
        }
        assert(capitalized(self@).take(i as int) =~= capitalized(self@));
        out
    }

    pub fn user_home(&self) -> (r: String)
        ensures
            r@ == user_home(self@),
    {
        let mut out = "/home/".to_string();
        out.append(self.name.as_str());
        out
    }

    pub fn guest_home(&self) -> (r: String)
        ensures
            r@ == guest_home(self@),
    {
        let mut out = self.user_home();
        out.append("/.");
        out.append(self.name.as_str());
        out
    }

    pub fn home_variable(&self) -> (r: String)
        ensures
            r@ == home_variable(self@),
    {
        let mut out = self.shout();
        out.append("_CONFIG_DIR");
        out
    }

    pub fn host_home(&self) -> (r: String)
        ensures
            r@ == host_home(self@),
    {
        let mut out = "~/.".to_string();
        out.append(self.name.as_str());
        out
    }

    pub fn kept_home(&self) -> (r: String)
        ensures
            r@ == kept_home(self@),
    {
        let mut out = self.name.clone();
        out.append("-home");
        out
    }

    pub fn guide(&self) -> (r: String)
        ensures
            r@ == guide(self@),
    {
        let mut out = self.shout();
        out.append(".md");
        out
    }

    pub fn settings_dir(&self) -> (r: String)
        ensures
            r@ == settings_dir(self@),
    {
        let mut out = "/etc/".to_string();
        out.append(self.name.as_str());
        out.append("-code");
        out
    }

    pub fn settings(&self) -> (r: String)
        ensures
            r@ == settings(self@),
    {
        let mut out = SETTINGS_HEAD.to_string();
        out.append(self.settings_dir().as_str());
        out.append(SETTINGS_TAIL);
        out
    }

    pub fn keychain_service(&self) -> (r: String)
        ensures
            r@ == keychain_service(self@),
    {
        let mut out = self.capitalize();
        out.append(" Code-credentials");
        out
    }

    pub fn install_step(&self) -> (r: String)
        ensures
            r@ == install_step(self@),
    {
        let mut out = self.name.clone();
        out.append(" code");
        out
    }

    pub fn install_script(&self) -> (r: String)
        ensures
            r@ == install_script(self@),
    {
        let mut out = "curl -fsSL https://".to_string();
        out.append(self.name.as_str());
        out.append(".ai/install.sh | bash \\\n && mv /root/.local/share/");
        out.append(self.name.as_str());
        out.append("/versions/* /usr/local/bin/");
        out.append(self.name.as_str());
        out
    }

    pub fn account_script(&self) -> (r: String)
        ensures
            r@ == account_script(self@),
    {
        let mut out = "mkdir -p ".to_string();
        out.append(self.settings_dir().as_str());
        out.append(" \\\n && useradd --create-home --shell /bin/bash ");
        out.append(self.name.as_str());
        out.append(" \\\n && mkdir -p ");
        out.append(self.guest_home().as_str());
        out.append(" /workspace \\\n && chown -R ");
        out.append(self.name.as_str());
        out.append(":");
        out.append(self.name.as_str());
        out.append(" ");
        out.append(self.user_home().as_str());
        out.append(" /workspace");
        out
    }
}

fn lower(c: char) -> (r: char)
    ensures
        r == lowered(c),
{
    if 'A' <= c && c <= 'Z' {
        (c as u8 + 32) as char
    } else {
        c
    }
}

fn raise(c: char) -> (r: char)
    ensures
        r == raised(c),
{
    if 'a' <= c && c <= 'z' {
        (c as u8 - 32) as char
    } else {
        c
    }
}

/// A letter in lower case is raised to the same letter in upper case, and one in
/// upper case lowered to the same in lower case; nothing else is changed.
pub proof fn law_raising_and_lowering_are_inverse(c: char)
    ensures
        'a' <= c <= 'z' ==> raised(c) as int == c as int - 32 && lowered(raised(c)) == c,
        'A' <= c <= 'Z' ==> lowered(c) as int == c as int + 32 && raised(lowered(c)) == c,
        !('a' <= c <= 'z') ==> raised(c) == c,
        !('A' <= c <= 'Z') ==> lowered(c) == c,
{
}

/// The guest user's home, the assistant's home in it, its settings and its keychain
/// item are all called after the assistant.
pub proof fn law_everything_is_called_after_the_assistant(name: Seq<char>)
    requires
        name.len() > 0,
    ensures
        user_home(name) == paths::joined("/home"@, name) || paths::is_rooted(name),
        guest_home(name) == paths::joined(user_home(name), "."@ + name) || name.last() == '/',
        home_variable(name) == shouted(name) + "_CONFIG_DIR"@,
        guide(name) == shouted(name) + ".md"@,
        shouted(name).len() == name.len(),
        forall|i: int| 0 <= i < name.len() ==> #[trigger] shouted(name)[i] == raised(name[i]),
        name.is_suffix_of(host_home(name)),
        name.is_prefix_of(kept_home(name)),
        keychain_service(name) == seq![raised(name[0])] + name.skip(1) + " Code-credentials"@,
{
    reveal_strlit("/home/");
    reveal_strlit("/home");
    reveal_strlit("/.");
    reveal_strlit(".");
    if !paths::is_rooted(name) {
        assert(user_home(name) =~= paths::joined("/home"@, name));
    }
    if name.last() != '/' {
        assert(user_home(name).last() == name.last());
        assert(guest_home(name) =~= paths::joined(user_home(name), "."@ + name));
    }
    let host = host_home(name);
    assert(name =~= host.subrange(host.len() - name.len(), host.len() as int));
    assert(name =~= kept_home(name).subrange(0, name.len() as int));
    assert(capitalized(name) =~= seq![raised(name[0])] + name.skip(1));
}

/// The settings print the briefing from where it is mounted; the account that is
/// created is the assistant's, and owns its home and the workspace.
pub proof fn law_the_guest_is_set_up_for_the_assistant(name: Seq<char>)
    ensures
        text::contains_text(settings(name), settings_dir(name) + SETTINGS_TAIL@),
        text::contains_text(account_script(name), "mkdir -p "@ + settings_dir(name)),
        text::contains_text(account_script(name), " /workspace \\\n && chown -R "@ + name + ":"@ + name),
        text::contains_text(account_script(name), guest_home(name)),
        (user_home(name) + " /workspace"@).is_suffix_of(account_script(name)),
        ("/usr/local/bin/"@ + name).is_suffix_of(install_script(name)),
{
    let shown = settings(name);
    let tail = settings_dir(name) + SETTINGS_TAIL@;
    let from = SETTINGS_HEAD@.len() as int;
    assert(shown.subrange(from, from + tail.len()) =~= tail);
    let script = account_script(name);
    let first = "mkdir -p "@ + settings_dir(name);
    assert(script.subrange(0int, 0int + first.len()) =~= first);
    let before = "mkdir -p "@ + settings_dir(name)
        + " \\\n && useradd --create-home --shell /bin/bash "@ + name + " \\\n && mkdir -p "@;
    let home = guest_home(name);
    let at = before.len() as int;
    assert(script.subrange(at, at + home.len()) =~= home);
    let owned = " /workspace \\\n && chown -R "@ + name + ":"@ + name;
    let then = at + home.len();
    assert(script.subrange(then, then + owned.len()) =~= owned);
    let end = user_home(name) + " /workspace"@;
    assert(end =~= script.subrange(script.len() - end.len(), script.len() as int));
    let install = install_script(name);
    let placed = "/usr/local/bin/"@ + name;
    reveal_strlit("/versions/* /usr/local/bin/");
    reveal_strlit("/usr/local/bin/");
    assert(placed =~= install.subrange(install.len() - placed.len(), install.len() as int));
}

} // verus!
