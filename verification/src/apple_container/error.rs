//! A failed `container` invocation.
use crate::text;
use vstd::prelude::*;

verus! {

/// How a command ended that did not succeed.
#[derive(Debug, PartialEq, Eq)]
pub struct Exit {
    /// `None` when a signal ended it.
    pub code: Option<i32>,
    /// How the system describes it.
    pub shown: String,
}

/// A failed `container` invocation. Carries the argv and captured stderr: a bare
/// exit status says nothing about what to fix.
#[derive(Debug, PartialEq, Eq)]
pub enum EngineError {
    /// The command ran and exited non-zero.
    Failed { argv: Vec<String>, status: Exit, stderr: String },
    /// The command could not be spawned at all. `source` is why.
    Spawn { argv: Vec<String>, source: String },
}

/// An `EngineError`, its texts as sequences of characters.
pub enum EngineErrorView {
    Failed { argv: Seq<Seq<char>>, code: Option<i32>, shown: Seq<char>, stderr: Seq<char> },
    Spawn { argv: Seq<Seq<char>>, source: Seq<char> },
}

impl View for EngineError {
    type V = EngineErrorView;

    open spec fn view(&self) -> EngineErrorView {
        match self {
            EngineError::Failed { argv, status, stderr } => EngineErrorView::Failed {
                argv: text::views(argv@),
                code: status.code,
                shown: status.shown@,
                stderr: stderr@,
            },
            EngineError::Spawn { argv, source } => EngineErrorView::Spawn {
                argv: text::views(argv@),
                source: source@,
            },
        }
    }
}

impl EngineErrorView {
    /// What was invoked.
    pub open spec fn invoked(self) -> Seq<Seq<char>> {
        match self {
            EngineErrorView::Failed { argv, .. } => argv,
            EngineErrorView::Spawn { argv, .. } => argv,
        }
    }

    /// The sentence that reports the error.
    pub open spec fn sentence(self) -> Seq<char> {
        let command = text::join(self.invoked(), " "@);
        match self {
            EngineErrorView::Failed { shown, stderr, .. } => {
                let failed = "`container "@ + command + "` failed ("@ + shown + ")"@;
                if text::trim(stderr).len() == 0 {
                    failed
                } else {
                    failed + ": "@ + text::trim(stderr)
                }
            },
            EngineErrorView::Spawn { source, .. } => "could not run `container "@ + command
                + "`: "@ + source,
        }
    }
}

impl EngineError {
    pub fn argv(&self) -> (r: &Vec<String>)
        ensures
            text::views(r@) == self@.invoked(),
    {
        match self {
            EngineError::Failed { argv, .. } => argv,
            EngineError::Spawn { argv, .. } => argv,
        }
    }

    pub fn exit_code(&self) -> (r: Option<i32>)
        ensures
            r == (match *self {
                EngineError::Failed { status, .. } => status.code,
                EngineError::Spawn { .. } => None,
            }),
    {
        match self {
            EngineError::Failed { status, .. } => status.code,
            EngineError::Spawn { .. } => None,
        }
    }

    /// The sentence that reports the error.
    pub fn to_string(&self) -> (r: String)
        ensures
            r@ == self@.sentence(),
    {
        let command = text::joined(self.argv(), " ");
        match self {
            EngineError::Failed { status, stderr, .. } => {
                let mut out = "`container ".to_string();
                out.append(command.as_str());
                out.append("` failed (");
                out.append(status.shown.as_str());
                out.append(")");
                let said = text::trimmed(stderr.as_str());
                if said.as_str().unicode_len() > 0 {
                    out.append(": ");
                    out.append(said.as_str());
                }
                out
            },
            EngineError::Spawn { source, .. } => {
                let mut out = "could not run `container ".to_string();
                out.append(command.as_str());
                out.append("`: ");
                out.append(source.as_str());
                out
            },
        }
    }

    /// What caused the error, where something else did.
    pub fn source(&self) -> (r: Option<String>)
        ensures
            r == (match *self {
                EngineError::Failed { .. } => None,
                EngineError::Spawn { source, .. } => Some(source),
            }),
    {
        match self {
            EngineError::Failed { .. } => None,
            EngineError::Spawn { source, .. } => Some(source.clone()),
        }
    }
}

/// A failure of the tool says what it was called with, and ends with what it printed
/// of it, where it printed anything.
pub proof fn law_failures_say_what_was_called(error: EngineErrorView)
    ensures
        text::contains_text(
            error.sentence(),
            "container "@ + text::join(error.invoked(), " "@) + "`"@,
        ),
        match error {
            EngineErrorView::Failed { stderr, .. } => text::trim(stderr).is_suffix_of(
                error.sentence(),
            ),
            EngineErrorView::Spawn { source, .. } => source.is_suffix_of(error.sentence()),
        },
{
    let said = error.sentence();
    let called = "container "@ + text::join(error.invoked(), " "@) + "`"@;
    reveal_strlit("`container ");
    reveal_strlit("could not run `container ");
    reveal_strlit("container ");
    reveal_strlit("`");
    reveal_strlit("` failed (");
    reveal_strlit("`: ");
    match error {
        EngineErrorView::Failed { stderr, .. } => {
            assert(said.subrange(1int, 1int + called.len()) =~= called);
            let end = text::trim(stderr);
            assert(end =~= said.subrange(said.len() - end.len(), said.len() as int));
        },
        EngineErrorView::Spawn { source, .. } => {
            assert(said.subrange(15int, 15int + called.len()) =~= called);
            assert(source =~= said.subrange(said.len() - source.len(), said.len() as int));
        },
    }
}

} // verus!
