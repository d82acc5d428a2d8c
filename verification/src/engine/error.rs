//! What the engine or the builder could not do.
use vstd::prelude::*;

verus! {

/// Something the engine or the builder could not do, named by the action: what
/// was attempted and what the attempt said.
#[derive(Debug, PartialEq, Eq)]
pub enum EngineError {
    /// It was attempted and it failed.
    Failed { action: String, message: String },
    /// It could not be attempted: something the engine needs is missing or
    /// unreadable. Distinct from `Failed` because the fix is different: provision
    /// the thing, rather than look at why it failed.
    Unavailable { action: String, message: String },
}

/// An `EngineError`, its texts as sequences of characters.
pub enum EngineErrorView {
    Failed { action: Seq<char>, message: Seq<char> },
    Unavailable { action: Seq<char>, message: Seq<char> },
}

impl View for EngineError {
    type V = EngineErrorView;

    open spec fn view(&self) -> EngineErrorView {
        match self {
            EngineError::Failed { action, message } => EngineErrorView::Failed {
                action: action@,
                message: message@,
            },
            EngineError::Unavailable { action, message } => EngineErrorView::Unavailable {
                action: action@,
                message: message@,
            },
        }
    }
}

impl EngineErrorView {
    /// What was attempted.
    pub open spec fn action(self) -> Seq<char> {
        match self {
            EngineErrorView::Failed { action, .. } => action,
            EngineErrorView::Unavailable { action, .. } => action,
        }
    }

    /// The sentence that reports the error.
    pub open spec fn sentence(self) -> Seq<char> {
        match self {
            EngineErrorView::Failed { action, message } => "could not "@ + action + ": "@ + message,
            EngineErrorView::Unavailable { action, message } => "cannot "@ + action + ": "@
                + message,
        }
    }
}

impl EngineError {
    pub fn failed(action: &str, message: &str) -> (r: Self)
        ensures
            r@ == (EngineErrorView::Failed { action: action@, message: message@ }),
    {
        EngineError::Failed { action: action.to_string(), message: message.to_string() }
    }

    pub fn unavailable(action: &str, message: &str) -> (r: Self)
        ensures
            r@ == (EngineErrorView::Unavailable { action: action@, message: message@ }),
    {
        EngineError::Unavailable { action: action.to_string(), message: message.to_string() }
    }

    /// What was attempted.
    pub fn action(&self) -> (r: &str)
        ensures
            r@ == self@.action(),
    {
        match self {
            EngineError::Failed { action, .. } => action.as_str(),
            EngineError::Unavailable { action, .. } => action.as_str(),
        }
    }

    /// The sentence that reports the error.
    pub fn to_string(&self) -> (r: String)
        ensures
            r@ == self@.sentence(),
    {
        match self {
            EngineError::Failed { action, message } => {
                let mut out = "could not ".to_string();
                out.append(action.as_str());
                out.append(": ");
                out.append(message.as_str());
                out
            },
            EngineError::Unavailable { action, message } => {
                let mut out = "cannot ".to_string();
                out.append(action.as_str());
                out.append(": ");
                out.append(message.as_str());
                out
            },
        }
    }
}

/// An error says what was attempted, and ends with what was said of it; one that was
/// never attempted is told apart.
pub proof fn law_errors_say_what_was_attempted(action: Seq<char>, message: Seq<char>)
    ensures
        ({
            let failed = EngineErrorView::Failed { action, message };
            let unavailable = EngineErrorView::Unavailable { action, message };
            &&& failed.action() == action && unavailable.action() == action
            &&& ("could not "@ + action + ": "@).is_prefix_of(failed.sentence())
            &&& ("cannot "@ + action + ": "@).is_prefix_of(unavailable.sentence())
            &&& message.is_suffix_of(failed.sentence())
            &&& message.is_suffix_of(unavailable.sentence())
        }),
{
    let a = EngineErrorView::Failed { action, message }.sentence();
    let b = EngineErrorView::Unavailable { action, message }.sentence();
    let x = "could not "@ + action + ": "@;
    let y = "cannot "@ + action + ": "@;
    assert(x =~= a.subrange(0, x.len() as int));
    assert(y =~= b.subrange(0, y.len() as int));
    assert(message =~= a.subrange(a.len() - message.len(), a.len() as int));
    assert(message =~= b.subrange(b.len() - message.len(), b.len() as int));
}

} // verus!
