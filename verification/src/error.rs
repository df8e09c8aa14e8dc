//! The ways in which a compilation fails.
use vstd::prelude::*;
use vstd::string::StringExecFns;

verus! {

/// Model of a `CompileError`.
pub enum CompileErrorView {
    SyntaxError(Seq<char>),
    UndefinedVariableError(Seq<char>),
    ArgumentCountError(Seq<char>, nat, nat),
    InvalidArgumentTypeError(Seq<char>, nat),
    DuplicateIdAttributeError(Seq<char>),
    InternalInvariantError,
}

/// Why a compilation was given up. Every error fails the whole compilation.
#[derive(Debug, PartialEq, Eq)]
pub enum CompileError {
    /// Malformed input, with the front end's message.
    SyntaxError(String),
    /// A reference to a name that no enclosing scope defines.
    UndefinedVariableError(String),
    /// A reference to `name` that takes `expected` arguments and was given
    /// `got`: the fields are name, expected, got.
    ArgumentCountError(String, usize, usize),
    /// An argument that is neither a string literal nor a plain reference:
    /// the fields are the name of the macro that was called and the
    /// argument's position, counted from 0.
    InvalidArgumentTypeError(String, usize),
    /// More than one id shorthand on the element with this tag.
    DuplicateIdAttributeError(String),
    /// A defect of the front end or of the engine, never of the input: a
    /// node of a kind that the engine does not know, or a placeholder that
    /// reached the renderer.
    InternalInvariantError,
}

impl View for CompileError {
    type V = CompileErrorView;

    open spec fn view(&self) -> CompileErrorView {
        match *self {
            CompileError::SyntaxError(message) => CompileErrorView::SyntaxError(message@),
            CompileError::UndefinedVariableError(name) => CompileErrorView::UndefinedVariableError(
                name@,
            ),
            CompileError::ArgumentCountError(name, expected, got) => {
                CompileErrorView::ArgumentCountError(name@, expected as nat, got as nat)
            },
            CompileError::InvalidArgumentTypeError(name, position) => {
                CompileErrorView::InvalidArgumentTypeError(name@, position as nat)
            },
            CompileError::DuplicateIdAttributeError(tag) => {
                CompileErrorView::DuplicateIdAttributeError(tag@)
            },
            CompileError::InternalInvariantError => CompileErrorView::InternalInvariantError,
        }
    }
}

/// The text that describes an error to the author of the input.
pub open spec fn message_text(error: CompileErrorView) -> Seq<char> {
    match error {
        CompileErrorView::SyntaxError(message) => message,
        CompileErrorView::UndefinedVariableError(name) => "variable `"@ + name + "` not defined"@,
        CompileErrorView::ArgumentCountError(name, expected, got) => if got < expected {
            "not enough arguments for function `"@ + name + "`"@
        } else {
            "too many arguments for function `"@ + name + "`"@
        },
        CompileErrorView::InvalidArgumentTypeError(name, _) => "invalid argument type for function `"@
            + name + "`"@,
        CompileErrorView::DuplicateIdAttributeError(tag) => "more than one id for element `"@ + tag
            + "`"@,
        CompileErrorView::InternalInvariantError => "internal invariant violated"@,
    }
}

fn quoted(before: &str, name: &String, after: &str) -> (text: String)
    ensures
        text@ == before@ + name@ + after@,
{
    let mut text = before.to_owned();
    text.append(name.as_str());
    text.append(after);
    text
}

impl CompileError {
    /// The error's description, with the name or tag at fault.
    pub fn message(&self) -> (text: String)
        ensures
            text@ == message_text(self@),
    {
        match self {
            CompileError::SyntaxError(message) => message.clone(),
            CompileError::UndefinedVariableError(name) => quoted(
                "variable `",
                name,
                "` not defined",
            ),
            CompileError::ArgumentCountError(name, expected, got) => {
                if *got < *expected {
                    quoted("not enough arguments for function `", name, "`")
                } else {
                    quoted("too many arguments for function `", name, "`")
                }
            },
            CompileError::InvalidArgumentTypeError(name, _) => quoted(
                "invalid argument type for function `",
                name,
                "`",
            ),
            CompileError::DuplicateIdAttributeError(tag) => quoted(
                "more than one id for element `",
                tag,
                "`",
            ),
            CompileError::InternalInvariantError => "internal invariant violated".to_owned(),
        }
    }
}

} // verus!
