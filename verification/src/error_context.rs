//! Errors that say where they were met: the place of a failing call, put in front of what
//! went wrong.

use vstd::prelude::*;
use vstd::string::*;
use crate::text::{decimal, decimal_text};

verus! {

#[verifier::external_type_specification]
#[verifier::external_body]
pub struct ExAnyhowError(anyhow::Error);

/// What an error has to say, outermost first: the message of the error itself, then that
/// of its cause, then that of the cause's cause, and so on. These are the texts that the
/// error prints, joined by `": "`, when it is formatted with `{:#}`.
pub uninterp spec fn messages(error: anyhow::Error) -> Seq<Seq<char>>;

/// `anyhow::Error::context`: the error that says `context`, with `error` as its cause.
/// The contract claims that the messages of the result are `context` followed by the
/// messages of `error`.
#[verifier::external_body]
fn with_context(error: anyhow::Error, context: String) -> (wrapped: anyhow::Error)
    ensures
        messages(wrapped) == seq![context@] + messages(error),
{
    error.context(context)
}

/// What is put in front of an error met at line `line` of the file `file`.
pub open spec fn context_message(file: Seq<char>, line: u32, custom_text: Seq<char>) -> Seq<char> {
    "Error: file-"@ + file + ", line-"@ + decimal(line as nat) + " | "@ + custom_text
}

/// The text that [`context_error`] puts in front of an error.
pub fn context_text(file: &str, line: u32, custom_text: &str) -> (text: String)
    ensures
        text@ == context_message(file@, line, custom_text@),
{
    let mut text = String::from_str("Error: file-");
    text.append(file);
    text.append(", line-");
    let number = decimal_text(line as u64);
    text.append(number.as_str());
    text.append(" | ");
    text.append(custom_text);
    text
}

/// Passes a success on unchanged, and puts in front of a failure the place where it was
/// met: `Error: file-F, line-L | T` for the file `F`, the line `L` and the text `T`,
/// which may be empty.
pub fn context_error<T>(result: Result<T, anyhow::Error>, file: &str, line: u32, custom_text: &str) -> (wrapped:
    Result<T, anyhow::Error>)
    ensures
        match result {
            Ok(value) => wrapped == Ok::<T, anyhow::Error>(value),
            Err(error) => wrapped is Err && messages(wrapped->Err_0) == seq![
                context_message(file@, line, custom_text@),
            ] + messages(error),
        },
{
    match result {
        Ok(value) => Ok(value),
        Err(error) => Err(with_context(error, context_text(file, line, custom_text))),
    }
}

} // verus!
