//! Native KDE dialogs: how `kdialog` is called and what its exit status says.
use vstd::prelude::*;

use crate::failure::IoFailure;
use crate::text::{copy, decimal, texts, to_decimal};

verus! {

/// Outcome of a yes/no question.
#[derive(Debug, Clone, Copy, PartialEq, Eq, Structural)]
pub enum Answer {
    Yes,
    No,
}

/// Why a dialog gave no answer.
#[derive(Debug)]
pub enum KdialogError {
    /// kdialog binary not found on PATH.
    NotFound,
    Io(IoFailure),
    /// An exit status that no dialog documents.
    Failed(i32),
}

/// `n` in decimal, with a minus sign where it is negative.
pub open spec fn signed_decimal(n: int) -> Seq<char> {
    if n < 0 {
        "-"@ + decimal((-n) as nat)
    } else {
        decimal(n as nat)
    }
}

/// The words that describe a [`KdialogError`].
pub open spec fn kdialog_error_text(e: KdialogError) -> Seq<char> {
    match e {
        KdialogError::NotFound => "kdialog not found on PATH"@,
        KdialogError::Io(e) => "kdialog I/O error: "@ + e.message@,
        KdialogError::Failed(c) => "kdialog exited with code "@ + signed_decimal(c as int),
    }
}

impl KdialogError {
    /// The error in words.
    pub fn to_string(&self) -> (r: String)
        ensures
            r@ == kdialog_error_text(*self),
    {
        match self {
            KdialogError::NotFound => copy("kdialog not found on PATH"),
            KdialogError::Io(e) => {
                let mut out: String = copy("kdialog I/O error: ");
                out.append(e.message.as_str());
                out
            },
            KdialogError::Failed(c) => {
                let mut out: String = copy("kdialog exited with code ");
                let code: i64 = *c as i64;
                if code < 0 {
                    let mut number: String = copy("-");
                    number.append(to_decimal((-code) as u128).as_str());
                    out.append(number.as_str());
                } else {
                    out.append(to_decimal(code as u128).as_str());
                }
                out
            },
        }
    }
}

impl From<IoFailure> for KdialogError {
    fn from(e: IoFailure) -> (r: Self) {
        if e.not_found {
            KdialogError::NotFound
        } else {
            KdialogError::Io(e)
        }
    }
}

impl vstd::std_specs::convert::FromSpecImpl<IoFailure> for KdialogError {
    open spec fn obeys_from_spec() -> bool {
        true
    }

    open spec fn from_spec(e: IoFailure) -> Self {
        if e.not_found {
            KdialogError::NotFound
        } else {
            KdialogError::Io(e)
        }
    }
}

/// The arguments of a dialog of this kind.
pub open spec fn dialog_args(kind: Seq<char>, title: Seq<char>, message: Seq<char>) -> Seq<
    Seq<char>,
> {
    seq!["--title"@, title, kind, message]
}

fn dialog(kind: &str, title: &str, message: &str) -> (r: Vec<String>)
    ensures
        texts(r@) == dialog_args(kind@, title@, message@),
{
    let mut args: Vec<String> = Vec::new();
    args.push(copy("--title"));
    args.push(copy(title));
    args.push(copy(kind));
    args.push(copy(message));
    assert(texts(args@) =~= dialog_args(kind@, title@, message@));
    args
}

/// The arguments with which kdialog asks a yes/no question; see
/// [`map_yesno_status`] for its answer.
pub fn yesno(title: &str, message: &str) -> (r: Vec<String>)
    ensures
        texts(r@) == dialog_args("--yesno"@, title@, message@),
{
    dialog("--yesno", title, message)
}

/// Like [`yesno`], with cancel as default and a warning icon.
pub fn warningyesno(title: &str, message: &str) -> (r: Vec<String>)
    ensures
        texts(r@) == dialog_args("--warningyesno"@, title@, message@),
{
    dialog("--warningyesno", title, message)
}

/// The arguments for an information dialog with an OK button; see [`check_ok`].
pub fn msgbox(title: &str, message: &str) -> (r: Vec<String>)
    ensures
        texts(r@) == dialog_args("--msgbox"@, title@, message@),
{
    dialog("--msgbox", title, message)
}

/// The arguments for an error dialog (red icon); see [`check_ok`].
pub fn error(title: &str, message: &str) -> (r: Vec<String>)
    ensures
        texts(r@) == dialog_args("--error"@, title@, message@),
{
    dialog("--error", title, message)
}

/// The answer in the status of a finished dialog: its exit code, or none where
/// a signal ended it. kdialog exits with 0 for yes and 1 for no.
pub fn map_yesno_status(code: Option<i32>) -> (r: Result<Answer, KdialogError>)
    ensures
        code == Some(0i32) <==> r == Ok::<Answer, KdialogError>(Answer::Yes),
        code == Some(1i32) <==> r == Ok::<Answer, KdialogError>(Answer::No),
        forall|c: i32|
            code == Some(c) && c != 0 && c != 1 ==> r == Err::<Answer, KdialogError>(
                KdialogError::Failed(c),
            ),
        code is None ==> r == Err::<Answer, KdialogError>(KdialogError::Failed(-1i32)),
{
    match code {
        Some(c) => {
            if c == 0 {
                Ok(Answer::Yes)
            } else if c == 1 {
                Ok(Answer::No)
            } else {
                Err(KdialogError::Failed(c))
            }
        },
        None => Err(KdialogError::Failed(-1)),
    }
}

/// Was the dialog shown and closed as it should be?
pub fn check_ok(code: Option<i32>) -> (r: Result<(), KdialogError>)
    ensures
        code == Some(0i32) <==> r is Ok,
        forall|c: i32|
            code == Some(c) && c != 0 ==> r == Err::<(), KdialogError>(KdialogError::Failed(c)),
        code is None ==> r == Err::<(), KdialogError>(KdialogError::Failed(-1i32)),
{
    match code {
        Some(c) => {
            if c == 0 {
                Ok(())
            } else {
                Err(KdialogError::Failed(c))
            }
        },
        None => Err(KdialogError::Failed(-1)),
    }
}

} // verus!
