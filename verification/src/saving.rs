//! Saving a note, step by step.
//!
//! Saving takes up to two file system calls: the directory is created where
//! it is missing, then the note's file is written whole. The caller makes the
//! calls; the functions here say which call comes next and what the save
//! answers. The first failure ends the save, and its description is the
//! answer.

use crate::names::{file_name_of, note_file_name};
use vstd::prelude::*;

verus! {

/// What the caller of a save does next.
#[derive(Debug)]
pub enum SaveStep {
    /// Create the directory with its missing parents, and hand the outcome
    /// to `save_note_created`.
    CreateDirectory,
    /// Write the note's content to the file of this name inside the
    /// directory, in place of what the file held, and hand the outcome to
    /// `save_note_written`.
    WriteFile { file_name: String },
}

/// The words that open the message of a successful save.
pub open spec fn saved_prefix() -> Seq<char> {
    seq!['成', '功', '保', '存', ':', ' ']
}

/// The message of a successful save: it names the title that was saved.
pub open spec fn saved_message_of(title: Seq<char>) -> Seq<char> {
    saved_prefix() + title
}

/// The step with which a save begins.
pub open spec fn first_step_of(directory_exists: bool, title: Seq<char>, step: SaveStep) -> bool {
    if directory_exists {
        step matches SaveStep::WriteFile { file_name } && file_name@ == file_name_of(title)
    } else {
        step is CreateDirectory
    }
}

/// What follows an attempt to create the directory: the name of the file to
/// write, or the failure with which the save ends.
pub open spec fn step_after_creation(
    created: Result<(), String>,
    title: Seq<char>,
    next: Result<String, String>,
) -> bool {
    match created {
        Ok(_) => next matches Ok(file_name) && file_name@ == file_name_of(title),
        Err(error) => next matches Err(reason) && reason@ == error@,
    }
}

/// The answer of a save whose file was written, or could not be.
pub open spec fn answer_after_write(
    written: Result<(), String>,
    title: Seq<char>,
    answer: Result<String, String>,
) -> bool {
    match written {
        Ok(_) => answer matches Ok(message) && message@ == saved_message_of(title),
        Err(error) => answer matches Err(reason) && reason@ == error@,
    }
}

/// Returns the message of a successful save of the note `title`.
pub fn saved_message(title: &str) -> (message: String)
    ensures
        message@ == saved_message_of(title@),
{
    proof {
        reveal_strlit("成功保存: ");
        assert("成功保存: "@ =~= saved_prefix());
    }
    String::from_str("成功保存: ").concat(title)
}

/// Begins the save of the note `title`. Where the directory exists the file
/// is written at once; where it does not, it is created first.
pub fn save_note(directory_exists: bool, title: &str) -> (step: SaveStep)
    ensures
        first_step_of(directory_exists, title@, step),
{
    if directory_exists {
        SaveStep::WriteFile { file_name: note_file_name(title) }
    } else {
        SaveStep::CreateDirectory
    }
}

/// Goes on with the save of the note `title` after the attempt to create the
/// directory: the name of the file to write and to report with
/// `save_note_written`. Where the attempt failed, the save fails with the
/// same description and nothing is written.
pub fn save_note_created(created: Result<(), String>, title: &str) -> (next: Result<String, String>)
    ensures
        step_after_creation(created, title@, next),
{
    match created {
        Ok(_) => Ok(note_file_name(title)),
        Err(error) => Err(error),
    }
}

/// Ends the save of the note `title` after the attempt to write its file:
/// the message that names the title, or the description of the failure.
pub fn save_note_written(written: Result<(), String>, title: &str) -> (answer: Result<String, String>)
    ensures
        answer_after_write(written, title@, answer),
{
    match written {
        Ok(_) => Ok(saved_message(title)),
        Err(error) => Err(error),
    }
}

/// The message of a successful save ends with the title it names.
pub proof fn lemma_message_names_title(title: Seq<char>)
    ensures
        saved_message_of(title).len() == saved_prefix().len() + title.len(),
        saved_message_of(title).subrange(
            saved_prefix().len() as int,
            saved_message_of(title).len() as int,
        ) == title,
{
    let message = saved_message_of(title);
    assert(message.subrange(saved_prefix().len() as int, message.len() as int) =~= title);
}

} // verus!
