//! A directory of notes as a mathematical value.
//!
//! The model says what saving, reading and listing mean for a directory:
//! which file a save writes, which file a read opens, and which files a
//! listing shows. It speaks of titles that name a file directly inside the
//! directory, and of saves and reads that the file system carried out. The
//! laws below are proved of the model and of the functions of this library
//! that name files and list entries.

use crate::listing::{DirEntry, distinct_names, entry_title, holds_note, listed_titles,
    lemma_listed_iff_note, lemma_listing, lemma_listing_no_duplicates};
use crate::names::{file_name_of, lemma_file_name_injective, lemma_note_title_iff};
use crate::order::ascending;
use vstd::prelude::*;

verus! {

/// What a directory holds under one name.
pub enum Node {
    /// A regular file with this text.
    File { content: Seq<char> },
    /// Anything else: a subdirectory, or a file that is not text.
    Other,
}

/// A directory: what it holds under each name.
pub type Directory = Map<Seq<char>, Node>;

/// The directory after the note `title` was saved with `content`: the note's
/// file holds the content, whatever it held before, and nothing else has
/// changed.
pub open spec fn after_save(dir: Directory, title: Seq<char>, content: Seq<char>) -> Directory {
    dir.insert(file_name_of(title), Node::File { content })
}

/// What reading the note `title` gives: the text of the note's file, or
/// nothing where the directory holds no such file.
pub open spec fn read_in(dir: Directory, title: Seq<char>) -> Option<Seq<char>> {
    if dir.contains_key(file_name_of(title)) {
        match dir[file_name_of(title)] {
            Node::File { content } => Some(content),
            Node::Other => None,
        }
    } else {
        None
    }
}

/// The entry's name is this text.
pub open spec fn is_named(entry: DirEntry, name: Seq<char>) -> bool {
    match entry.name {
        Some(n) => n@ == name,
        None => false,
    }
}

/// `entries` is what reading the directory gives: one entry for each name,
/// marked as a regular file exactly if the directory holds one there.
/// Entries whose names are not text stand for files outside the model.
pub open spec fn is_reading_of(entries: Seq<DirEntry>, dir: Directory) -> bool {
    &&& distinct_names(entries)
    &&& forall|i: int|
        0 <= i < entries.len() ==> match (#[trigger] entries[i]).name {
            Some(name) => dir.contains_key(name@) && (entries[i].is_file <==> dir[name@] is File),
            None => true,
        }
    &&& forall|name: Seq<char>| #[trigger]
        dir.contains_key(name) ==> exists|i: int|
            0 <= i < entries.len() && #[trigger] is_named(entries[i], name)
}

/// A note that was saved is read back as it was saved.
pub proof fn lemma_read_after_save(dir: Directory, title: Seq<char>, content: Seq<char>)
    ensures
        read_in(after_save(dir, title, content), title) == Some(content),
{
}

/// Of two saves under one title the second stands: the directory is as if
/// the first had never been made, and the note reads as the second content.
pub proof fn lemma_last_save_wins(
    dir: Directory,
    title: Seq<char>,
    first: Seq<char>,
    second: Seq<char>,
)
    ensures
        after_save(after_save(dir, title, first), title, second) == after_save(dir, title, second),
        read_in(after_save(after_save(dir, title, first), title, second), title) == Some(second),
{
    assert(after_save(after_save(dir, title, first), title, second) =~= after_save(
        dir,
        title,
        second,
    ));
}

/// Saving one note leaves every note with another title as it was.
pub proof fn lemma_save_keeps_other_notes(
    dir: Directory,
    title: Seq<char>,
    content: Seq<char>,
    other: Seq<char>,
)
    requires
        other != title,
    ensures
        read_in(after_save(dir, title, content), other) == read_in(dir, other),
{
    if file_name_of(other) == file_name_of(title) {
        lemma_file_name_injective(other, title);
    }
}

/// A note that the directory does not hold cannot be read.
pub proof fn lemma_missing_note_not_read(dir: Directory, title: Seq<char>)
    requires
        !dir.contains_key(file_name_of(title)),
    ensures
        read_in(dir, title) is None,
{
}

/// A listing shows exactly the notes that can be read and have a title: a
/// title is listed if and only if it is not empty and the directory holds a
/// regular file named by it. Files with other names, and what is no regular
/// file, are not listed.
pub proof fn lemma_listing_shows_notes(entries: Seq<DirEntry>, dir: Directory, title: Seq<char>)
    requires
        is_reading_of(entries, dir),
    ensures
        listed_titles(entries).contains(title) <==> title.len() > 0 && read_in(dir, title) is Some,
{
    lemma_listed_iff_note(entries, title);
    let name = file_name_of(title);
    if holds_note(entries, title) {
        let i = choose|i: int|
            0 <= i < entries.len() && #[trigger] entry_title(entries[i]) == Some(title);
        lemma_note_title_iff(entries[i].name->0@, title);
    }
    if title.len() > 0 && read_in(dir, title) is Some {
        let i = choose|i: int| 0 <= i < entries.len() && #[trigger] is_named(entries[i], name);
        lemma_note_title_iff(name, title);
        assert(entry_title(entries[i]) == Some(title));
    }
}

/// Two notes saved under different titles are both listed, in ascending
/// order and without repetition. The titles must not be empty: the file of
/// the empty title has no extension and is not listed.
pub proof fn lemma_saved_notes_are_listed(
    dir: Directory,
    first: Seq<char>,
    first_content: Seq<char>,
    second: Seq<char>,
    second_content: Seq<char>,
    entries: Seq<DirEntry>,
)
    requires
        first != second,
        first.len() > 0,
        second.len() > 0,
        is_reading_of(
            entries,
            after_save(after_save(dir, first, first_content), second, second_content),
        ),
    ensures
        listed_titles(entries).contains(first),
        listed_titles(entries).contains(second),
        ascending(listed_titles(entries)),
        listed_titles(entries).no_duplicates(),
{
    let saved = after_save(after_save(dir, first, first_content), second, second_content);
    lemma_read_after_save(after_save(dir, first, first_content), second, second_content);
    lemma_save_keeps_other_notes(after_save(dir, first, first_content), second, second_content, first);
    lemma_read_after_save(dir, first, first_content);
    lemma_listing_shows_notes(entries, saved, first);
    lemma_listing_shows_notes(entries, saved, second);
    lemma_listing(entries);
    lemma_listing_no_duplicates(entries);
}

} // verus!
