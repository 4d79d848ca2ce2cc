//! Which entries of a directory are notes, and how the notes are listed.
//!
//! The caller reads the directory and hands its entries over as plain
//! values. A note is a regular file whose name has the extension `md`; its
//! title is the stem of that name. Notes are listed in ascending order.

use crate::names::{file_name_of, note_title, note_title_of, lemma_note_title_iff};
use crate::order::{ascending, title_le, title_order, title_precedes, lemma_title_le_total,
    lemma_title_le_transitive, lemma_title_order_total};
use vstd::prelude::*;
use vstd::seq_lib::*;

verus! {

/// One entry of a directory, as the file system reports it.
#[derive(Clone, Debug)]
pub struct DirEntry {
    /// The entry's name inside its directory, or `None` where that name is
    /// not valid Unicode.
    pub name: Option<String>,
    /// Whether the entry is a regular file. A link counts as what it leads
    /// to; an entry that cannot be examined counts as no file.
    pub is_file: bool,
}

/// The title under which an entry is listed, if it is a note: the entry is a
/// regular file, its name is text, and the name has the extension `md`.
pub open spec fn entry_title(entry: DirEntry) -> Option<Seq<char>> {
    if entry.is_file {
        match entry.name {
            Some(name) => note_title_of(name@),
            None => None,
        }
    } else {
        None
    }
}

/// The titles of the notes among `entries`, in the order of the entries.
pub open spec fn titles_of(entries: Seq<DirEntry>) -> Seq<Seq<char>>
    decreases entries.len(),
{
    if entries.len() == 0 {
        Seq::empty()
    } else {
        let front = titles_of(entries.drop_last());
        match entry_title(entries.last()) {
            Some(title) => front.push(title),
            None => front,
        }
    }
}

/// The listing of a directory with these entries: the titles of its notes in
/// ascending order.
pub open spec fn listed_titles(entries: Seq<DirEntry>) -> Seq<Seq<char>> {
    titles_of(entries).sort_by(title_order())
}

/// What a listing answers: for a directory that was read, the titles of its
/// notes in order; for one that could not be opened, nothing.
pub open spec fn listing_of(listing: Option<Vec<DirEntry>>) -> Seq<Seq<char>> {
    match listing {
        Some(entries) => listed_titles(entries@),
        None => Seq::empty(),
    }
}

/// Some entry among `entries` is a note with this title.
pub open spec fn holds_note(entries: Seq<DirEntry>, title: Seq<char>) -> bool {
    exists|i: int| 0 <= i < entries.len() && #[trigger] entry_title(entries[i]) == Some(title)
}

/// No two of the entries have the same name, as in a directory that was
/// read once.
pub open spec fn distinct_names(entries: Seq<DirEntry>) -> bool {
    forall|i: int, j: int|
        0 <= i < j < entries.len() ==> match (#[trigger] entries[i].name, #[trigger] entries[j].name) {
            (Some(a), Some(b)) => a@ != b@,
            _ => true,
        }
}

/// The strings of a vector as sequences of characters.
pub open spec fn texts(strings: Seq<String>) -> Seq<Seq<char>> {
    strings.map_values(|s: String| s@)
}

impl DirEntry {
    /// Returns the title under which this entry is listed, or `None` where
    /// the entry is no note.
    pub fn title(&self) -> (title: Option<String>)
        ensures
            match title {
                Some(t) => entry_title(*self) == Some(t@),
                None => entry_title(*self) is None,
            },
    {
        if !self.is_file {
            return None;
        }
        match &self.name {
            Some(name) => note_title(name.as_str()),
            None => None,
        }
    }
}

/// Puts `title` into a vector of titles that is in ascending order, at a
/// place that keeps the order.
fn insert_in_order(titles: &mut Vec<String>, title: String)
    requires
        ascending(texts(old(titles)@)),
    ensures
        ascending(texts(final(titles)@)),
        texts(final(titles)@).to_multiset() == texts(old(titles)@).to_multiset().insert(title@),
{
    let ghost before = texts(titles@);
    let mut at: usize = 0;
    while at < titles.len() && title_precedes(titles[at].as_str(), title.as_str())
        invariant
            at <= titles@.len(),
            before == texts(titles@),
            forall|k: int| 0 <= k < at ==> title_le(#[trigger] before[k], title@),
        decreases titles@.len() - at,
    {
        at += 1;
    }
    proof {
        let after = before.insert(at as int, title@);
        assert(texts(titles@.insert(at as int, title)) =~= after);
        to_multiset_insert(before, at as int, title@);
        assert forall|i: int, j: int| 0 <= i < j < after.len() implies title_le(
            after[i],
            after[j],
        ) by {
            if j == at {
                assert(after[i] == before[i]);
            } else if i == at {
                assert(after[j] == before[j - 1]);
                lemma_title_le_total(before[at as int], title@);
                if j - 1 > at {
                    lemma_title_le_transitive(title@, before[at as int], before[j - 1]);
                }
            } else if i < at && at < j {
                assert(after[i] == before[i]);
                assert(after[j] == before[j - 1]);
            } else if j < at {
                assert(after[i] == before[i]);
                assert(after[j] == before[j]);
            } else {
                assert(after[i] == before[i - 1]);
                assert(after[j] == before[j - 1]);
            }
        }
    }
    titles.insert(at, title);
}

/// Lists the notes of a directory: the titles of its notes in ascending
/// order. `listing` holds the directory's entries, or `None` where the
/// directory could not be opened; the answer is then empty. Entries that are
/// no regular files, and files without the extension `md`, are left out.
pub fn list_notes(listing: Option<Vec<DirEntry>>) -> (titles: Vec<String>)
    ensures
        texts(titles@) == listing_of(listing),
        ascending(texts(titles@)),
        forall|t: Seq<char>| #[trigger]
            texts(titles@).contains(t) <==> listing is Some && holds_note(listing->0@, t),
{
    let mut titles: Vec<String> = Vec::new();
    match listing {
        None => {
            assert(texts(titles@) =~= Seq::<Seq<char>>::empty());
            assert forall|t: Seq<char>| !(#[trigger] texts(titles@).contains(t)) by {}
        },
        Some(entries) => {
            let mut i: usize = 0;
            proof {
                assert(texts(titles@) =~= Seq::<Seq<char>>::empty());
                assert(entries@.take(0) =~= Seq::<DirEntry>::empty());
            }
            while i < entries.len()
                invariant
                    i <= entries@.len(),
                    ascending(texts(titles@)),
                    texts(titles@).to_multiset() == titles_of(entries@.take(i as int)).to_multiset(),
                decreases entries@.len() - i,
            {
                proof {
                    let next = entries@.take(i + 1);
                    assert(next.drop_last() =~= entries@.take(i as int));
                    assert(next.last() == entries@[i as int]);
                    titles_of(entries@.take(i as int)).to_multiset_ensures();
                }
                match entries[i].title() {
                    Some(title) => insert_in_order(&mut titles, title),
                    None => {},
                }
                i += 1;
            }
            proof {
                assert(entries@.take(i as int) =~= entries@);
                lemma_listing(entries@);
                lemma_title_order_total();
                assert(vstd::relations::sorted_by(texts(titles@), title_order())) by {
                    let found = texts(titles@);
                    assert forall|a: int, b: int| 0 <= a < b < found.len() implies #[trigger]
                        title_order()(found[a], found[b]) by {
                        assert(title_le(found[a], found[b]));
                    }
                }
                lemma_sorted_unique(texts(titles@), listed_titles(entries@), title_order());
                assert forall|t: Seq<char>| #[trigger]
                    texts(titles@).contains(t) <==> holds_note(entries@, t) by {
                    lemma_listed_iff_note(entries@, t);
                }
            }
        },
    }
    titles
}

/// A listing is in ascending order and holds each note's title as often as
/// the directory holds an entry for it.
pub proof fn lemma_listing(entries: Seq<DirEntry>)
    ensures
        ascending(listed_titles(entries)),
        vstd::relations::sorted_by(listed_titles(entries), title_order()),
        listed_titles(entries).to_multiset() == titles_of(entries).to_multiset(),
{
    lemma_title_order_total();
    titles_of(entries).lemma_sort_by_ensures(title_order());
    let listed = listed_titles(entries);
    assert forall|i: int, j: int| 0 <= i < j < listed.len() implies title_le(
        listed[i],
        listed[j],
    ) by {
        assert(title_order()(listed[i], listed[j]));
    }
}

/// A title stands among the titles of some entries exactly if one of the
/// entries is a note with that title.
pub proof fn lemma_titles_of_iff_note(entries: Seq<DirEntry>, title: Seq<char>)
    ensures
        titles_of(entries).contains(title) <==> holds_note(entries, title),
    decreases entries.len(),
{
    if entries.len() == 0 {
    } else {
        let front = entries.drop_last();
        lemma_titles_of_iff_note(front, title);
        if holds_note(entries, title) {
            let i = choose|i: int|
                0 <= i < entries.len() && #[trigger] entry_title(entries[i]) == Some(title);
            if i < front.len() {
                assert(entry_title(front[i]) == Some(title));
                assert(titles_of(front).contains(title));
                let k = choose|k: int| 0 <= k < titles_of(front).len() && titles_of(front)[k] == title;
                assert(titles_of(entries)[k] == title);
            } else {
                assert(titles_of(entries).last() == title);
            }
        }
        if titles_of(entries).contains(title) {
            let k = choose|k: int| 0 <= k < titles_of(entries).len() && titles_of(entries)[k] == title;
            if k < titles_of(front).len() {
                assert(titles_of(front)[k] == title);
                assert(holds_note(front, title));
                let i = choose|i: int|
                    0 <= i < front.len() && #[trigger] entry_title(front[i]) == Some(title);
                assert(entry_title(entries[i]) == Some(title));
            } else {
                assert(entry_title(entries[entries.len() - 1]) == Some(title));
            }
        }
    }
}

/// A title is listed exactly if the directory holds a note with that title:
/// a regular file whose name is the title followed by `.md`. Nothing else is
/// listed, whatever else the directory holds.
pub proof fn lemma_listed_iff_note(entries: Seq<DirEntry>, title: Seq<char>)
    ensures
        listed_titles(entries).contains(title) <==> holds_note(entries, title),
{
    lemma_listing(entries);
    lemma_titles_of_iff_note(entries, title);
    let found = titles_of(entries);
    let listed = listed_titles(entries);
    found.to_multiset_ensures();
    listed.to_multiset_ensures();
    assert(found.contains(title) <==> found.to_multiset().count(title) > 0);
    assert(listed.contains(title) <==> listed.to_multiset().count(title) > 0);
}

/// Among entries with distinct names no title occurs twice.
pub proof fn lemma_titles_of_distinct(entries: Seq<DirEntry>)
    requires
        distinct_names(entries),
    ensures
        titles_of(entries).no_duplicates(),
    decreases entries.len(),
{
    if entries.len() > 0 {
        let front = entries.drop_last();
        let last = entries.last();
        assert(distinct_names(front)) by {
            assert forall|i: int, j: int| 0 <= i < j < front.len() implies match (
                #[trigger] front[i].name,
                #[trigger] front[j].name,
            ) {
                (Some(a), Some(b)) => a@ != b@,
                _ => true,
            } by {
                assert(front[i] == entries[i] && front[j] == entries[j]);
            }
        }
        lemma_titles_of_distinct(front);
        if let Some(title) = entry_title(last) {
            lemma_titles_of_iff_note(front, title);
            if holds_note(front, title) {
                let i = choose|i: int|
                    0 <= i < front.len() && #[trigger] entry_title(front[i]) == Some(title);
                assert(front[i] == entries[i]);
                lemma_note_title_iff(entries[i].name->0@, title);
                lemma_note_title_iff(last.name->0@, title);
                assert(entries[i].name->0@ == file_name_of(title));
                assert(entries[entries.len() - 1].name->0@ == file_name_of(title));
            }
            assert(!titles_of(front).contains(title));
            let found = titles_of(front);
            assert forall|a: int, b: int|
                0 <= a < found.push(title).len() && 0 <= b < found.push(title).len() && a
                    != b implies found.push(title)[a] != found.push(title)[b] by {
                if a < found.len() && b < found.len() {
                } else if a < found.len() {
                    assert(found.contains(found[a]));
                } else {
                    assert(found.contains(found[b]));
                }
            }
        }
    }
}

/// A directory is listed without repetition: among entries with distinct
/// names, each title is listed once, and the listing ascends strictly.
pub proof fn lemma_listing_no_duplicates(entries: Seq<DirEntry>)
    requires
        distinct_names(entries),
    ensures
        listed_titles(entries).no_duplicates(),
        forall|i: int, j: int|
            0 <= i < j < listed_titles(entries).len() ==> !title_le(
                #[trigger] listed_titles(entries)[j],
                #[trigger] listed_titles(entries)[i],
            ),
{
    let found = titles_of(entries);
    let listed = listed_titles(entries);
    lemma_titles_of_distinct(entries);
    lemma_listing(entries);
    found.lemma_multiset_has_no_duplicates();
    listed.lemma_multiset_has_no_duplicates_conv();
    assert forall|i: int, j: int| 0 <= i < j < listed.len() implies !title_le(
        #[trigger] listed[j],
        #[trigger] listed[i],
    ) by {
        if title_le(listed[j], listed[i]) {
            assert(title_le(listed[i], listed[j]));
            crate::order::lemma_title_le_antisymmetric(listed[i], listed[j]);
        }
    }
}

} // verus!
