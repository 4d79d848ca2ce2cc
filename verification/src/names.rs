//! How a note's title names its file, and how a file's name gives a title.

use vstd::prelude::*;

verus! {

/// The suffix that marks a file as a note: a dot and the extension `md`.
pub open spec fn note_suffix() -> Seq<char> {
    seq!['.', 'm', 'd']
}

/// The name of the file that holds the note with the given title.
pub open spec fn file_name_of(title: Seq<char>) -> Seq<char> {
    title + note_suffix()
}

/// Returns the name of the file that holds the note `title`: the title as it
/// is, followed by `.md`. Nothing in the title is escaped or replaced.
pub fn note_file_name(title: &str) -> (name: String)
    ensures
        name@ == file_name_of(title@),
{
    proof {
        reveal_strlit(".md");
        assert(".md"@ =~= note_suffix());
    }
    String::from_str(title).concat(".md")
}

/// The extension that marks a file as a note.
pub open spec fn note_extension() -> Seq<char> {
    seq!['m', 'd']
}

/// The position of the last dot in a file name, if the name holds a dot.
pub open spec fn last_dot(name: Seq<char>) -> Option<int>
    decreases name.len(),
{
    if name.len() == 0 {
        None
    } else if name.last() == '.' {
        Some(name.len() - 1)
    } else {
        last_dot(name.drop_last())
    }
}

/// The extension of a file name: what follows its last dot. A name without a
/// dot has none, and neither has a name whose only dot is its first
/// character.
pub open spec fn extension_of(name: Seq<char>) -> Option<Seq<char>> {
    match last_dot(name) {
        Some(k) => if k > 0 {
            Some(name.subrange(k + 1, name.len() as int))
        } else {
            None
        },
        None => None,
    }
}

/// The stem of a file name: what stands before its last dot, or the whole
/// name where the name has no extension.
pub open spec fn stem_of(name: Seq<char>) -> Seq<char> {
    match last_dot(name) {
        Some(k) => if k > 0 {
            name.subrange(0, k)
        } else {
            name
        },
        None => name,
    }
}

/// The title of the note that a file of this name holds: the stem of the
/// name, where the extension is exactly `md`. Other names hold no note.
pub open spec fn note_title_of(name: Seq<char>) -> Option<Seq<char>> {
    if extension_of(name) == Some(note_extension()) {
        Some(stem_of(name))
    } else {
        None
    }
}

/// Where `last_dot` gives a position, a dot stands there and none after it;
/// where it gives none, the name holds no dot.
pub proof fn lemma_last_dot(name: Seq<char>)
    ensures
        match last_dot(name) {
            Some(k) => 0 <= k < name.len() && name[k] == '.' && forall|j: int|
                k < j < name.len() ==> name[j] != '.',
            None => forall|j: int| 0 <= j < name.len() ==> name[j] != '.',
        },
    decreases name.len(),
{
    if name.len() > 0 && name.last() != '.' {
        let front = name.drop_last();
        lemma_last_dot(front);
        assert forall|j: int| 0 <= j < front.len() implies front[j] == name[j] by {}
        match last_dot(front) {
            Some(k) => {
                assert forall|j: int| k < j < name.len() implies name[j] != '.' by {
                    if j < front.len() {
                        assert(front[j] != '.');
                    }
                }
            },
            None => {
                assert forall|j: int| 0 <= j < name.len() implies name[j] != '.' by {
                    if j < front.len() {
                        assert(front[j] != '.');
                    }
                }
            },
        }
    }
}

/// A name holds a note exactly if it has at least four characters and ends
/// in `.md`; the title is then the name without these three characters.
pub proof fn lemma_note_title_of(name: Seq<char>)
    ensures
        note_title_of(name) == if name.len() >= 4 && name.subrange(name.len() - 3, name.len() as int)
            == note_suffix() {
            Some(name.subrange(0, name.len() - 3))
        } else {
            None
        },
{
    let n = name.len() as int;
    lemma_last_dot(name);
    if n >= 4 && name.subrange(n - 3, n) == note_suffix() {
        let tail = name.subrange(n - 3, n);
        assert(tail[0] == '.' && tail[1] == 'm' && tail[2] == 'd');
        assert(name[n - 3] == '.' && name[n - 2] == 'm' && name[n - 1] == 'd');
        assert(last_dot(name) == Some(n - 3));
        assert(name.subrange(n - 2, n) =~= note_extension());
    } else if let Some(k) = last_dot(name) {
        if k > 0 && name.subrange(k + 1, n) == note_extension() {
            let ext = name.subrange(k + 1, n);
            assert(ext.len() == 2);
            assert(ext[0] == 'm' && ext[1] == 'd');
            assert(name.subrange(n - 3, n) =~= note_suffix());
        }
    }
}

/// A note is listed under the title it was saved with, unless that title is
/// empty: the file of the empty title is named `.md`, which has no
/// extension.
pub proof fn lemma_title_of_file_name(title: Seq<char>)
    ensures
        note_title_of(file_name_of(title)) == if title.len() > 0 {
            Some(title)
        } else {
            None::<Seq<char>>
        },
{
    let name = file_name_of(title);
    let n = name.len() as int;
    lemma_note_title_of(name);
    assert(name.subrange(n - 3, n) =~= note_suffix());
    assert(name.subrange(0, n - 3) =~= title);
}

/// A file holds the note `title` exactly if the title is not empty and the
/// file's name is the title followed by `.md`.
pub proof fn lemma_note_title_iff(name: Seq<char>, title: Seq<char>)
    ensures
        note_title_of(name) == Some(title) <==> title.len() > 0 && name == file_name_of(title),
{
    lemma_note_title_of(name);
    lemma_title_of_file_name(title);
    let n = name.len() as int;
    if note_title_of(name) == Some(title) {
        assert(name =~= name.subrange(0, n - 3) + name.subrange(n - 3, n));
    }
}

/// Notes with different titles are kept in different files.
pub proof fn lemma_file_name_injective(a: Seq<char>, b: Seq<char>)
    requires
        file_name_of(a) == file_name_of(b),
    ensures
        a == b,
{
    assert(file_name_of(a).subrange(0, a.len() as int) =~= a);
    assert(file_name_of(b).subrange(0, b.len() as int) =~= b);
}

/// Returns the title of the note that a file named `name` holds, or `None`
/// where a file of that name is no note.
pub fn note_title(name: &str) -> (title: Option<String>)
    ensures
        match title {
            Some(t) => note_title_of(name@) == Some(t@),
            None => note_title_of(name@) is None,
        },
{
    let n: usize = name.unicode_len();
    proof {
        lemma_note_title_of(name@);
    }
    if n < 4 {
        return None;
    }
    let ghost tail = name@.subrange(n - 3, n as int);
    if name.get_char(n - 3) == '.' && name.get_char(n - 2) == 'm' && name.get_char(n - 1) == 'd' {
        assert(tail =~= note_suffix());
        Some(String::from_str(name.substring_char(0, n - 3)))
    } else {
        assert(tail[0] == name@[n - 3] && tail[1] == name@[n - 2] && tail[2] == name@[n - 1]);
        None
    }
}

} // verus!
