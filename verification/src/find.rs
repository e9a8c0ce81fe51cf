//! `find`: which entries of a walk are listed, by their type and name.

use crate::pattern::{compiles, is_match, pattern_compiles, pattern_matches};
use crate::text::{join, joined, text_eq};
use vstd::prelude::*;
use vstd::string::*;

verus! {

/// The types of entry that can be asked for.
#[derive(Debug, Clone, Copy, PartialEq, Eq, Structural)]
pub enum EntryType {
    Dir,
    File,
    Link,
}

impl EntryType {
    /// The letter that stands for the type on the command line.
    pub open spec fn letter_spec(&self) -> Seq<char> {
        match self {
            EntryType::Dir => "d"@,
            EntryType::File => "f"@,
            EntryType::Link => "l"@,
        }
    }

    /// The letter that stands for the type on the command line.
    pub fn letter(&self) -> (letter: &'static str)
        ensures
            letter@ == self.letter_spec(),
    {
        match self {
            EntryType::Dir => "d",
            EntryType::File => "f",
            EntryType::Link => "l",
        }
    }

    /// The type that a letter stands for, if any.
    pub fn from_letter(letter: &str) -> (entry_type: Option<EntryType>)
        ensures
            match entry_type {
                Some(t) => t.letter_spec() == letter@,
                None => forall|t: EntryType| t.letter_spec() != letter@,
            },
    {
        if text_eq(letter, "d") {
            Some(EntryType::Dir)
        } else if text_eq(letter, "f") {
            Some(EntryType::File)
        } else if text_eq(letter, "l") {
            Some(EntryType::Link)
        } else {
            None
        }
    }
}

/// What a walk tells of an entry.
#[derive(Debug)]
pub struct Entry {
    /// The path, as it is printed.
    pub path: String,
    /// The last part of the path, which names are matched against.
    pub file_name: String,
    pub is_dir: bool,
    pub is_file: bool,
    pub is_symlink: bool,
}

/// The entry is of type `entry_type`.
pub open spec fn has_type(entry: Entry, entry_type: EntryType) -> bool {
    match entry_type {
        EntryType::Dir => entry.is_dir,
        EntryType::File => entry.is_file,
        EntryType::Link => entry.is_symlink,
    }
}

/// The entry passes the types asked for: none is asked for, or it is of one
/// of them.
pub open spec fn type_selected(entry_types: Seq<EntryType>, entry: Entry) -> bool {
    entry_types.len() == 0 || exists|i: int|
        0 <= i < entry_types.len() && has_type(entry, #[trigger] entry_types[i])
}

/// The name passes the patterns asked for: none is asked for, or one of them
/// matches in it.
pub open spec fn name_selected(names: Seq<Seq<char>>, file_name: Seq<char>) -> bool {
    names.len() == 0 || exists|i: int|
        0 <= i < names.len() && pattern_matches(#[trigger] names[i], false, file_name)
}

/// Every pattern compiles.
pub open spec fn all_compile(names: Seq<Seq<char>>) -> bool {
    forall|i: int| 0 <= i < names.len() ==> pattern_compiles(#[trigger] names[i], false)
}

/// Whether the entry is of one of the types asked for.
pub fn type_filter(entry_types: &Vec<EntryType>, entry: &Entry) -> (pass: bool)
    ensures
        pass == type_selected(entry_types@, *entry),
{
    if entry_types.len() == 0 {
        return true;
    }
    let mut i: usize = 0;
    while i < entry_types.len()
        invariant
            i <= entry_types.len(),
            forall|k: int| 0 <= k < i ==> !has_type(*entry, #[trigger] entry_types@[k]),
        decreases entry_types.len() - i,
    {
        let hit = match entry_types[i] {
            EntryType::Dir => entry.is_dir,
            EntryType::File => entry.is_file,
            EntryType::Link => entry.is_symlink,
        };
        if hit {
            return true;
        }
        i = i + 1;
    }
    false
}

/// Whether one of the patterns asked for matches in the name of the entry.
pub fn name_filter(names: &Vec<String>, entry: &Entry) -> (pass: bool)
    requires
        all_compile(names.deep_view()),
    ensures
        pass == name_selected(names.deep_view(), entry.file_name@),
{
    let ghost views = names.deep_view();
    if names.len() == 0 {
        return true;
    }
    let mut i: usize = 0;
    while i < names.len()
        invariant
            i <= names.len(),
            views == names.deep_view(),
            all_compile(views),
            forall|k: int|
                0 <= k < i ==> !pattern_matches(#[trigger] views[k], false, entry.file_name@),
        decreases names.len() - i,
    {
        proof {
            assert(views[i as int] == names@[i as int]@);
        }
        let found = is_match(names[i].as_str(), false, entry.file_name.as_str());
        if found.unwrap() {
            return true;
        }
        i = i + 1;
    }
    false
}

/// Whether every pattern compiles.
pub fn check_names(names: &Vec<String>) -> (ok: bool)
    ensures
        ok == all_compile(names.deep_view()),
{
    let ghost views = names.deep_view();
    let mut i: usize = 0;
    while i < names.len()
        invariant
            i <= names.len(),
            views == names.deep_view(),
            forall|k: int| 0 <= k < i ==> pattern_compiles(#[trigger] views[k], false),
        decreases names.len() - i,
    {
        proof {
            assert(views[i as int] == names@[i as int]@);
        }
        if !compiles(names[i].as_str(), false) {
            return false;
        }
        i = i + 1;
    }
    true
}

/// The entry is listed.
pub open spec fn selected(entry_types: Seq<EntryType>, names: Seq<Seq<char>>, entry: Entry)
    -> bool {
    type_selected(entry_types, entry) && name_selected(names, entry.file_name@)
}

/// The paths of the entries that are listed, in the order of the walk.
pub open spec fn selected_paths(
    entries: Seq<Entry>,
    entry_types: Seq<EntryType>,
    names: Seq<Seq<char>>,
) -> Seq<Seq<char>>
    decreases entries.len(),
{
    if entries.len() == 0 {
        Seq::empty()
    } else {
        let before = selected_paths(entries.drop_last(), entry_types, names);
        if selected(entry_types, names, entries.last()) {
            before.push(entries.last().path@)
        } else {
            before
        }
    }
}

/// What is printed for the entries of one walk: the paths of those that pass
/// both the types and the names asked for, one on each line.
pub fn find(entries: &Vec<Entry>, entry_types: &Vec<EntryType>, names: &Vec<String>) -> (out:
    String)
    requires
        all_compile(names.deep_view()),
    ensures
        out@ == joined(selected_paths(entries@, entry_types@, names.deep_view()), "\n"@),
{
    let ghost views = names.deep_view();
    let mut paths: Vec<String> = Vec::new();
    let mut i: usize = 0;
    proof {
        assert(entries@.take(0) =~= Seq::<Entry>::empty());
    }
    while i < entries.len()
        invariant
            i <= entries.len(),
            views == names.deep_view(),
            all_compile(views),
            paths.deep_view() == selected_paths(entries@.take(i as int), entry_types@, views),
        decreases entries.len() - i,
    {
        proof {
            assert(entries@.take(i + 1).drop_last() =~= entries@.take(i as int));
            assert(entries@.take(i + 1).last() == entries@[i as int]);
        }
        if type_filter(entry_types, &entries[i]) && name_filter(names, &entries[i]) {
            let ghost before = paths.deep_view();
            paths.push(entries[i].path.clone());
            proof {
                assert(paths.deep_view() =~= before.push(entries@[i as int].path@));
            }
        }
        i = i + 1;
    }
    proof {
        assert(entries@.take(i as int) =~= entries@);
        assert(paths.deep_view().subrange(0, paths.len() as int) =~= paths.deep_view());
    }
    join(&paths, 0, paths.len(), "\n")
}

/// What is printed for the entries of one walk, or `None` where a pattern
/// does not compile.
pub fn try_find(entries: &Vec<Entry>, entry_types: &Vec<EntryType>, names: &Vec<String>) -> (out:
    Option<String>)
    ensures
        out is Some <==> all_compile(names.deep_view()),
        out is Some ==> out->0@ == joined(
            selected_paths(entries@, entry_types@, names.deep_view()),
            "\n"@,
        ),
{
    if check_names(names) {
        Some(find(entries, entry_types, names))
    } else {
        None
    }
}

} // verus!
