use unix_tools::find::{check_names, find, name_filter, try_find, type_filter, Entry, EntryType};

fn entry(path: &str, kind: char) -> Entry {
    Entry {
        path: path.to_string(),
        file_name: path.rsplit('/').next().unwrap().to_string(),
        is_dir: kind == 'd',
        is_file: kind == 'f',
        is_symlink: kind == 'l',
    }
}

fn walk() -> Vec<Entry> {
    vec![
        entry("tests/inputs", 'd'),
        entry("tests/inputs/g.csv", 'f'),
        entry("tests/inputs/a", 'd'),
        entry("tests/inputs/a/a.txt", 'f'),
        entry("tests/inputs/a/b", 'd'),
        entry("tests/inputs/a/b/b.csv", 'f'),
        entry("tests/inputs/d/b.csv", 'l'),
    ]
}

fn names(items: &[&str]) -> Vec<String> {
    items.iter().map(|s| s.to_string()).collect()
}

#[test]
fn entry_type_letters() {
    assert_eq!(EntryType::Dir.letter(), "d");
    assert_eq!(EntryType::File.letter(), "f");
    assert_eq!(EntryType::Link.letter(), "l");
    assert_eq!(EntryType::from_letter("d"), Some(EntryType::Dir));
    assert_eq!(EntryType::from_letter("f"), Some(EntryType::File));
    assert_eq!(EntryType::from_letter("l"), Some(EntryType::Link));
    assert_eq!(EntryType::from_letter("x"), None);
    assert_eq!(EntryType::from_letter(""), None);
    assert_eq!(EntryType::from_letter("dd"), None);
}

#[test]
fn find_without_filters_lists_all() {
    let out = find(&walk(), &vec![], &vec![]);
    assert_eq!(out.lines().count(), 7);
    assert!(out.starts_with("tests/inputs\ntests/inputs/g.csv\n"));
    assert!(!out.ends_with('\n'));
    assert_eq!(find(&vec![], &vec![], &vec![]), "");
}

#[test]
fn find_by_type() {
    assert_eq!(
        find(&walk(), &vec![EntryType::Dir], &vec![]),
        "tests/inputs\ntests/inputs/a\ntests/inputs/a/b"
    );
    assert_eq!(find(&walk(), &vec![EntryType::Link], &vec![]), "tests/inputs/d/b.csv");
    assert_eq!(
        find(&walk(), &vec![EntryType::Link, EntryType::Dir], &vec![]),
        "tests/inputs\ntests/inputs/a\ntests/inputs/a/b\ntests/inputs/d/b.csv"
    );
}

#[test]
fn find_by_name() {
    assert_eq!(
        find(&walk(), &vec![], &names(&[r".*\.csv"])),
        "tests/inputs/g.csv\ntests/inputs/a/b/b.csv\ntests/inputs/d/b.csv"
    );
    assert_eq!(
        find(&walk(), &vec![], &names(&[r"^a$", r"txt$"])),
        "tests/inputs/a\ntests/inputs/a/a.txt"
    );
    // a pattern is searched for anywhere in the name, and in the name alone
    assert_eq!(find(&walk(), &vec![], &names(&["inputs/a"])), "");
    assert_eq!(
        find(&walk(), &vec![EntryType::File], &names(&[r"b\."])),
        "tests/inputs/a/b/b.csv"
    );
    // case counts
    assert_eq!(find(&walk(), &vec![], &names(&["CSV"])), "");
}

#[test]
fn filters_one_by_one() {
    let e = entry("x/y.txt", 'f');
    assert!(type_filter(&vec![], &e));
    assert!(type_filter(&vec![EntryType::File], &e));
    assert!(!type_filter(&vec![EntryType::Dir, EntryType::Link], &e));
    assert!(name_filter(&vec![], &e));
    assert!(name_filter(&names(&["^y"]), &e));
    assert!(!name_filter(&names(&["^x"]), &e));
}

#[test]
fn try_find_refuses_a_pattern_that_does_not_compile() {
    assert!(check_names(&names(&["a+", "[a-z]"])));
    assert!(!check_names(&names(&["a+", "*"])));
    assert!(!check_names(&names(&["("])));
    assert_eq!(try_find(&walk(), &vec![], &names(&["("])), None);
    assert_eq!(
        try_find(&walk(), &vec![], &names(&["g"])),
        Some("tests/inputs/g.csv".to_string())
    );
}
