use unix_tools::ls::{
    cells, format_mode, format_output, is_listed, mk_triple, name_or_id, LongEntry, Owner,
};

#[test]
fn test_format_mode() {
    assert_eq!(format_mode(0o755), "rwxr-xr-x");
    assert_eq!(format_mode(0o421), "r---w---x");
}

#[test]
fn test_mk_triple() {
    assert_eq!(mk_triple(0o751, Owner::User), "rwx");
    assert_eq!(mk_triple(0o751, Owner::Group), "r-x");
    assert_eq!(mk_triple(0o751, Owner::Other), "--x");
    assert_eq!(mk_triple(0o600, Owner::Other), "---");
}

#[test]
fn owner_masks() {
    assert_eq!(Owner::User.masks(), [0o400, 0o200, 0o100]);
    assert_eq!(Owner::Group.masks(), [0o040, 0o020, 0o010]);
    assert_eq!(Owner::Other.masks(), [0o004, 0o002, 0o001]);
}

#[test]
fn format_mode_reads_the_low_nine_bits_only() {
    assert_eq!(format_mode(0), "---------");
    assert_eq!(format_mode(0o777), "rwxrwxrwx");
    assert_eq!(format_mode(0o100644), "rw-r--r--");
    assert_eq!(format_mode(0o40755), "rwxr-xr-x");
    assert_eq!(format_mode(0o7000), "---------");
    assert_eq!(format_mode(u32::MAX), "rwxrwxrwx");
}

#[test]
fn format_mode_is_three_triples() {
    for mode in [0o000, 0o124, 0o357, 0o640, 0o777] {
        let joined = format!(
            "{}{}{}",
            mk_triple(mode, Owner::User),
            mk_triple(mode, Owner::Group),
            mk_triple(mode, Owner::Other)
        );
        assert_eq!(format_mode(mode), joined);
    }
}

fn long_entry(is_dir: bool, mode: u32, size: u64, path: &str) -> LongEntry {
    LongEntry {
        is_dir,
        mode,
        nlink: if is_dir { 4 } else { 1 },
        user: "kyclark".to_string(),
        group: "staff".to_string(),
        size,
        modified: "Mar 31 21 15:04".to_string(),
        path: path.to_string(),
    }
}

#[test]
fn cells_of_an_entry() {
    let e = long_entry(false, 0o100644, 193, "tests/inputs/bustle.txt");
    assert_eq!(
        cells(&e),
        vec![
            "-",
            "rw-r--r--",
            "1",
            "kyclark",
            "staff",
            "193",
            "Mar 31 21 15:04",
            "tests/inputs/bustle.txt"
        ]
    );
    let d = long_entry(true, 0o40755, 128, "tests/inputs/dir");
    assert_eq!(cells(&d)[0], "d");
    assert_eq!(cells(&d)[1], "rwxr-xr-x");
    assert_eq!(cells(&d)[2], "4");
}

#[test]
fn format_output_lines_up_columns() {
    let entries = vec![
        long_entry(true, 0o40755, 128, "tests/inputs/dir"),
        long_entry(false, 0o100644, 0, "tests/inputs/empty.txt"),
        long_entry(false, 0o100600, 193, "tests/inputs/bustle.txt"),
    ];
    let out = format_output(&entries).unwrap();
    assert_eq!(
        out,
        "drwxr-xr-x 4 kyclark staff 128 Mar 31 21 15:04 tests/inputs/dir\n\
         -rw-r--r-- 1 kyclark staff   0 Mar 31 21 15:04 tests/inputs/empty.txt\n\
         -rw------- 1 kyclark staff 193 Mar 31 21 15:04 tests/inputs/bustle.txt\n"
    );
    assert_eq!(format_output(&vec![]).unwrap(), "");
}

#[test]
fn format_output_one_entry() {
    let out = format_output(&vec![long_entry(false, 0o644, 193, "tests/inputs/bustle.txt")]).unwrap();
    let lines: Vec<&str> = out.split('\n').filter(|s| !s.is_empty()).collect();
    assert_eq!(lines.len(), 1);
    let parts: Vec<&str> = lines[0].split_whitespace().collect();
    assert_eq!(parts[0], "-rw-r--r--");
    assert_eq!(parts[4], "193");
    assert_eq!(*parts.last().unwrap(), "tests/inputs/bustle.txt");
}

#[test]
fn hidden_entries() {
    assert!(is_listed(Some("fox.txt"), false));
    assert!(!is_listed(Some(".hidden"), false));
    assert!(is_listed(Some(".hidden"), true));
    assert!(is_listed(Some("fox.txt"), true));
    assert!(is_listed(None, false));
    assert!(is_listed(Some(""), false));
    assert!(is_listed(Some("a.b"), false));
    assert!(!is_listed(Some("."), false));
}

#[test]
fn owner_name_or_number() {
    assert_eq!(name_or_id(Some("root".to_string()), 0), "root");
    assert_eq!(name_or_id(None, 0), "0");
    assert_eq!(name_or_id(None, 501), "501");
    assert_eq!(name_or_id(None, u32::MAX), "4294967295");
}

fn long_match(
    line: &str,
    expected_name: &str,
    expected_perms: &str,
    expected_size: Option<&str>,
) {
    let parts: Vec<_> = line.split_whitespace().collect();
    assert!(parts.len() > 0 && parts.len() <= 10);

    let perms = parts.get(0).unwrap();
    assert_eq!(perms, &expected_perms);

    if let Some(size) = expected_size {
        let file_size = parts.get(4).unwrap();
        assert_eq!(file_size, &size)
    }

    let display_name = parts.last().unwrap();
    assert_eq!(display_name, &expected_name);
}

#[test]
fn test_format_output_one() {
    let bustle_path = "tests/inputs/bustle.txt";
    let bustle = long_entry(false, 0o100644, 193, bustle_path);

    let res = format_output(&vec![bustle]);
    assert!(res.is_some());

    let out = res.unwrap();
    let lines: Vec<&str> = out.split("\n").filter(|s| !s.is_empty()).collect();
    assert_eq!(lines.len(), 1);

    let line1 = lines.first().unwrap();
    long_match(&line1, bustle_path, "-rw-r--r--", Some("193"));
}

#[test]
fn test_format_output_two() {
    let res = format_output(&vec![
        long_entry(true, 0o40755, 128, "tests/inputs/dir"),
        long_entry(false, 0o100644, 0, "tests/inputs/empty.txt"),
    ]);
    assert!(res.is_some());

    let out = res.unwrap();
    let mut lines: Vec<&str> = out.split("\n").filter(|s| !s.is_empty()).collect();
    lines.sort();
    assert_eq!(lines.len(), 2);

    let empty_line = lines.remove(0);
    long_match(
        &empty_line,
        "tests/inputs/empty.txt",
        "-rw-r--r--",
        Some("0"),
    );

    let dir_line = lines.remove(0);
    long_match(&dir_line, "tests/inputs/dir", "drwxr-xr-x", None);
}
