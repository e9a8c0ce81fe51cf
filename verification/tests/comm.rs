use unix_tools::comm::{check_inputs, comm, fold_case, is_dash, print_column, rank, Column, Options, Rank};

fn lines(items: &[&str]) -> Vec<String> {
    items.iter().map(|s| s.to_string()).collect()
}

fn options(show: (bool, bool, bool), insensitive: bool, delimiter: &str) -> Options {
    Options {
        show_col1: show.0,
        show_col2: show.1,
        show_col3: show.2,
        insensitive,
        delimiter: delimiter.to_string(),
    }
}

#[test]
fn rank_orders_as_strings_do() {
    let samples = ["", "a", "A", "ab", "abc", "b", "B", "á", "z", "ab ", "\u{10000}", "\u{ffff}"];
    for a in samples {
        for b in samples {
            let want = match a.cmp(b) {
                std::cmp::Ordering::Less => Rank::Lower,
                std::cmp::Ordering::Equal => Rank::Same,
                std::cmp::Ordering::Greater => Rank::Higher,
            };
            assert_eq!(rank(a, b), want, "{a:?} against {b:?}");
        }
    }
}

#[test]
fn comm_three_columns() {
    let one = lines(&["a", "b", "c"]);
    let two = lines(&["B", "c", "d"]);
    let out = comm(&one, &two, &options((true, true, true), false, "\t"));
    assert_eq!(out, lines(&["\tB", "a", "b", "\t\tc", "\td"]));
}

#[test]
fn comm_insensitive_prints_lower_case() {
    let one = lines(&["a", "b", "c"]);
    let two = lines(&["B", "c", "d"]);
    let out = comm(&one, &two, &options((true, true, true), true, "\t"));
    assert_eq!(out, lines(&["a", "\t\tb", "\t\tc", "\td"]));
}

#[test]
fn comm_suppressed_columns() {
    let one = lines(&["a", "b", "c"]);
    let two = lines(&["b", "c", "d"]);
    let all = |show| comm(&one, &two, &options(show, false, "--"));
    assert_eq!(all((true, true, true)), lines(&["a", "----b", "----c", "--d"]));
    assert_eq!(all((false, true, true)), lines(&["--b", "--c", "d"]));
    assert_eq!(all((true, false, true)), lines(&["a", "--b", "--c"]));
    assert_eq!(all((true, true, false)), lines(&["a", "--d"]));
    assert_eq!(all((false, false, true)), lines(&["b", "c"]));
    assert_eq!(all((true, false, false)), lines(&["a"]));
    assert_eq!(all((false, true, false)), lines(&["d"]));
    assert_eq!(all((false, false, false)), Vec::<String>::new());
}

#[test]
fn comm_with_an_empty_side() {
    let one = lines(&["x", "y"]);
    let none = lines(&[]);
    let opts = options((true, true, true), false, ",");
    assert_eq!(comm(&one, &none, &opts), lines(&["x", "y"]));
    assert_eq!(comm(&none, &one, &opts), lines(&[",x", ",y"]));
    assert_eq!(comm(&none, &none, &opts), Vec::<String>::new());
    assert_eq!(comm(&one, &one, &opts), lines(&[",,x", ",,y"]));
}

#[test]
fn comm_walks_unsorted_input_as_it_stands() {
    let one = lines(&["b", "a"]);
    let two = lines(&["a", "b"]);
    let opts = options((true, true, true), false, "\t");
    assert_eq!(comm(&one, &two, &opts), lines(&["\ta", "\t\tb", "a"]));
}

#[test]
fn print_column_places_the_text() {
    let opts = options((true, true, true), false, ";");
    assert_eq!(print_column(Column::First, "x", &opts), Some("x".to_string()));
    assert_eq!(print_column(Column::Second, "x", &opts), Some(";x".to_string()));
    assert_eq!(print_column(Column::Both, "x", &opts), Some(";;x".to_string()));
    assert_eq!(print_column(Column::Both, "", &opts), Some(";;".to_string()));
    let opts = options((false, false, false), false, ";");
    assert_eq!(print_column(Column::First, "x", &opts), None);
    assert_eq!(print_column(Column::Second, "x", &opts), None);
    assert_eq!(print_column(Column::Both, "x", &opts), None);
}

#[test]
fn fold_case_lowers_only_on_request() {
    let mixed = lines(&["Abc", "ÀB", "x"]);
    assert_eq!(fold_case(&mixed, false), mixed);
    assert_eq!(fold_case(&mixed, true), lines(&["abc", "àb", "x"]));
}

#[test]
fn check_inputs_refuses_two_dashes() {
    assert!(check_inputs("a", "b").is_ok());
    assert!(check_inputs("-", "b").is_ok());
    assert!(check_inputs("a", "-").is_ok());
    let e = check_inputs("-", "-").unwrap_err();
    assert_eq!(e.message(), r#"Both input files cannot be STDIN ("-")"#);
    assert!(is_dash("-"));
    assert!(!is_dash("--"));
    assert!(!is_dash(""));
}
