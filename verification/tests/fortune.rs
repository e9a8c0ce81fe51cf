use unix_tools::fortune::{
    fortune_or_none, list_matching, pick_fortune, read_fortunes, text_of, try_list_matching,
    Fortune, Output, SourceFile,
};

fn file(name: &str, lines: &[&str]) -> SourceFile {
    SourceFile {
        basename: name.to_string(),
        lines: lines.iter().map(|s| s.to_string()).collect(),
    }
}

fn fortunes() -> [Fortune; 3] {
    [
        Fortune {
            source: "fortunes".to_string(),
            text: "You cannot achieve the impossible without \
                  attempting the absurd."
                .to_string(),
        },
        Fortune {
            source: "fortunes".to_string(),
            text: "Assumption is the mother of all screw-ups."
                .to_string(),
        },
        Fortune {
            source: "fortunes".to_string(),
            text: "Neckties strangle clear thinking.".to_string(),
        },
    ]
}

#[test]
fn test_pick_fortune() {
    // Create a slice of fortunes
    let fortunes = &fortunes();
    assert_eq!(
        pick_fortune(fortunes, Some(1)).unwrap(),
        "Neckties strangle clear thinking.".to_string()
    );
}

#[test]
fn pick_fortune_same_seed_same_pick() {
    let fortunes = &fortunes();
    for seed in [0u64, 1, 2, 42, u64::MAX] {
        let first = pick_fortune(fortunes, Some(seed)).unwrap();
        assert_eq!(pick_fortune(fortunes, Some(seed)).unwrap(), first);
        assert!(fortunes.iter().any(|f| f.text == first));
    }
}

#[test]
fn pick_fortune_without_seed_picks_one_of_them() {
    let fortunes = &fortunes();
    for _ in 0..20 {
        let text = pick_fortune(fortunes, None).unwrap();
        assert!(fortunes.iter().any(|f| f.text == text));
    }
}

#[test]
fn pick_fortune_from_none() {
    assert_eq!(pick_fortune(&[], Some(1)), None);
    assert_eq!(pick_fortune(&[], None), None);
    assert_eq!(text_of(None), None);
    assert_eq!(fortune_or_none(None), "No fortunes found");
    assert_eq!(fortune_or_none(Some("x".to_string())), "x");
    let fortunes = &fortunes();
    assert_eq!(text_of(Some(&fortunes[1])), Some(fortunes[1].text.clone()));
}

#[test]
fn read_fortunes_splits_at_percent_lines() {
    let jokes = file(
        "jokes",
        &[
            "Q. What do you call a head of lettuce in a shirt and tie?",
            "A. Collared greens.",
            "%",
            "Q: Why did the gardener quit his job?",
            "A: His celery wasn't high enough.",
            "%",
            "%",
            "one line",
            "%",
        ],
    );
    let got = read_fortunes(&vec![jokes]);
    assert_eq!(got.len(), 3);
    assert_eq!(
        got[0].text,
        "Q. What do you call a head of lettuce in a shirt and tie?\n\
        A. Collared greens."
    );
    assert_eq!(got[0].source, "jokes");
    assert_eq!(
        got[1].text,
        "Q: Why did the gardener quit his job?\nA: His celery wasn't high enough."
    );
    assert_eq!(got[2].text, "one line");
}

#[test]
fn read_fortunes_keeps_sources_and_order() {
    let a = file("a", &["1", "%", "2", "%"]);
    let b = file("b", &["3", "%"]);
    let got = read_fortunes(&vec![a, b]);
    let pairs: Vec<(&str, &str)> = got.iter().map(|f| (f.source.as_str(), f.text.as_str())).collect();
    assert_eq!(pairs, vec![("a", "1"), ("a", "2"), ("b", "3")]);
    assert_eq!(read_fortunes(&vec![]).len(), 0);
    assert_eq!(read_fortunes(&vec![file("e", &[])]).len(), 0);
    assert_eq!(read_fortunes(&vec![file("p", &["%", "%"])]).len(), 0);
}

#[test]
fn read_fortunes_carries_open_lines_into_the_next_file() {
    let a = file("a", &["1", "%", "left over"]);
    let b = file("b", &["first of b", "%", " % ", "%"]);
    let got = read_fortunes(&vec![a, b]);
    let pairs: Vec<(&str, &str)> = got.iter().map(|f| (f.source.as_str(), f.text.as_str())).collect();
    assert_eq!(
        pairs,
        vec![("a", "1"), ("b", "left over\nfirst of b"), ("b", " % ")]
    );
    // what is left at the very end makes no fortune
    assert_eq!(read_fortunes(&vec![file("c", &["no end"])]).len(), 0);
}

fn shown(out: &[Output]) -> Vec<String> {
    out.iter()
        .map(|o| match o {
            Output::Source(s) => format!("E:{s}"),
            Output::Text(t) => format!("O:{t}"),
        })
        .collect()
}

#[test]
fn list_matching_names_each_source_once_in_a_row() {
    let all = vec![
        Fortune { source: "a".to_string(), text: "Mark Twain one".to_string() },
        Fortune { source: "a".to_string(), text: "nothing".to_string() },
        Fortune { source: "a".to_string(), text: "Mark Twain two".to_string() },
        Fortune { source: "b".to_string(), text: "mark twain three".to_string() },
        Fortune { source: "a".to_string(), text: "Mark Twain four".to_string() },
    ];
    let out = list_matching(&all, "Mark Twain", false);
    assert_eq!(
        shown(&out),
        vec![
            "E:(a)\n%\n",
            "O:Mark Twain one\n%\n",
            "O:Mark Twain two\n%\n",
            "O:Mark Twain four\n%\n",
        ]
    );
    let out = list_matching(&all, "Mark Twain", true);
    assert_eq!(
        shown(&out),
        vec![
            "E:(a)\n%\n",
            "O:Mark Twain one\n%\n",
            "O:Mark Twain two\n%\n",
            "E:(b)\n%\n",
            "O:mark twain three\n%\n",
            "E:(a)\n%\n",
            "O:Mark Twain four\n%\n",
        ]
    );
    assert_eq!(list_matching(&all, "Shakespeare", true).len(), 0);
    assert_eq!(list_matching(&vec![], ".", true).len(), 0);
}

#[test]
fn try_list_matching_refuses_a_bad_pattern() {
    let all = vec![Fortune { source: "a".to_string(), text: "x".to_string() }];
    let e = try_list_matching(&all, "*".to_string(), false).unwrap_err();
    assert_eq!(e.message(), r#"Invalid --pattern "*""#);
    let out = try_list_matching(&all, "x".to_string(), false).unwrap();
    assert_eq!(shown(&out), vec!["E:(a)\n%\n", "O:x\n%\n"]);
}

#[test]
fn test_read_fortunes() {
    // One input file
    let jokes = || {
        file(
            "jokes",
            &[
                "Q. What do you call a head of lettuce in a shirt and tie?",
                "A. Collared greens.",
                "%",
                "Q: Why did the gardener quit his job?",
                "A: His celery wasn't high enough.",
                "%",
                "Q. Why did the honeydew couple get married in a church?",
                "A. Their parents told them they cantaloupe.",
                "%",
                "Q: What do you call a fake noodle?",
                "A: An impasta.",
                "%",
                "Q: What did the buffalo say to his son when he left?",
                "A: Bison.",
                "%",
                "Q: What do you call a deer wearing an eye patch?",
                "A: A bad idea (bad-eye deer).",
                "%",
            ],
        )
    };
    let fortunes = read_fortunes(&vec![jokes()]);

    // Correct number and sorting
    assert_eq!(fortunes.len(), 6);
    assert_eq!(
        fortunes.first().unwrap().text,
        "Q. What do you call a head of lettuce in a shirt and tie?\n\
        A. Collared greens."
    );
    assert_eq!(
        fortunes.last().unwrap().text,
        "Q: What do you call a deer wearing an eye patch?\n\
        A: A bad idea (bad-eye deer)."
    );

    // Multiple input files
    let quotes = file(
        "quotes",
        &[
            "You cannot achieve the impossible without attempting the absurd.",
            "%",
            "Assumption is the mother of all screw-ups.",
            "%",
            "Neckties strangle clear thinking.",
            "%",
            "It is better to light a candle",
            "than to curse the darkness.",
            "%",
            "Well begun is half done.",
            "%",
        ],
    );
    let res = read_fortunes(&vec![jokes(), quotes]);
    assert_eq!(res.len(), 11);
}
