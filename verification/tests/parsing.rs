use clippy_config::metadata::{
    parse_config_field_doc, to_kebab, ClippyConfiguration, DOC_START, MALFORMED_DOC,
};

fn strings(items: &[&str]) -> Vec<String> {
    items.iter().map(|item| item.to_string()).collect()
}

/// The same steps, taken with the string methods of std.
fn parse_with_std(doc_comment: &str) -> Option<(Vec<String>, String)> {
    if !doc_comment.starts_with(" Lint: ") {
        return None;
    }
    let stop = doc_comment.find('.')?;
    let (head, tail) = doc_comment.split_at(stop);
    let lints = head[" Lint: ".len()..]
        .to_ascii_lowercase()
        .split(", ")
        .map(str::to_string)
        .collect();
    let doc = tail.trim_start_matches('.').trim().replace("\n ", "\n    ");
    Some((lints, doc))
}

const COMMENTS: [&str; 40] = [
    "",
    " ",
    ".",
    " Lint: ",
    " Lint: .",
    " Lint: A.",
    " Lint: A. ",
    " Lint: A, B. Text",
    " Lint: A,B. Text",
    " Lint: A , B. Text",
    " Lint: A,  B. Text",
    " Lint: A, , B. Text",
    " Lint: , . Text",
    " Lint: A,, B. Text",
    " Lint: A, B, . Text",
    " Lint: A... Text",
    " Lint: A. . Text",
    " Lint: A.\n Text",
    " Lint: A.\n\n Text\n More\n\n  Deeper\n",
    " Lint: A.\n Text\n\tTabbed\n",
    " Lint: A.\r\n Text\r\n More\r\n",
    " Lint: A. Text\n",
    " Lint: A. Text\n ",
    " Lint: A. Text\n \n",
    " Lint: A. Text \u{a0}\u{3000}",
    " Lint: A.\u{2003}Text",
    " Lint: A.\u{200b}Text",
    " Lint: \u{c9}COLE, STRASSE, \u{1e9e}. \u{c9}t\u{e9}",
    " Lint: \u{1f980}, CRAB. \u{1f980}\n \u{1f980}",
    " Lint: LARGE_TYPES_PASSED_BY_VALUE. The maximum size of a type.",
    " Lint: foo_bar Lint, BAZ. Text",
    " Lint: A\n, B. Text",
    "Lint: A. Text",
    " lint: A. Text",
    " Lint:A. Text",
    "  Lint: A. Text",
    " Lint: A, B and no end",
    "No marker here.",
    ". Lint: A. Text",
    " Lint: A. Text\n  two\n   three\n    four\n     five",
];

#[test]
fn round_trip_scenario() {
    let (lints, doc) =
        parse_config_field_doc(" Lint: FOO_BAR, BAZ. This does a thing.\n With detail.")
            .unwrap();
    assert_eq!(lints, strings(&["foo_bar", "baz"]));
    assert_eq!(doc, "This does a thing.\n    With detail.");
}

#[test]
fn round_trip_scenario_with_indented_line() {
    // Only the first space after the line feed is replaced: the other three stay.
    let (lints, doc) =
        parse_config_field_doc(" Lint: FOO_BAR, BAZ. This does a thing.\n    With detail.")
            .unwrap();
    assert_eq!(lints, strings(&["foo_bar", "baz"]));
    assert_eq!(doc, "This does a thing.\n       With detail.");
}

#[test]
fn penguin_example() {
    let parsed =
        parse_config_field_doc(" Lint: LINT_NAME_1, LINT_NAME_2. Papa penguin, papa penguin");
    assert_eq!(
        parsed,
        Some((
            strings(&["lint_name_1", "lint_name_2"]),
            "Papa penguin, papa penguin".to_string()
        ))
    );
}

#[test]
fn comment_without_marker_is_not_recognised() {
    assert_eq!(parse_config_field_doc("No marker here."), None);
    let config = ClippyConfiguration::new("some_name", "a text", String::new(), "No marker here.", None);
    assert!(config.lints.is_empty());
    assert_eq!(config.doc, MALFORMED_DOC);
    assert!(config.doc.contains("MALFORMED"));
}

#[test]
fn comment_without_full_stop_is_not_recognised() {
    assert_eq!(parse_config_field_doc(" Lint: FOO_BAR, BAZ and no end"), None);
    let config = ClippyConfiguration::new(
        "some_name",
        "a text",
        String::new(),
        " Lint: FOO_BAR, BAZ and no end",
        None,
    );
    assert!(config.lints.is_empty());
    assert_eq!(config.doc, "[ERROR] MALFORMED DOC COMMENT");
}

#[test]
fn marker_must_stand_at_the_start_letter_for_letter() {
    assert_eq!(parse_config_field_doc(""), None);
    assert_eq!(parse_config_field_doc("Lint: A. Text"), None);
    assert_eq!(parse_config_field_doc(" lint: A. Text"), None);
    assert_eq!(parse_config_field_doc(" Lint:A. Text"), None);
    assert_eq!(parse_config_field_doc("  Lint: A. Text"), None);
    assert_eq!(parse_config_field_doc(" Lint"), None);
    assert_eq!(parse_config_field_doc(DOC_START), None);
}

#[test]
fn nothing_after_the_full_stop_gives_an_empty_description() {
    assert_eq!(
        parse_config_field_doc(" Lint: A."),
        Some((strings(&["a"]), String::new()))
    );
    assert_eq!(
        parse_config_field_doc(" Lint: A. \n \t "),
        Some((strings(&["a"]), String::new()))
    );
    assert_eq!(
        parse_config_field_doc(" Lint: A...."),
        Some((strings(&["a"]), String::new()))
    );
}

#[test]
fn empty_list_gives_one_empty_name() {
    assert_eq!(
        parse_config_field_doc(" Lint: . Text"),
        Some((strings(&[""]), "Text".to_string()))
    );
}

#[test]
fn names_are_split_at_comma_and_space_only() {
    let names = |comment: &str| parse_config_field_doc(comment).unwrap().0;
    assert_eq!(names(" Lint: A,B. x"), strings(&["a,b"]));
    assert_eq!(names(" Lint: A , B. x"), strings(&["a ", "b"]));
    assert_eq!(names(" Lint: A,  B. x"), strings(&["a", " b"]));
    assert_eq!(names(" Lint: A, , B. x"), strings(&["a", "", "b"]));
    assert_eq!(names(" Lint: A,, B. x"), strings(&["a,", "b"]));
    assert_eq!(names(" Lint: A, B, . x"), strings(&["a", "b", ""]));
    assert_eq!(names(" Lint:  A. x"), strings(&[" a"]));
    assert_eq!(names(" Lint: A\n, B. x"), strings(&["a\n", "b"]));
}

#[test]
fn names_keep_their_order() {
    let (lints, _) = parse_config_field_doc(" Lint: ZETA, ALPHA, MU, ALPHA. x").unwrap();
    assert_eq!(lints, strings(&["zeta", "alpha", "mu", "alpha"]));
}

#[test]
fn only_ascii_letters_are_lowered() {
    let (lints, doc) =
        parse_config_field_doc(" Lint: \u{c9}COLE, STRASSE, \u{1e9e}. \u{c9}T\u{c9}").unwrap();
    assert_eq!(lints, strings(&["\u{c9}cole", "strasse", "\u{1e9e}"]));
    assert_eq!(doc, "\u{c9}T\u{c9}");
}

#[test]
fn description_starts_after_the_first_full_stop() {
    let (lints, doc) = parse_config_field_doc(" Lint: A. One. Two. Three.").unwrap();
    assert_eq!(lints, strings(&["a"]));
    assert_eq!(doc, "One. Two. Three.");
}

#[test]
fn leading_full_stops_are_dropped_from_the_description() {
    let doc = |comment: &str| parse_config_field_doc(comment).unwrap().1;
    assert_eq!(doc(" Lint: A... Text"), "Text");
    assert_eq!(doc(" Lint: A. . Text"), ". Text");
    assert_eq!(doc(" Lint: A.Text."), "Text.");
}

#[test]
fn description_is_trimmed_of_unicode_white_space() {
    let doc = |comment: &str| parse_config_field_doc(comment).unwrap().1;
    assert_eq!(doc(" Lint: A. \t\r\n Text \u{a0}\u{3000}\u{2028}\n"), "Text");
    assert_eq!(doc(" Lint: A.\u{2003}Text\u{85}"), "Text");
    // A zero width space is no white space.
    assert_eq!(doc(" Lint: A.\u{200b}Text"), "\u{200b}Text");
}

#[test]
fn continuation_lines_are_indented_by_four() {
    let doc = |comment: &str| parse_config_field_doc(comment).unwrap().1;
    assert_eq!(
        doc(" Lint: A. First\n Second\n\n Third\n  Fourth\nFifth"),
        "First\n    Second\n\n    Third\n     Fourth\nFifth"
    );
    assert_eq!(doc(" Lint: A. First\n\tSecond"), "First\n\tSecond");
    // The white space at the end goes before lines are indented.
    assert_eq!(doc(" Lint: A. First\n \n "), "First");
}

#[test]
fn parsing_agrees_with_std_string_methods() {
    for comment in COMMENTS {
        assert_eq!(parse_config_field_doc(comment), parse_with_std(comment), "{comment:?}");
    }
}

#[test]
fn well_formed_comments_give_their_names_and_prose() {
    let lists: [&[&str]; 5] = [
        &["A"],
        &["FOO_BAR", "BAZ"],
        &["one", "Two", "THREE"],
        &["", "x"],
        &["with space", "comma,", " lead"],
    ];
    let proses = ["", "Text", " Some text.\n More text.\n", "...dots first"];
    for names in lists {
        for prose in proses {
            let comment = format!(" Lint: {}.{}", names.join(", "), prose);
            let (lints, doc) = parse_config_field_doc(&comment).unwrap();
            let lower: Vec<String> = names.iter().map(|name| name.to_ascii_lowercase()).collect();
            assert_eq!(lints, lower);
            assert_eq!(
                doc,
                prose.trim_start_matches('.').trim().replace("\n ", "\n    ")
            );
        }
    }
}

#[test]
fn unrecognised_comments_fall_back() {
    for comment in COMMENTS {
        let recognised = comment.starts_with(" Lint: ") && comment.contains('.');
        assert_eq!(parse_config_field_doc(comment).is_some(), recognised, "{comment:?}");
        let config = ClippyConfiguration::new("name", "type", "0".to_string(), comment, None);
        if recognised {
            assert!(!config.lints.is_empty());
            assert_ne!(config.doc, MALFORMED_DOC);
        } else {
            assert!(config.lints.is_empty());
            assert_eq!(config.doc, MALFORMED_DOC);
        }
    }
}

#[test]
fn identifier_scenario() {
    assert_eq!(to_kebab("max_line_length"), "max-line-length");
}

#[test]
fn kebab_case_changes_underscores_only() {
    assert_eq!(to_kebab(""), "");
    assert_eq!(to_kebab("_"), "-");
    assert_eq!(to_kebab("__a__"), "--a--");
    assert_eq!(to_kebab("already-kebab"), "already-kebab");
    assert_eq!(to_kebab("Mixed_Case name_\u{e9}_\u{1f980}"), "Mixed-Case name-\u{e9}-\u{1f980}");
}

#[test]
fn kebab_case_is_idempotent_and_keeps_the_length() {
    for name in ["", "_", "a_b", "a-b", "a__b_-_c", "max_line_length", "\u{e9}_\u{1f980}_"] {
        let once = to_kebab(name);
        assert_eq!(to_kebab(&once), once);
        assert_eq!(once.len(), name.len());
        assert_eq!(once.chars().count(), name.chars().count());
        assert_eq!(once, name.replace('_', "-"));
    }
}

#[test]
fn new_fills_every_field() {
    let config = ClippyConfiguration::new(
        "too_many_lines_threshold",
        "a whole number",
        "100".to_string(),
        " Lint: TOO_MANY_LINES. The maximum number of lines a function or method can have",
        Some("no longer used"),
    );
    assert_eq!(config.name, "too-many-lines-threshold");
    assert_eq!(config.config_type, "a whole number");
    assert_eq!(config.default, "100");
    assert_eq!(config.lints, strings(&["too_many_lines"]));
    assert_eq!(config.doc, "The maximum number of lines a function or method can have");
    assert_eq!(config.deprecation_reason, Some("no longer used"));
}

#[test]
fn default_record_is_empty() {
    let config = ClippyConfiguration::default();
    assert_eq!(config.name, "");
    assert_eq!(config.config_type, "");
    assert_eq!(config.default, "");
    assert!(config.lints.is_empty());
    assert_eq!(config.doc, "");
    assert_eq!(config.deprecation_reason, None);
}

#[test]
fn clone_holds_the_same() {
    let config = ClippyConfiguration::new(
        "a_b",
        "true or false",
        "false".to_string(),
        " Lint: A, B. Text\n more",
        Some("gone"),
    );
    let copy = config.clone();
    assert_eq!(copy.name, config.name);
    assert_eq!(copy.config_type, config.config_type);
    assert_eq!(copy.default, config.default);
    assert_eq!(copy.lints, config.lints);
    assert_eq!(copy.doc, config.doc);
    assert_eq!(copy.deprecation_reason, config.deprecation_reason);
}
