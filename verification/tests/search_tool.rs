use playground::geometry::Rectangle;
use playground::parse::parse_u8;
use playground::restaurant::{add_to_waitlist, eat_at_restaurant};
use playground::search::{run_search, search, search_case_insensitive, Config};
use playground::text::{contains_substr, insert_prefix, longest, split_lines, starts_with};

#[test]
fn search_one_result() {
    let contents = "Rust:\nsafe, fast, productive.\nPick three.";
    assert_eq!(search("duct", contents), vec!["safe, fast, productive."]);
}

#[test]
fn search_no_result() {
    let contents = "Rust:\nsafe, fast, productive.\nPick three.";
    assert_eq!(search("monomorphization", contents), Vec::<String>::new());
}

#[test]
fn search_is_case_sensitive() {
    let contents = "Rust:\nsafe, fast, productive.\nPick three.\nDuct tape.";
    assert_eq!(search("duct", contents), vec!["safe, fast, productive."]);
}

#[test]
fn search_case_insensitive_finds_both_spellings() {
    let contents = "Rust:\nsafe, fast, productive.\nPick three.\nTrust me.";
    assert_eq!(
        search_case_insensitive("rUsT", contents),
        vec!["Rust:", "Trust me."]
    );
}

#[test]
fn search_empty_query_keeps_every_line() {
    let contents = "a\nb";
    assert_eq!(search("", contents), vec!["a", "b"]);
}

#[test]
fn config_needs_two_arguments() {
    let args = vec!["prog".to_string(), "query".to_string()];
    assert!(matches!(
        Config::new(&args, false),
        Err("not enough arguments")
    ));
}

#[test]
fn config_takes_query_and_filename() {
    let args = vec![
        "prog".to_string(),
        "needle".to_string(),
        "haystack.txt".to_string(),
    ];
    let config = Config::new(&args, false).unwrap();
    assert_eq!(config.query, "needle");
    assert_eq!(config.filename, "haystack.txt");
    assert!(config.case_sensitive);

    let config = Config::new(&args, true).unwrap();
    assert!(!config.case_sensitive);
}

#[test]
fn run_search_follows_the_configured_mode() {
    let args = vec![
        "prog".to_string(),
        "rUsT".to_string(),
        "ignored.txt".to_string(),
    ];
    let contents = "Rust:\nTrust me.\nnothing here";

    let sensitive = Config::new(&args, false).unwrap();
    assert_eq!(run_search(&sensitive, contents), Vec::<String>::new());

    let insensitive = Config::new(&args, true).unwrap();
    assert_eq!(
        run_search(&insensitive, contents),
        vec!["Rust:", "Trust me."]
    );
}

#[test]
fn split_lines_examples() {
    assert_eq!(split_lines(""), Vec::<String>::new());
    assert_eq!(split_lines("one line"), vec!["one line"]);
    assert_eq!(split_lines("a\nb"), vec!["a", "b"]);
    assert_eq!(split_lines("a\nb\n"), vec!["a", "b"]);
    assert_eq!(split_lines("\n\n"), vec!["", ""]);
    assert_eq!(split_lines("\na"), vec!["", "a"]);
}

#[test]
fn contains_substr_examples() {
    assert!(contains_substr("hello world", "lo w"));
    assert!(contains_substr("hello world", ""));
    assert!(contains_substr("abc", "abc"));
    assert!(!contains_substr("abc", "abd"));
    assert!(!contains_substr("ab", "abc"));
}

#[test]
fn starts_with_examples() {
    assert!(starts_with("hi_rust", "hi_"));
    assert!(starts_with("rust", ""));
    assert!(!starts_with("rust", "hi_"));
    assert!(!starts_with("hi", "hi_"));
}

#[test]
fn insert_prefix_keeps_prefixed_strings() {
    let strs = vec!["hi_rust".to_string(), "rust".to_string()];
    let new_strs = insert_prefix(&strs, "hi_");
    assert_eq!(new_strs, vec!["hi_rust", "hi_rust"]);
    assert_eq!(strs[0], new_strs[0]);
}

#[test]
fn longest_picks_more_bytes_and_y_wins_ties() {
    assert_eq!(longest("1", "123"), "123");
    assert_eq!(longest("abcd", "xyz"), "abcd");
    assert_eq!(longest("ab", "xy"), "xy");
}

#[test]
fn parse_u8_reads_leading_digits() {
    assert_eq!(parse_u8("123abcd"), Ok(123));
    assert_eq!(parse_u8("255"), Ok(255));
    assert_eq!(parse_u8("0"), Ok(0));
}

#[test]
fn parse_u8_rejects_missing_digits() {
    assert_eq!(parse_u8("abcd"), Err("failed to parse string".to_string()));
    assert_eq!(parse_u8(""), Err("failed to parse string".to_string()));
}

#[test]
fn parse_u8_rejects_overflow() {
    assert_eq!(
        parse_u8("256"),
        Err("failed to parse captured string".to_string())
    );
    assert_eq!(
        parse_u8("300abc"),
        Err("failed to parse captured string".to_string())
    );
}

#[test]
fn rectangle_measures() {
    let r1 = Rectangle {
        width: 30,
        height: 50,
    };
    let r2 = Rectangle::square(10);
    assert_eq!(r1.area(), 1500);
    assert_eq!(r2.area(), 100);
    assert!(r1.can_hold(&r2));
    assert!(!r2.can_hold(&r1));
    assert!(!r1.can_hold(&r1));
}

#[test]
fn restaurant_waitlist() {
    add_to_waitlist();
    eat_at_restaurant();
}
