use line_search::{push_if_found, search, search_case_insensitive};

#[test]
fn one_result() {
    let query = "duct";
    let contents = "\
Rust:
safe, fast, productive.
Pick three.";

    assert_eq!(vec!["safe, fast, productive."], search(query, contents));
}

#[test]
fn case_insensitive_search() {
    let query = "rUsT";
    let contents = "\
Rust:
safe, fast, productive.
Pick three.";

    assert_eq!(vec!["Rust:"], search_case_insensitive(query, contents));
}

#[test]
fn mixed_case_query_finds_nothing_when_case_counts() {
    let contents = "Rust:\nsafe, fast, productive.\nPick three.";
    assert!(search("rUsT", contents).is_empty());
}

#[test]
fn matches_come_in_text_order() {
    let contents = "one fish\ntwo\nred fish\nblue\nfish";
    assert_eq!(vec!["one fish", "red fish", "fish"], search("fish", contents));
    assert_eq!(
        vec!["one fish", "red fish", "fish"],
        search_case_insensitive("FISH", contents)
    );
}

#[test]
fn equal_lines_are_each_reported() {
    let contents = "echo\nsilence\necho\n";
    assert_eq!(vec!["echo", "echo"], search("ch", contents));
    assert_eq!(vec!["echo", "echo"], search_case_insensitive("CH", contents));
}

#[test]
fn searching_again_finds_the_same() {
    let contents = "Alpha\nbeta\nALPHABET\ngamma\n";
    assert_eq!(search("lph", contents), search("lph", contents));
    assert_eq!(
        search_case_insensitive("lph", contents),
        search_case_insensitive("lph", contents)
    );
    assert_eq!(vec!["Alpha"], search("lph", contents));
    assert_eq!(vec!["Alpha", "ALPHABET"], search_case_insensitive("lph", contents));
}

#[test]
fn folded_matches_keep_their_letter_case() {
    let contents = "To: YOU\nfrom: Me\nto whom\n";
    let found = search_case_insensitive("tO", contents);
    assert_eq!(vec!["To: YOU", "to whom"], found);
}

#[test]
fn results_point_into_the_text() {
    let contents = String::from("first line\nsecond Line\nthird\n");
    let start = contents.as_ptr() as usize;
    let end = start + contents.len();
    for found in [search("line", &contents), search_case_insensitive("LINE", &contents)] {
        assert!(!found.is_empty());
        for line in found {
            let at = line.as_ptr() as usize;
            assert!(start <= at && at + line.len() <= end);
        }
    }
    let folded = search_case_insensitive("LINE", &contents);
    assert_eq!(2, folded.len());
    assert_eq!(start + 11, folded[1].as_ptr() as usize);
}

#[test]
fn empty_query_matches_every_line() {
    let contents = "a\n\nB c\n";
    assert_eq!(vec!["a", "", "B c"], search("", contents));
    assert_eq!(vec!["a", "", "B c"], search_case_insensitive("", contents));
}

#[test]
fn empty_query_on_empty_text_finds_nothing() {
    assert!(search("", "").is_empty());
    assert!(search_case_insensitive("", "").is_empty());
}

#[test]
fn empty_text_has_no_matches() {
    assert!(search("a", "").is_empty());
    assert!(search_case_insensitive("a", "").is_empty());
}

#[test]
fn trailing_terminator_adds_no_line() {
    assert_eq!(vec!["a", "b"], search("", "a\nb\n"));
    assert_eq!(vec!["a", "b"], search("", "a\nb"));
    assert_eq!(vec!["a", "b"], search_case_insensitive("", "a\nb\n"));
    assert_eq!(vec!["a", "b"], search("", "a\r\nb\r\n"));
}

#[test]
fn a_lone_line_feed_is_one_empty_line() {
    assert_eq!(vec![""], search("", "\n"));
    assert_eq!(vec!["a", ""], search("", "a\n\n"));
}

#[test]
fn carriage_return_belongs_to_the_terminator_only_before_a_line_feed() {
    assert_eq!(vec!["foo", "bar", "", "baz\r"], search("", "foo\nbar\n\r\nbaz\r"));
    assert_eq!(vec!["a\rb", "c\r"], search("", "a\rb\r\nc\r\r\n"));
    assert!(search("\r", "ab\r\ncd\r\n").is_empty());
    assert_eq!(vec!["cd\r"], search("\r", "ab\r\ncd\r"));
}

#[test]
fn a_query_never_matches_across_lines() {
    assert!(search("a\nb", "a\nb").is_empty());
    assert!(search("ab", "a\nb").is_empty());
    assert!(search_case_insensitive("AB", "a\nb").is_empty());
}

#[test]
fn a_query_longer_than_the_line_does_not_match() {
    assert!(search("abcd", "abc\nbcd").is_empty());
    assert_eq!(vec!["abc"], search("abc", "abc\nbcd"));
}

#[test]
fn lowercase_reaches_beyond_ascii() {
    let contents = "ÄPFEL und Birnen\nÉcole\nΣοφία\n";
    assert_eq!(vec!["ÄPFEL und Birnen"], search_case_insensitive("äpfel", contents));
    assert_eq!(vec!["École"], search_case_insensitive("éCOLE", contents));
    assert_eq!(vec!["Σοφία"], search_case_insensitive("σοφία", contents));
    assert!(search("äpfel", contents).is_empty());
}

#[test]
fn push_if_found_keeps_the_line_not_the_key() {
    let mut kept: Vec<&str> = vec!["earlier"];
    push_if_found(&mut kept, "Rust:", "rust:", "rust");
    assert_eq!(vec!["earlier", "Rust:"], kept);
}

#[test]
fn push_if_found_compares_the_key_exactly() {
    let mut kept: Vec<&str> = vec!["earlier"];
    push_if_found(&mut kept, "rust:", "Rust:", "rust");
    assert_eq!(vec!["earlier"], kept);
    push_if_found(&mut kept, "anything", "key", "");
    assert_eq!(vec!["earlier", "anything"], kept);
}
