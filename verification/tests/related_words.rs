use code_graph::related::{chars_of, holds_token, separates};
use code_graph::{related_calls, CodeBlockType, CodeNode};

fn word(text: &str) -> Vec<char> {
    text.chars().collect()
}

fn call(id: &str, label: &str) -> CodeNode {
    CodeNode::new(id, label, "", 1, CodeBlockType::CALL, 0)
}

#[test]
fn chars_of_gives_the_characters_in_order() {
    assert_eq!(chars_of("aé→"), vec!['a', 'é', '→']);
    assert!(chars_of("").is_empty());
}

#[test]
fn separators_are_space_tab_and_line_ends() {
    for c in [' ', '\t', '\n', '\r'] {
        assert!(separates(c));
    }
    for c in ['a', '(', '_', '\u{a0}', '0'] {
        assert!(!separates(c));
    }
}

#[test]
fn a_token_is_a_whole_word_of_the_label() {
    let label = word("pub fn  foo\tbar\nbaz");
    for held in ["pub", "fn", "foo", "bar", "baz"] {
        assert!(holds_token(&label, &word(held)));
    }
    for other in ["", "fo", "oo", "pu", "az", "fn  foo", "foo\tbar", " ", "fn ", "quux"] {
        assert!(!holds_token(&label, &word(other)));
    }
    assert!(holds_token(&word("foo"), &word("foo")));
    assert!(!holds_token(&word("foo"), &word("foobar")));
    assert!(!holds_token(&word(""), &word("a")));
    assert!(!holds_token(&word("  "), &word("")));
    assert!(holds_token(&word("xfoo foo"), &word("foo")));
    assert!(holds_token(&word("foo foox"), &word("foo")));
    assert!(!holds_token(&word("xfoo foox"), &word("foo")));
}

#[test]
fn related_calls_keeps_matching_calls_in_order_once_each() {
    let calls = vec![
        call("1", "foo"),
        call("2", "bar"),
        call("3", "fn"),
        call("4", "foo"),
        call("5", ""),
        call("6", "fo"),
    ];
    let related = related_calls("fn foo foo ", &calls);
    let ids: Vec<&str> = related.iter().map(|c| c.id.as_str()).collect();
    assert_eq!(ids, vec!["1", "3", "4"]);
    assert_eq!(related[0].label, "foo");
    assert_eq!(related[1].label, "fn");
    assert!(related_calls("", &calls).is_empty());
    assert!(related_calls("fn foo", &Vec::new()).is_empty());
}

#[test]
fn related_calls_matches_names_only() {
    // A call to another `new` is taken in; a call under an alias is missed.
    let calls = vec![call("other", "new"), call("alias", "make")];
    let related = related_calls("fn new", &calls);
    let ids: Vec<&str> = related.iter().map(|c| c.id.as_str()).collect();
    assert_eq!(ids, vec!["other"]);
}
