use code_graph::text::{prefix_before, same_text, slice_span, span_fits};

#[test]
fn span_fits_between_whole_characters_only() {
    let code = "aé→b";
    // a: 0..1, é: 1..3, →: 3..6, b: 6..7
    assert!(span_fits(code, 0, 0));
    assert!(span_fits(code, 0, 7));
    assert!(span_fits(code, 1, 3));
    assert!(span_fits(code, 3, 6));
    assert!(span_fits(code, 7, 7));
    assert!(!span_fits(code, 2, 3));
    assert!(!span_fits(code, 1, 2));
    assert!(!span_fits(code, 4, 6));
    assert!(!span_fits(code, 3, 5));
    assert!(!span_fits(code, 0, 8));
    assert!(!span_fits(code, 8, 8));
    assert!(!span_fits(code, 6, 3));
    assert!(span_fits("", 0, 0));
    assert!(!span_fits("", 0, 1));
}

#[test]
fn slice_span_is_the_text_between_the_offsets() {
    let code = "aé→b";
    assert_eq!(slice_span(code, 0, 7), "aé→b");
    assert_eq!(slice_span(code, 1, 3), "é");
    assert_eq!(slice_span(code, 1, 6), "é→");
    assert_eq!(slice_span(code, 6, 7), "b");
    assert_eq!(slice_span(code, 3, 3), "");
    assert_eq!(slice_span("", 0, 0), "");
}

#[test]
fn prefix_before_stops_at_the_first_stop() {
    assert_eq!(prefix_before("int add(int a,int b)", '('), "int add");
    assert_eq!(prefix_before("f(g(x))", '('), "f");
    assert_eq!(prefix_before("(x)", '('), "");
    assert_eq!(prefix_before("no stop", '('), "no stop");
    assert_eq!(prefix_before("", '('), "");
    assert_eq!(prefix_before("é→(b", '('), "é→");
    assert_eq!(prefix_before("a b", ' '), "a");
}

#[test]
fn same_text_compares_characters() {
    assert!(same_text("", ""));
    assert!(same_text("rs", "rs"));
    assert!(same_text("é→", "é→"));
    assert!(!same_text("rs", "r"));
    assert!(!same_text("rs", "rS"));
    assert!(!same_text("js", "jsx"));
    assert!(!same_text("é", "e"));
}

#[test]
fn lines_are_one_more_than_the_line_feeds() {
    use_count_lines();
}

fn use_count_lines() {
    assert_eq!(code_graph::text::count_lines(""), 1);
    assert_eq!(code_graph::text::count_lines("a"), 1);
    assert_eq!(code_graph::text::count_lines("a\n"), 2);
    assert_eq!(code_graph::text::count_lines("a\nb"), 2);
    assert_eq!(code_graph::text::count_lines("\n\n\n"), 4);
    assert_eq!(code_graph::text::count_lines("é\r\n→\rx"), 2);
}
