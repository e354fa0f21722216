use html_search::{snippet_to_html, sort_by_start, Snippet};

fn render(content: &str, highlighted: Vec<(usize, usize)>) -> String {
    snippet_to_html(&Snippet { content: content.to_string(), highlighted })
}

#[test]
fn one_range_at_the_start() {
    assert_eq!(render("hello world", vec![(0, 5)]), "<mark>hello</mark> world");
}

#[test]
fn ranges_out_of_order_are_sorted() {
    assert_eq!(render("abcdef", vec![(3, 4), (0, 1)]), "<mark>a</mark>bc<mark>d</mark>ef");
    assert_eq!(render("abcdef", vec![(0, 1), (3, 4)]), "<mark>a</mark>bc<mark>d</mark>ef");
}

#[test]
fn no_ranges_leave_the_content_as_it_is() {
    assert_eq!(render("hello world", vec![]), "hello world");
    assert_eq!(render("", vec![]), "");
    assert_eq!(render("a <b> & c", vec![]), "a <b> & c");
}

#[test]
fn range_in_the_middle_and_at_the_end() {
    assert_eq!(render("hello world", vec![(6, 11)]), "hello <mark>world</mark>");
    assert_eq!(render("hello world", vec![(3, 8)]), "hel<mark>lo wo</mark>rld");
    assert_eq!(render("hello world", vec![(0, 11)]), "<mark>hello world</mark>");
}

#[test]
fn adjacent_ranges_are_both_marked() {
    assert_eq!(render("abcdef", vec![(0, 2), (2, 4)]), "<mark>ab</mark><mark>cd</mark>ef");
}

#[test]
fn empty_range_leaves_an_empty_mark() {
    assert_eq!(render("abc", vec![(1, 1)]), "a<mark></mark>bc");
    assert_eq!(render("abc", vec![(0, 0)]), "<mark></mark>abc");
    assert_eq!(render("abc", vec![(3, 3)]), "abc<mark></mark>");
    assert_eq!(render("", vec![(0, 0)]), "<mark></mark>");
}

#[test]
fn overlapping_range_is_cut_at_the_cursor() {
    assert_eq!(render("abcdefgh", vec![(0, 4), (2, 6)]), "<mark>abcd</mark><mark>ef</mark>gh");
    assert_eq!(render("abcdefgh", vec![(2, 6), (0, 4)]), "<mark>abcd</mark><mark>ef</mark>gh");
}

#[test]
fn range_inside_an_earlier_one_is_dropped() {
    assert_eq!(render("abcdefgh", vec![(0, 6), (2, 4)]), "<mark>abcdef</mark>gh");
    assert_eq!(render("abcdefgh", vec![(0, 6), (2, 6)]), "<mark>abcdef</mark>gh");
    assert_eq!(render("abcdefgh", vec![(1, 3), (1, 3)]), "a<mark>bc</mark>defgh");
}

#[test]
fn ranges_that_start_together_keep_their_order() {
    assert_eq!(render("abcdefgh", vec![(0, 2), (0, 5)]), "<mark>ab</mark><mark>cde</mark>fgh");
    assert_eq!(render("abcdefgh", vec![(0, 5), (0, 2)]), "<mark>abcde</mark>fgh");
}

#[test]
fn end_behind_the_content_is_pulled_back() {
    assert_eq!(render("hello", vec![(2, 100)]), "he<mark>llo</mark>");
    assert_eq!(render("hello", vec![(0, usize::MAX)]), "<mark>hello</mark>");
}

#[test]
fn range_outside_the_content_is_dropped() {
    assert_eq!(render("hello", vec![(6, 9)]), "hello");
    assert_eq!(render("hello", vec![(usize::MAX, usize::MAX)]), "hello");
    assert_eq!(render("hello", vec![(5, 9)]), "hello<mark></mark>");
}

#[test]
fn range_with_its_ends_in_the_wrong_order_is_dropped() {
    assert_eq!(render("hello", vec![(4, 2)]), "hello");
    assert_eq!(render("hello", vec![(4, 2), (0, 1)]), "<mark>h</mark>ello");
}

#[test]
fn offsets_count_bytes() {
    // 'é' takes two bytes, '€' three, '𝄞' four.
    assert_eq!(render("é€𝄞x", vec![(0, 2)]), "<mark>é</mark>€𝄞x");
    assert_eq!(render("é€𝄞x", vec![(2, 5)]), "é<mark>€</mark>𝄞x");
    assert_eq!(render("é€𝄞x", vec![(5, 9)]), "é€<mark>𝄞</mark>x");
    assert_eq!(render("é€𝄞x", vec![(9, 10)]), "é€𝄞<mark>x</mark>");
    assert_eq!(render("é€𝄞x", vec![(0, 2), (5, 9)]), "<mark>é</mark>€<mark>𝄞</mark>x");
}

#[test]
fn range_that_cuts_a_character_is_dropped() {
    assert_eq!(render("é€𝄞x", vec![(1, 2)]), "é€𝄞x");
    assert_eq!(render("é€𝄞x", vec![(0, 1)]), "é€𝄞x");
    assert_eq!(render("é€𝄞x", vec![(2, 4)]), "é€𝄞x");
    assert_eq!(render("é€𝄞x", vec![(6, 9)]), "é€𝄞x");
    assert_eq!(render("é€𝄞x", vec![(0, 1), (2, 5)]), "é<mark>€</mark>𝄞x");
}

#[test]
fn overlap_is_cut_at_a_cursor_between_characters() {
    assert_eq!(render("é€𝄞x", vec![(0, 5), (2, 9)]), "<mark>é€</mark><mark>𝄞</mark>x");
    // The second range starts inside a character, but the cut moves its start.
    assert_eq!(render("é€𝄞x", vec![(0, 5), (3, 9)]), "<mark>é€</mark><mark>𝄞</mark>x");
}

#[test]
fn content_is_not_escaped() {
    assert_eq!(render("a<b>&c", vec![(1, 4)]), "a<mark><b></mark>&c");
    assert_eq!(render("<mark>x</mark>", vec![(6, 7)]), "<mark><mark>x</mark></mark>");
}

#[test]
fn length_grows_by_the_marks_of_each_range_that_is_written() {
    let content = "the quick brown fox";
    let marks = "<mark>".len() + "</mark>".len();
    assert_eq!(marks, 13);
    assert_eq!(render(content, vec![]).len(), content.len());
    assert_eq!(render(content, vec![(4, 9)]).len(), content.len() + marks);
    assert_eq!(render(content, vec![(4, 9), (16, 19)]).len(), content.len() + 2 * marks);
    // The second range lies inside the first and is not written.
    assert_eq!(render(content, vec![(4, 9), (5, 8)]).len(), content.len() + marks);
    // Neither is a range that ends before it starts.
    assert_eq!(render(content, vec![(9, 4)]).len(), content.len());
}

#[test]
fn without_the_marks_the_content_is_left() {
    let content = "é€𝄞 and some plain text";
    let cases: Vec<Vec<(usize, usize)>> = vec![
        vec![],
        vec![(0, 2)],
        vec![(2, 5), (0, 2)],
        vec![(0, 9), (5, 12), (11, 14)],
        vec![(1, 3), (300, 2), (10, 400)],
        vec![(9, 9), (9, 9), (9, 10)],
    ];
    for ranges in cases {
        let html = render(content, ranges);
        assert_eq!(html.replace("<mark>", "").replace("</mark>", ""), content);
    }
}

#[test]
fn rendering_is_a_function_of_the_snippet() {
    let snippet = Snippet { content: "hello world".to_string(), highlighted: vec![(6, 11), (0, 5)] };
    let first = snippet_to_html(&snippet);
    let second = snippet_to_html(&snippet);
    assert_eq!(first, second);
    assert_eq!(first, "<mark>hello</mark> <mark>world</mark>");
    assert_eq!(snippet.highlighted, vec![(6, 11), (0, 5)]);
}

#[test]
fn sorted_ranges_render_as_the_given_ones() {
    let given = vec![(7, 9), (0, 3), (4, 6), (0, 2)];
    let sorted = sort_by_start(&given);
    assert_eq!(render("0123456789", sorted), render("0123456789", given));
}

#[test]
fn sorting_is_stable() {
    assert_eq!(sort_by_start(&vec![]), vec![]);
    assert_eq!(sort_by_start(&vec![(3, 4), (0, 1)]), vec![(0, 1), (3, 4)]);
    assert_eq!(
        sort_by_start(&vec![(2, 9), (1, 5), (2, 3), (0, 0), (1, 1), (2, 4)]),
        vec![(0, 0), (1, 5), (1, 1), (2, 9), (2, 3), (2, 4)]
    );
    assert_eq!(sort_by_start(&vec![(5, 1), (5, 0), (5, 2)]), vec![(5, 1), (5, 0), (5, 2)]);
}

#[test]
fn sorting_twice_is_sorting_once() {
    let given = vec![(9, 1), (3, 3), (9, 0), (0, 5), (3, 1)];
    let once = sort_by_start(&given);
    assert_eq!(sort_by_start(&once), once);
}

#[test]
fn a_snippet_is_well_formed_when_each_range_fits() {
    let snippet = |content: &str, highlighted: Vec<(usize, usize)>| Snippet {
        content: content.to_string(),
        highlighted,
    };
    assert!(snippet("hello", vec![]).is_well_formed());
    assert!(snippet("", vec![(0, 0)]).is_well_formed());
    assert!(snippet("hello", vec![(0, 5), (2, 3), (5, 5)]).is_well_formed());
    // Overlap and disorder are no defect.
    assert!(snippet("hello", vec![(3, 5), (0, 4)]).is_well_formed());
    assert!(snippet("é€𝄞x", vec![(0, 2), (2, 5), (5, 9), (9, 10)]).is_well_formed());
    assert!(!snippet("hello", vec![(0, 6)]).is_well_formed());
    assert!(!snippet("hello", vec![(3, 2)]).is_well_formed());
    assert!(!snippet("hello", vec![(0, 1), (7, 9)]).is_well_formed());
    assert!(!snippet("é€𝄞x", vec![(0, 1)]).is_well_formed());
    assert!(!snippet("é€𝄞x", vec![(3, 5)]).is_well_formed());
}

#[test]
fn well_formed_ranges_that_do_not_overlap_are_marked_as_they_are() {
    let content = "the quick brown fox";
    let snippet = Snippet {
        content: content.to_string(),
        highlighted: vec![(16, 19), (4, 9), (10, 15)],
    };
    assert!(snippet.is_well_formed());
    assert_eq!(
        snippet_to_html(&snippet),
        "the <mark>quick</mark> <mark>brown</mark> <mark>fox</mark>"
    );
}
