use twinstar::document::HeadingLevel;
use twinstar::Document;

#[test]
fn full_document_serializes_in_order() {
    let mut document = Document::new();

    document.add_heading(HeadingLevel::H1, "Heading 1");
    document.add_heading(HeadingLevel::H2, "Heading 2");
    document.add_heading(HeadingLevel::H3, "Heading 3");
    document.add_blank_line();
    document.add_text("text");
    document.add_link("gemini://gemini.circumlunar.space", "Project Gemini");
    document.add_unordered_list_item("list item");
    document.add_quote("quote");
    document.add_preformatted("preformatted");

    assert_eq!(
        document.to_string(),
        "\
        # Heading 1\n\
        ## Heading 2\n\
        ### Heading 3\n\
        \n\
        text\n\
        => gemini://gemini.circumlunar.space/ Project Gemini\n\
        * list item\n\
        > quote\n\
        ```\n\
        preformatted\n\
        ```\n\
        ",
    );
}

#[test]
fn empty_document_serializes_to_nothing() {
    let document = Document::new();
    assert_eq!(document.to_string(), "");
}

#[test]
fn blank_line_serializes_to_a_newline() {
    let mut document = Document::new();
    document.add_blank_line();
    assert_eq!(document.to_string(), "\n");
}

#[test]
fn text_lines_with_reserved_prefixes_are_escaped() {
    let mut document = Document::new();
    document.add_text("hello\n* world!");
    assert_eq!(document.to_string(), "hello\n * world!\n");

    let mut document = Document::new();
    document.add_text("=> not a link");
    assert_eq!(document.to_string(), " => not a link\n");

    let mut document = Document::new();
    document.add_text("```toggle");
    assert_eq!(document.to_string(), " ```toggle\n");
}

#[test]
fn link_labels_join_their_lines() {
    let mut document = Document::new();
    document.add_link("https://wikipedia.org", "Wiki\n\nWiki");
    assert_eq!(document.to_string(), "=> https://wikipedia.org/ Wiki Wiki\n");
}

#[test]
fn link_without_label_serializes_bare() {
    let mut document = Document::new();
    document.add_link_without_label("https://wikipedia.org");
    assert_eq!(document.to_string(), "=> https://wikipedia.org/\n");
}

#[test]
fn unparseable_link_uri_becomes_a_dot() {
    let mut document = Document::new();
    document.add_link("://not a uri", "label");
    assert_eq!(document.to_string(), "=> . label\n");
}

#[test]
fn preformatted_keeps_inner_whitespace() {
    let mut document = Document::new();
    document.add_preformatted("a\n b\n  c");
    assert_eq!(document.to_string(), "```\na\n b\n  c\n```\n");
}

#[test]
fn preformatted_with_alt_keeps_the_alt_text() {
    let mut document = Document::new();
    document.add_preformatted_with_alt("rust", "fn main() {\n}\n");
    assert_eq!(document.to_string(), "```rust\nfn main() {\n}\n```\n");
}

#[test]
fn preformatted_toggle_lines_are_escaped() {
    let mut document = Document::new();
    document.add_preformatted("```\nstill inside");
    assert_eq!(document.to_string(), "```\n ```\nstill inside\n```\n");
}

#[test]
fn heading_text_loses_its_newlines() {
    let mut document = Document::new();
    document.add_heading(HeadingLevel::H1, "Welcome!");
    assert_eq!(document.to_string(), "# Welcome!\n");

    let mut document = Document::new();
    document.add_heading(HeadingLevel::H2, "two\nlines");
    assert_eq!(document.to_string(), "## two lines\n");
}

#[test]
fn list_items_serialize_one_per_line() {
    let mut document = Document::new();
    document.add_unordered_list_item("milk");
    document.add_unordered_list_item("eggs");
    assert_eq!(document.to_string(), "* milk\n* eggs\n");
}

#[test]
fn quotes_split_into_quote_lines() {
    let mut document = Document::new();
    document.add_quote("I think,\ntherefore I am");
    assert_eq!(document.to_string(), "> I think,\n> therefore I am\n");

    let mut document = Document::new();
    document.add_quote("> nested");
    assert_eq!(document.to_string(), ">  > nested\n");
}

#[test]
fn same_operations_give_identical_output() {
    let mut first = Document::new();
    let mut second = Document::new();
    for document in [&mut first, &mut second] {
        document.add_heading(HeadingLevel::H1, "title");
        document.add_text("body\nwith two lines");
        document.add_link("gemini://example.org", "somewhere");
        document.add_preformatted_with_alt("alt\ntext", "x\n```y");
    }
    assert_eq!(first.to_string(), second.to_string());
}
