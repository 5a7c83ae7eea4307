use sitebuilder::markdown::{
    assemble, extract_head, page_path_of, preprocess, resolve_prefix, substitute, RenderOptions,
    Replacement,
};

fn rule(trigger: &str, replacement: &str) -> Replacement {
    Replacement { trigger: String::from(trigger), replacement: String::from(replacement) }
}

fn page_text(text: &str, prefix: &str, postfix: &str, rules: &Vec<Replacement>, options: &RenderOptions) -> String {
    String::from_utf8(preprocess(text, prefix, postfix, rules, options)).unwrap()
}

#[test]
fn head_line_goes_to_the_prefix_and_leaves_the_body() {
    let split = extract_head("(HEAD)<link>\n\n# Title");
    assert_eq!(split.extra_head, "<link>");
    assert_eq!(split.body, "# Title");
    let prefix = resolve_prefix("<head>##EXTRAHEAD##</head>", &split.extra_head);
    assert_eq!(prefix, "<head><link></head>");
}

#[test]
fn page_of_a_source_with_a_head_line() {
    let page = page_text(
        "(HEAD)<link>\n\n# Title",
        "<head>##EXTRAHEAD##</head>",
        "</html>",
        &Vec::new(),
        &RenderOptions::default(),
    );
    assert_eq!(page, "<head><link></head><h1>Title</h1>\n</html>");
}

#[test]
fn source_without_head_lines_is_all_body() {
    let split = extract_head("# Title\n(HEAD)late\n");
    assert_eq!(split.extra_head, "");
    assert_eq!(split.body, "# Title\n(HEAD)late\n");
}

#[test]
fn head_lines_are_joined_with_line_feeds() {
    let split = extract_head("(HEAD)<a>\n(HEAD)<b>\n(HEAD)<c>\ntext\nmore");
    assert_eq!(split.extra_head, "<a>\n<b>\n<c>");
    assert_eq!(split.body, "text\nmore");
}

#[test]
fn blank_lines_among_head_lines_are_passed_over() {
    let split = extract_head("\n(HEAD)<a>\n  \t\n\n(HEAD)<b>\n \nbody\n\n(HEAD)no");
    assert_eq!(split.extra_head, "<a>\n<b>");
    assert_eq!(split.body, "body\n\n(HEAD)no");
}

#[test]
fn long_head_lines_leave_no_trace_in_the_body() {
    let split = extract_head("(HEAD)<meta name=\"description\" content=\"a long line\">\nBody");
    assert_eq!(split.extra_head, "<meta name=\"description\" content=\"a long line\">");
    assert_eq!(split.body, "Body");
}

#[test]
fn head_line_without_line_feed_ends_the_text() {
    let split = extract_head("(HEAD)<only>");
    assert_eq!(split.extra_head, "<only>");
    assert_eq!(split.body, "");
}

#[test]
fn source_of_head_and_blank_lines_has_an_empty_body() {
    let split = extract_head("(HEAD)a\n\n(HEAD)b\n\n");
    assert_eq!(split.extra_head, "a\nb");
    assert_eq!(split.body, "");
}

#[test]
fn empty_source_has_no_head_and_no_body() {
    let split = extract_head("");
    assert_eq!(split.extra_head, "");
    assert_eq!(split.body, "");
}

#[test]
fn bare_marker_gives_an_empty_head_line() {
    let split = extract_head("(HEAD)\n(HEAD)x\nrest");
    assert_eq!(split.extra_head, "\nx");
    assert_eq!(split.body, "rest");
}

#[test]
fn marker_must_open_the_line() {
    let split = extract_head(" (HEAD)x\nrest");
    assert_eq!(split.extra_head, "");
    assert_eq!(split.body, " (HEAD)x\nrest");
}

#[test]
fn carriage_return_stays_in_the_head_line() {
    let split = extract_head("(HEAD)x\r\n\r\nbody\r\n");
    assert_eq!(split.extra_head, "x\r");
    assert_eq!(split.body, "body\r\n");
}

#[test]
fn unicode_white_space_counts_as_blank() {
    let split = extract_head("\u{00a0}\u{2003}\n(HEAD)é\nüber");
    assert_eq!(split.extra_head, "é");
    assert_eq!(split.body, "über");
}

#[test]
fn prefix_without_placeholder_stays_as_it_is() {
    assert_eq!(resolve_prefix("<head></head>", "<link>"), "<head></head>");
}

#[test]
fn every_placeholder_is_filled() {
    assert_eq!(
        resolve_prefix("##EXTRAHEAD##|##EXTRAHEAD##", "x"),
        "x|x"
    );
}

#[test]
fn placeholder_gives_way_to_an_empty_block() {
    assert_eq!(resolve_prefix("<head>##EXTRAHEAD##</head>", ""), "<head></head>");
}

#[test]
fn substitution_replaces_every_occurrence() {
    let rules = vec![rule("REP=name", "World")];
    assert_eq!(substitute("Hello REP=name, REP=name!", &rules), "Hello World, World!");
}

#[test]
fn substitutions_apply_in_order() {
    let rules = vec![rule("a", "b"), rule("b", "c")];
    assert_eq!(substitute("aab", &rules), "ccc");
    let reversed = vec![rule("b", "c"), rule("a", "b")];
    assert_eq!(substitute("aab", &reversed), "bbc");
}

#[test]
fn occurrences_are_taken_from_the_left_without_overlap() {
    let rules = vec![rule("aa", "b")];
    assert_eq!(substitute("aaa", &rules), "ba");
    assert_eq!(substitute("aaaa", &rules), "bb");
}

#[test]
fn replacement_is_not_searched_again() {
    let rules = vec![rule("a", "aa")];
    assert_eq!(substitute("aXa", &rules), "aaXaa");
}

#[test]
fn empty_trigger_matches_between_all_characters() {
    let rules = vec![rule("", "-")];
    assert_eq!(substitute("abc", &rules), "-a-b-c-");
    assert_eq!(substitute("", &rules), "-");
}

#[test]
fn no_rules_leave_the_body() {
    assert_eq!(substitute("REP=x stays", &Vec::new()), "REP=x stays");
}

#[test]
fn substitution_reaches_the_body_only() {
    let rules = vec![rule("REP=x", "y")];
    let page = page_text(
        "(HEAD)REP=x\nREP=x",
        "[##EXTRAHEAD##]",
        "REP=x",
        &rules,
        &RenderOptions::default(),
    );
    assert_eq!(page, "[REP=x]<p>y</p>\nREP=x");
}

#[test]
fn assembled_page_is_prefix_body_postfix() {
    assert_eq!(assemble("<a>", "é", "</a>"), "<a>é</a>".as_bytes().to_vec());
    assert_eq!(assemble("", "", ""), Vec::<u8>::new());
}

#[test]
fn rendering_turns_markdown_into_html() {
    let page = page_text("*hi*", "", "", &Vec::new(), &RenderOptions::default());
    assert_eq!(page, "<p><em>hi</em></p>\n");
    assert_ne!(page, "*hi*");
}

#[test]
fn strikethrough_is_rendered_where_switched_on() {
    let plain = RenderOptions::default();
    let mut with = RenderOptions::default();
    with.strikethrough = true;
    assert_eq!(page_text("~~x~~", "", "", &Vec::new(), &plain), "<p>~~x~~</p>\n");
    assert_eq!(page_text("~~x~~", "", "", &Vec::new(), &with), "<p><del>x</del></p>\n");
}

#[test]
fn raw_html_passes_where_switched_on() {
    let plain = RenderOptions::default();
    let mut with = RenderOptions::default();
    with.raw_html = true;
    assert_eq!(
        page_text("<b>x</b>", "", "", &Vec::new(), &plain),
        "<p><!-- raw HTML omitted -->x<!-- raw HTML omitted --></p>\n"
    );
    assert_eq!(page_text("<b>x</b>", "", "", &Vec::new(), &with), "<p><b>x</b></p>\n");
}

#[test]
fn tables_are_rendered_where_switched_on() {
    let plain = RenderOptions::default();
    let mut with = RenderOptions::default();
    with.tables = true;
    let source = "| a |\n|---|\n| b |\n";
    assert!(!page_text(source, "", "", &Vec::new(), &plain).contains("<table>"));
    assert!(page_text(source, "", "", &Vec::new(), &with).contains("<table>"));
}

#[test]
fn remaining_extensions_follow_their_switches() {
    let plain = RenderOptions::default();
    let none: Vec<Replacement> = Vec::new();

    let mut tasks = RenderOptions::default();
    tasks.task_lists = true;
    assert!(!page_text("- [x] done\n", "", "", &none, &plain).contains("checkbox"));
    assert!(page_text("- [x] done\n", "", "", &none, &tasks).contains("checkbox"));

    let mut links = RenderOptions::default();
    links.autolink = true;
    assert!(!page_text("see https://example.com now", "", "", &none, &plain).contains("<a "));
    assert!(page_text("see https://example.com now", "", "", &none, &links).contains("<a "));

    let mut sup = RenderOptions::default();
    sup.superscript = true;
    assert!(!page_text("e = mc^2^", "", "", &none, &plain).contains("<sup>"));
    assert!(page_text("e = mc^2^", "", "", &none, &sup).contains("<sup>"));

    let mut notes = RenderOptions::default();
    notes.footnotes = true;
    let text = "Hi[^1].\n\n[^1]: There.\n";
    assert!(!page_text(text, "", "", &none, &plain).contains("footnote"));
    assert!(page_text(text, "", "", &none, &notes).contains("footnote"));

    let mut lists = RenderOptions::default();
    lists.description_lists = true;
    let text = "Term\n\n: Details\n";
    assert!(!page_text(text, "", "", &none, &plain).contains("<dl>"));
    assert!(page_text(text, "", "", &none, &lists).contains("<dl>"));
}

#[test]
fn default_dialect_has_no_extension() {
    let d = RenderOptions::default();
    assert_eq!(
        d,
        RenderOptions {
            tables: false,
            strikethrough: false,
            footnotes: false,
            task_lists: false,
            autolink: false,
            superscript: false,
            description_lists: false,
            raw_html: false,
        }
    );
}

#[test]
fn page_path_ends_in_html() {
    assert_eq!(page_path_of("/notes.md"), "/notes.html");
    assert_eq!(page_path_of("/blog/2020.entry.md"), "/blog/2020.entry.html");
}

#[test]
fn page_path_keeps_other_endings() {
    assert_eq!(page_path_of("/notes.txt"), "/notes.txt");
    assert_eq!(page_path_of("/md"), "/md");
    assert_eq!(page_path_of(""), "");
    assert_eq!(page_path_of("/notes.MD"), "/notes.MD");
}
