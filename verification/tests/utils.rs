use sitebuilder::error::{cfg_error, SiteBuilderError};
use sitebuilder::markdown::RenderOptions;
use sitebuilder::text::{chars_of, lines_of, matches_at, replace_chars, same_chars, string_of};
use sitebuilder::utils::{
    file_extension, get_remote_path, glue_vec_with, is_allowed_file_type, Options,
    ALLOWED_FILE_TYPES, SITE_DIR,
};

#[test]
fn markdown_source_maps_below_the_root() {
    assert_eq!(get_remote_path("site/notes.md"), Ok(String::from("/notes.md")));
}

#[test]
fn remote_path_keeps_directories() {
    assert_eq!(get_remote_path("site/img/photo.PNG"), Ok(String::from("/img/photo.PNG")));
    assert_eq!(get_remote_path("site/"), Ok(String::from("/")));
}

#[test]
fn path_outside_the_site_directory_is_refused() {
    assert_eq!(
        get_remote_path("other/notes.md"),
        Err(SiteBuilderError::PathError(String::from("other/notes.md")))
    );
    assert_eq!(get_remote_path("site"), Err(SiteBuilderError::PathError(String::from("site"))));
    assert_eq!(
        get_remote_path("sitemap/x.txt"),
        Err(SiteBuilderError::PathError(String::from("sitemap/x.txt")))
    );
    assert_eq!(get_remote_path(""), Err(SiteBuilderError::PathError(String::new())));
}

#[test]
fn site_directory_is_site() {
    assert_eq!(SITE_DIR, "site");
}

#[test]
fn glue_follows_every_element() {
    let parts = vec![String::from("a"), String::from("bc"), String::new()];
    assert_eq!(glue_vec_with(&parts, '\n'), "a\nbc\n\n");
    assert_eq!(glue_vec_with(&vec![String::from("x")], ','), "x,");
}

#[test]
fn glue_of_nothing_is_empty() {
    assert_eq!(glue_vec_with(&Vec::new(), ','), "");
}

#[test]
fn extension_is_what_follows_the_last_dot() {
    assert_eq!(file_extension("site/notes.md"), Some(String::from("md")));
    assert_eq!(file_extension("site/archive.tar.gz"), Some(String::from("gz")));
    assert_eq!(file_extension("site/img/photo.PNG"), Some(String::from("PNG")));
    assert_eq!(file_extension("notes.txt"), Some(String::from("txt")));
    assert_eq!(file_extension("site/name."), Some(String::new()));
    assert_eq!(file_extension("site/..."), Some(String::new()));
}

#[test]
fn names_without_an_inner_dot_have_no_extension() {
    assert_eq!(file_extension("site/README"), None);
    assert_eq!(file_extension("site/.htaccess"), None);
    assert_eq!(file_extension("site.d/README"), None);
    assert_eq!(file_extension("site/.."), None);
    assert_eq!(file_extension(".."), None);
    assert_eq!(file_extension("."), None);
    assert_eq!(file_extension(""), None);
    assert_eq!(file_extension("site/v1.2/"), None);
}

#[test]
fn hidden_file_with_a_second_dot_has_an_extension() {
    assert_eq!(file_extension("site/.config.json"), Some(String::from("json")));
}

#[test]
fn allowed_file_types_are_matched_exactly() {
    assert!(is_allowed_file_type("png"));
    assert!(is_allowed_file_type("asc"));
    assert!(is_allowed_file_type("xml"));
    assert!(is_allowed_file_type("md"));
    assert!(!is_allowed_file_type("PNG"));
    assert!(!is_allowed_file_type("exe"));
    assert!(!is_allowed_file_type(""));
    assert!(!is_allowed_file_type("pn"));
}

#[test]
fn every_listed_file_type_is_allowed() {
    assert_eq!(ALLOWED_FILE_TYPES.len(), 51);
    for ext in ALLOWED_FILE_TYPES.iter() {
        assert!(is_allowed_file_type(ext));
    }
}

#[test]
fn options_start_in_the_current_directory_with_checks_on() {
    let o = Options::new();
    assert_eq!(o.data_dir, ".");
    assert!(o.md_ignore.is_empty());
    assert!(o.md_replace.is_empty());
    assert!(o.check_extensions);
    assert_eq!(o.local, None);
    assert!(!o.dry_run);
    assert_eq!(o.md_options, RenderOptions::default());
}

#[test]
fn default_options_are_empty() {
    let o = Options::default();
    assert_eq!(o.data_dir, "");
    assert!(o.md_ignore.is_empty());
    assert!(o.md_replace.is_empty());
    assert!(!o.check_extensions);
    assert_eq!(o.local, None);
    assert!(!o.dry_run);
}

#[test]
fn parsed_options_pass_through() {
    let mut o = Options::new();
    o.data_dir = String::from("data");
    o.dry_run = true;
    let got = Options::get(Ok(o)).unwrap();
    assert_eq!(got.data_dir, "data");
    assert!(got.dry_run);
}

#[test]
fn parser_status_zero_is_an_early_exit() {
    assert!(matches!(Options::get(Err(0)), Err(SiteBuilderError::EarlyExit)));
}

#[test]
fn parser_status_other_than_zero_is_an_argument_error() {
    assert!(matches!(Options::get(Err(2)), Err(SiteBuilderError::ArgumentError)));
    assert!(matches!(Options::get(Err(-1)), Err(SiteBuilderError::ArgumentError)));
}

#[test]
fn config_error_holds_its_detail() {
    assert_eq!(
        cfg_error("missing api key config"),
        SiteBuilderError::CfgError(String::from("missing api key config"))
    );
}

#[test]
fn every_error_has_its_message() {
    let s = String::from("x");
    assert_eq!(SiteBuilderError::CfgError(s.clone()).message(), "missing config error");
    assert_eq!(SiteBuilderError::NeocitiesError(s.clone()).message(), "neocities API error");
    assert_eq!(SiteBuilderError::IoError(s.clone()).message(), "fs error");
    assert_eq!(SiteBuilderError::WalkError(s.clone()).message(), "wakdir error");
    assert_eq!(SiteBuilderError::PathError(s.clone()).message(), "path contained invalid unicode");
    assert_eq!(
        SiteBuilderError::ExtensionError(s.clone()).message(),
        "invalid or missing file extension"
    );
    assert_eq!(SiteBuilderError::ArgumentError.message(), "argument error");
    assert_eq!(SiteBuilderError::EarlyExit.message(), "not an error");
}

#[test]
fn exit_code_tells_misuse_from_failure() {
    assert_eq!(SiteBuilderError::EarlyExit.exit_code(), 0);
    assert_eq!(SiteBuilderError::ArgumentError.exit_code(), 2);
    assert_eq!(SiteBuilderError::CfgError(String::new()).exit_code(), 1);
    assert_eq!(SiteBuilderError::NeocitiesError(String::new()).exit_code(), 1);
    assert_eq!(SiteBuilderError::IoError(String::new()).exit_code(), 1);
    assert_eq!(SiteBuilderError::WalkError(String::new()).exit_code(), 1);
    assert_eq!(SiteBuilderError::PathError(String::new()).exit_code(), 1);
    assert_eq!(SiteBuilderError::ExtensionError(String::new()).exit_code(), 1);
}

#[test]
fn report_is_message_then_detail() {
    assert_eq!(
        SiteBuilderError::ExtensionError(String::from("site/a.exe")).report(),
        vec![String::from("invalid or missing file extension"), String::from("site/a.exe")]
    );
    assert_eq!(SiteBuilderError::ArgumentError.report(), vec![String::from("argument error")]);
    assert_eq!(SiteBuilderError::EarlyExit.report(), vec![String::from("not an error")]);
}

#[test]
fn detail_is_what_the_error_holds() {
    assert_eq!(SiteBuilderError::IoError(String::from("denied")).detail(), Some(String::from("denied")));
    assert_eq!(SiteBuilderError::EarlyExit.detail(), None);
    assert_eq!(SiteBuilderError::ArgumentError.detail(), None);
}

#[test]
fn lines_are_split_at_line_feeds() {
    assert_eq!(lines_of("a\nb"), vec![String::from("a"), String::from("b")]);
    assert_eq!(lines_of("a\n"), vec![String::from("a"), String::new()]);
    assert_eq!(lines_of(""), vec![String::new()]);
    assert_eq!(lines_of("\n\n"), vec![String::new(), String::new(), String::new()]);
    assert_eq!(lines_of("a\r\nb"), vec![String::from("a\r"), String::from("b")]);
}

#[test]
fn characters_round_trip() {
    let text = "héllo, wörld ✓";
    assert_eq!(string_of(&chars_of(text)), text);
    assert_eq!(chars_of(text).len(), 14);
}

#[test]
fn pattern_is_found_where_it_stands() {
    let s = chars_of("abcabc");
    let pat = chars_of("bc");
    assert!(matches_at(&s, &pat, 1));
    assert!(matches_at(&s, &pat, 4));
    assert!(!matches_at(&s, &pat, 0));
    assert!(!matches_at(&s, &pat, 5));
    assert!(!matches_at(&s, &pat, 7));
    assert!(matches_at(&s, &Vec::new(), 6));
    assert!(same_chars(&s, &chars_of("abcabc")));
    assert!(!same_chars(&s, &chars_of("abcab")));
}

#[test]
fn replacing_in_characters() {
    let out = replace_chars(&chars_of("one two one"), &chars_of("one"), &chars_of("1"));
    assert_eq!(string_of(&out), "1 two 1");
    let same = replace_chars(&chars_of("abc"), &chars_of("abcd"), &chars_of("x"));
    assert_eq!(string_of(&same), "abc");
}

#[test]
fn white_space_is_what_the_standard_library_calls_white_space() {
    let mut code: u32 = 0;
    let mut seen = 0;
    while code <= 0x10ffff {
        if let Some(c) = char::from_u32(code) {
            assert_eq!(sitebuilder::text::is_white_space_char(c), c.is_whitespace(), "U+{:04X}", code);
            if c.is_whitespace() {
                seen += 1;
            }
        }
        code += 1;
    }
    assert_eq!(seen, 25);
}

#[test]
fn errors_are_found_at_the_root_of_the_library() {
    assert_eq!(
        sitebuilder::cfg_error("x"),
        sitebuilder::SiteBuilderError::CfgError(String::from("x"))
    );
}
