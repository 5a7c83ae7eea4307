use sitebuilder::error::SiteBuilderError;
use sitebuilder::markdown::{RenderOptions, Replacement};
use sitebuilder::config::{parse_replacement, set_rule, ConfigSources, Source};
use sitebuilder::processor::{EntryKind, LocalEntry, Processor};
use sitebuilder::step::{Action, Event, LocalWrite};
use sitebuilder::sync::{RemoteItem, SiteRecord};
use sitebuilder::utils::Options;

const SHA1_ABC: &str = "a9993e364706816aba3e25717850c26c9cd0d89d";
const SHA1_HELLO_WORLD: &str = "2aae6c35c94fcfb415dbe95f408b9ce91ee846ed";

fn sources() -> ConfigSources {
    ConfigSources {
        api_key: Source::Text(String::from("k3y")),
        md_prefix: Source::Text(String::from("<head>##EXTRAHEAD##</head>")),
        md_postfix: Source::Text(String::from("<!--end-->")),
        md_ignore: Source::Missing,
        md_replace: Source::Missing,
    }
}

fn remote() -> Processor {
    Processor::new(Options::new(), sources()).unwrap()
}

fn local(dir: &str) -> Processor {
    let mut o = Options::new();
    o.local = Some(String::from(dir));
    Processor::new(o, sources()).unwrap()
}

fn entry(path: &str, data: &str) -> LocalEntry {
    LocalEntry { path: String::from(path), is_dir: false, data: data.as_bytes().to_vec() }
}

fn directory(path: &str) -> LocalEntry {
    LocalEntry { path: String::from(path), is_dir: true, data: Vec::new() }
}

fn published(path: &str, content: &str) -> SiteRecord {
    SiteRecord { content: content.as_bytes().to_vec(), remote_path: String::from(path) }
}

fn remote_file(path: &str, hash: &str) -> RemoteItem {
    RemoteItem::File { path: String::from(path), sha1_hash: String::from(hash) }
}

fn failure(res: Result<Processor, SiteBuilderError>) -> SiteBuilderError {
    match res {
        Ok(_) => panic!("the run was configured"),
        Err(e) => e,
    }
}

#[test]
fn run_is_configured_from_complete_sources() {
    let p = remote();
    assert!(p.files().is_empty());
    assert!(!p.dry_run());
    assert_eq!(p.local(), &None);
}

#[test]
fn remote_run_needs_the_api_key() {
    let mut s = sources();
    s.api_key = Source::Missing;
    assert_eq!(
        failure(Processor::new(Options::new(), s)),
        SiteBuilderError::CfgError(String::from("missing api key config"))
    );
}

#[test]
fn local_run_needs_no_api_key() {
    let mut s = sources();
    s.api_key = Source::Missing;
    let mut o = Options::new();
    o.local = Some(String::from("out"));
    let p = Processor::new(o, s).unwrap();
    assert_eq!(p.local(), &Some(String::from("out")));
}

#[test]
fn run_needs_the_prefix() {
    let mut s = sources();
    s.md_prefix = Source::Missing;
    assert_eq!(
        failure(Processor::new(Options::new(), s)),
        SiteBuilderError::CfgError(String::from("missing markdown prefix config"))
    );
}

#[test]
fn run_needs_the_postfix() {
    let mut s = sources();
    s.md_postfix = Source::Unreadable(String::from("denied"));
    assert_eq!(
        failure(Processor::new(Options::new(), s)),
        SiteBuilderError::CfgError(String::from("missing markdown postfix config"))
    );
}

#[test]
fn missing_api_key_is_reported_first() {
    let s = ConfigSources {
        api_key: Source::Missing,
        md_prefix: Source::Missing,
        md_postfix: Source::Missing,
        md_ignore: Source::Unreadable(String::from("denied")),
        md_replace: Source::Text(String::from("broken")),
    };
    assert_eq!(
        failure(Processor::new(Options::new(), s)),
        SiteBuilderError::CfgError(String::from("missing api key config"))
    );
    let s = ConfigSources {
        api_key: Source::Unreadable(String::from("denied")),
        md_prefix: Source::Missing,
        md_postfix: Source::Missing,
        md_ignore: Source::Unreadable(String::from("denied")),
        md_replace: Source::Text(String::from("broken")),
    };
    let mut o = Options::new();
    o.local = Some(String::from("out"));
    assert_eq!(
        failure(Processor::new(o, s)),
        SiteBuilderError::CfgError(String::from("missing markdown prefix config"))
    );
}

#[test]
fn unreadable_list_of_ignored_files_fails() {
    let mut s = sources();
    s.md_ignore = Source::Unreadable(String::from("permission denied"));
    s.md_replace = Source::Unreadable(String::from("is a directory"));
    assert_eq!(
        failure(Processor::new(Options::new(), s)),
        SiteBuilderError::IoError(String::from("permission denied"))
    );
}

#[test]
fn unreadable_rules_fail_before_a_malformed_rule() {
    let mut s = sources();
    s.md_replace = Source::Unreadable(String::from("is a directory"));
    let mut o = Options::new();
    o.md_replace = vec![String::from("broken")];
    assert_eq!(
        failure(Processor::new(o, s)),
        SiteBuilderError::IoError(String::from("is a directory"))
    );
}

#[test]
fn rule_without_equals_sign_is_malformed() {
    let mut o = Options::new();
    o.md_replace = vec![String::from("a=b"), String::from("broken"), String::from("alsobroken")];
    assert_eq!(
        failure(Processor::new(o, sources())),
        SiteBuilderError::CfgError(String::from("malformed replacement broken"))
    );
}

#[test]
fn empty_last_line_of_the_rule_file_is_malformed() {
    let mut s = sources();
    s.md_replace = Source::Text(String::from("a=b\n"));
    assert_eq!(
        failure(Processor::new(Options::new(), s)),
        SiteBuilderError::CfgError(String::from("malformed replacement "))
    );
}

#[test]
fn rules_of_the_command_line_come_before_those_of_the_file() {
    let mut o = Options::new();
    o.md_replace = vec![String::from("ok=1"), String::from("cli")];
    let mut s = sources();
    s.md_replace = Source::Text(String::from("file"));
    assert_eq!(
        failure(Processor::new(o, s)),
        SiteBuilderError::CfgError(String::from("malformed replacement cli"))
    );
}

#[test]
fn rule_is_split_at_its_first_equals_sign() {
    assert_eq!(
        parse_replacement("name=a=b"),
        Some(Replacement { trigger: String::from("REP=name"), replacement: String::from("a=b") })
    );
    assert_eq!(
        parse_replacement("="),
        Some(Replacement { trigger: String::from("REP="), replacement: String::new() })
    );
    assert_eq!(
        parse_replacement("x="),
        Some(Replacement { trigger: String::from("REP=x"), replacement: String::new() })
    );
    assert_eq!(parse_replacement("no sign"), None);
    assert_eq!(parse_replacement(""), None);
}

#[test]
fn later_rule_takes_the_place_of_an_earlier_one() {
    let mut rules = Vec::new();
    set_rule(&mut rules, Replacement { trigger: String::from("a"), replacement: String::from("1") });
    set_rule(&mut rules, Replacement { trigger: String::from("b"), replacement: String::from("2") });
    set_rule(&mut rules, Replacement { trigger: String::from("a"), replacement: String::from("3") });
    assert_eq!(
        rules,
        vec![
            Replacement { trigger: String::from("a"), replacement: String::from("3") },
            Replacement { trigger: String::from("b"), replacement: String::from("2") },
        ]
    );
}

#[test]
fn markdown_source_becomes_a_page() {
    let mut p = remote();
    assert_eq!(p.load_entry(entry("site/notes.md", "(HEAD)<link>\n\n# Title")), Ok(()));
    assert_eq!(
        p.files(),
        &vec![published("/notes.html", "<head><link></head><h1>Title</h1>\n<!--end-->")]
    );
}

#[test]
fn rules_are_applied_to_the_body_of_a_page() {
    let mut o = Options::new();
    o.md_replace = vec![String::from("who=World"), String::from("who=Moon")];
    let mut s = sources();
    s.md_replace = Source::Text(String::from("sign=!"));
    let mut p = Processor::new(o, s).unwrap();
    assert_eq!(p.load_entry(entry("site/a.md", "Hello REP=whoREP=sign")), Ok(()));
    assert_eq!(
        p.files(),
        &vec![published("/a.html", "<head></head><p>Hello Moon!</p>\n<!--end-->")]
    );
}

#[test]
fn dialect_of_the_options_is_used() {
    let mut o = Options::new();
    o.md_options = RenderOptions::default();
    o.md_options.strikethrough = true;
    let mut p = Processor::new(o, sources()).unwrap();
    assert_eq!(p.load_entry(entry("site/a.md", "~~x~~")), Ok(()));
    assert_eq!(p.files(), &vec![published("/a.html", "<head></head><p><del>x</del></p>\n<!--end-->")]);
}

#[test]
fn other_files_pass_through_unchanged() {
    let mut p = remote();
    let bytes = vec![0u8, 159, 146, 150, 255];
    let e = LocalEntry { path: String::from("site/img/a.png"), is_dir: false, data: bytes.clone() };
    assert_eq!(p.load_entry(e), Ok(()));
    assert_eq!(
        p.files(),
        &vec![SiteRecord { content: bytes, remote_path: String::from("/img/a.png") }]
    );
}

#[test]
fn ignored_markdown_passes_through_unchanged() {
    let mut o = Options::new();
    o.md_ignore = vec![String::from("site/raw.md")];
    let mut s = sources();
    s.md_ignore = Source::Text(String::from("site/also.md\nsite/third.md"));
    let mut p = Processor::new(o, s).unwrap();
    assert_eq!(p.classify("site/raw.md"), Ok(EntryKind::PassThrough));
    assert_eq!(p.classify("site/also.md"), Ok(EntryKind::PassThrough));
    assert_eq!(p.classify("site/third.md"), Ok(EntryKind::PassThrough));
    assert_eq!(p.classify("site/page.md"), Ok(EntryKind::Markdown));
    assert_eq!(p.load_entry(entry("site/raw.md", "# raw")), Ok(()));
    assert_eq!(p.files(), &vec![published("/raw.md", "# raw")]);
}

#[test]
fn markdown_that_is_not_text_fails() {
    let mut p = remote();
    let e = LocalEntry { path: String::from("site/bad.md"), is_dir: false, data: vec![0xff, 0xfe] };
    assert_eq!(
        p.load_entry(e),
        Err(SiteBuilderError::IoError(String::from("stream did not contain valid UTF-8")))
    );
    assert!(p.files().is_empty());
}

#[test]
fn extension_in_upper_case_is_refused() {
    let p = remote();
    assert_eq!(
        p.classify("site/img/photo.PNG"),
        Err(SiteBuilderError::ExtensionError(String::from("site/img/photo.PNG")))
    );
    assert_eq!(p.classify("site/img/photo.png"), Ok(EntryKind::PassThrough));
}

#[test]
fn missing_extension_is_refused_where_checked() {
    let p = remote();
    assert_eq!(
        p.classify("site/README"),
        Err(SiteBuilderError::ExtensionError(String::from("site/README")))
    );
    assert_eq!(
        p.classify("site/.htaccess"),
        Err(SiteBuilderError::ExtensionError(String::from("site/.htaccess")))
    );
    assert_eq!(
        p.classify("site/tool.exe"),
        Err(SiteBuilderError::ExtensionError(String::from("site/tool.exe")))
    );
}

#[test]
fn unchecked_extensions_admit_every_file() {
    let mut o = Options::new();
    o.check_extensions = false;
    let mut p = Processor::new(o, sources()).unwrap();
    assert_eq!(p.classify("site/README"), Ok(EntryKind::PassThrough));
    assert_eq!(p.classify("site/tool.exe"), Ok(EntryKind::PassThrough));
    assert_eq!(p.classify("site/img/photo.PNG"), Ok(EntryKind::PassThrough));
    assert_eq!(p.classify("site/page.md"), Ok(EntryKind::Markdown));
    assert_eq!(p.load_entry(entry("site/README", "read me")), Ok(()));
    assert_eq!(p.files(), &vec![published("/README", "read me")]);
}

#[test]
fn entries_are_loaded_in_order_and_directories_passed_over() {
    let mut p = remote();
    let entries = vec![
        directory("site"),
        entry("site/index.md", "hi"),
        directory("site/img"),
        entry("site/img/a.txt", "abc"),
        entry("site/z.css", "b{}"),
    ];
    assert_eq!(p.load_files(entries), Ok(()));
    assert_eq!(
        p.files(),
        &vec![
            published("/index.html", "<head></head><p>hi</p>\n<!--end-->"),
            published("/img/a.txt", "abc"),
            published("/z.css", "b{}"),
        ]
    );
}

#[test]
fn loading_stops_at_the_first_entry_that_fails() {
    let mut p = remote();
    let entries = vec![
        entry("site/a.txt", "1"),
        entry("site/b.exe", "2"),
        entry("site/c.txt", "3"),
        entry("site/d", "4"),
    ];
    assert_eq!(
        p.load_files(entries),
        Err(SiteBuilderError::ExtensionError(String::from("site/b.exe")))
    );
    assert_eq!(p.files(), &vec![published("/a.txt", "1")]);
}

#[test]
fn entry_outside_the_site_directory_fails() {
    let mut p = remote();
    assert_eq!(
        p.load_entry(entry("elsewhere/a.txt", "1")),
        Err(SiteBuilderError::PathError(String::from("elsewhere/a.txt")))
    );
    assert_eq!(
        p.load_entry(entry("elsewhere/a.md", "1")),
        Err(SiteBuilderError::PathError(String::from("elsewhere/a.md")))
    );
    assert!(p.files().is_empty());
}

#[test]
fn loading_nothing_changes_nothing() {
    let mut p = remote();
    assert_eq!(p.load_files(Vec::new()), Ok(()));
    assert_eq!(p.load_entry(directory("site/x.exe")), Ok(()));
    assert!(p.files().is_empty());
}

#[test]
fn upload_holds_changed_records_only() {
    let mut p = remote();
    p.load_files(vec![entry("site/a.txt", "abc"), entry("site/b.txt", "hello world")]).unwrap();
    let listing = vec![remote_file("/a.txt", SHA1_ABC), remote_file("/b.txt", SHA1_ABC)];
    assert_eq!(p.upload(&listing), vec![published("/b.txt", "hello world")]);
    assert_eq!(p.delete_orphaned(&listing), Vec::<String>::new());
}

#[test]
fn plan_of_a_synchronised_site_is_empty() {
    let mut p = remote();
    p.load_files(vec![entry("site/a.txt", "abc"), entry("site/b.txt", "hello world")]).unwrap();
    let listing = vec![
        remote_file("/b.txt", SHA1_HELLO_WORLD),
        RemoteItem::Directory { path: String::from("/img") },
        remote_file("/a.txt", SHA1_ABC),
    ];
    let plan = p.plan(&listing);
    assert!(plan.upload_set.is_empty());
    assert!(plan.delete_set.is_empty());
    let again = p.plan(&listing);
    assert!(again.upload_set.is_empty());
    assert!(again.delete_set.is_empty());
}

#[test]
fn plan_holds_uploads_and_deletions() {
    let mut p = remote();
    p.load_files(vec![entry("site/a.txt", "abc")]).unwrap();
    let plan = p.plan(&vec![remote_file("/old.txt", SHA1_ABC)]);
    assert_eq!(plan.upload_set, vec![published("/a.txt", "abc")]);
    assert_eq!(plan.delete_set, vec![String::from("/old.txt")]);
}

#[test]
fn local_files_are_written_from_the_root() {
    let mut p = local("out");
    p.load_files(vec![entry("site/a.txt", "abc"), entry("site/d/b.md", "x")]).unwrap();
    assert_eq!(
        p.output_local(),
        vec![
            LocalWrite { path: String::from("a.txt"), data: b"abc".to_vec() },
            LocalWrite {
                path: String::from("d/b.html"),
                data: b"<head></head><p>x</p>\n<!--end-->".to_vec()
            },
        ]
    );
}

#[test]
fn remote_run_goes_step_by_step() {
    let mut p = remote();
    assert_eq!(p.build(Event::Start), Action::Collect);
    p.load_files(vec![entry("site/a.txt", "abc"), entry("site/b.txt", "hello world")]).unwrap();
    assert_eq!(p.build(Event::Collected), Action::List);
    let before = vec![remote_file("/a.txt", SHA1_ABC), remote_file("/gone.txt", SHA1_ABC)];
    assert_eq!(
        p.build(Event::Listed(before)),
        Action::Upload { records: vec![published("/b.txt", "hello world")], send: true }
    );
    assert_eq!(p.build(Event::Uploaded), Action::Refresh);
    let after = vec![
        remote_file("/a.txt", SHA1_ABC),
        remote_file("/gone.txt", SHA1_ABC),
        remote_file("/b.txt", SHA1_HELLO_WORLD),
    ];
    assert_eq!(
        p.build(Event::Refreshed(after)),
        Action::Delete { paths: vec![String::from("/gone.txt")], send: true }
    );
    assert_eq!(p.build(Event::Deleted), Action::Finish);
    assert_eq!(p.build(Event::Written), Action::Finish);
}

#[test]
fn dry_run_plans_the_same_and_sends_nothing() {
    let mut o = Options::new();
    o.dry_run = true;
    let mut dry = Processor::new(o, sources()).unwrap();
    let mut wet = remote();
    assert!(dry.dry_run());
    let entries = || vec![entry("site/a.txt", "abc"), entry("site/b.md", "hello")];
    dry.load_files(entries()).unwrap();
    wet.load_files(entries()).unwrap();
    let listing = || vec![remote_file("/a.txt", SHA1_HELLO_WORLD), remote_file("/gone.txt", SHA1_ABC)];

    let (dry_records, dry_send) = match dry.build(Event::Listed(listing())) {
        Action::Upload { records, send } => (records, send),
        other => panic!("not an upload: {:?}", other),
    };
    let (wet_records, wet_send) = match wet.build(Event::Listed(listing())) {
        Action::Upload { records, send } => (records, send),
        other => panic!("not an upload: {:?}", other),
    };
    assert_eq!(dry_records, wet_records);
    assert_eq!(dry_records.len(), 2);
    assert!(!dry_send);
    assert!(wet_send);

    assert_eq!(dry.build(Event::Uploaded), Action::Refresh);
    let (dry_paths, dry_send) = match dry.build(Event::Refreshed(listing())) {
        Action::Delete { paths, send } => (paths, send),
        other => panic!("not a deletion: {:?}", other),
    };
    let (wet_paths, wet_send) = match wet.build(Event::Refreshed(listing())) {
        Action::Delete { paths, send } => (paths, send),
        other => panic!("not a deletion: {:?}", other),
    };
    assert_eq!(dry_paths, wet_paths);
    assert_eq!(dry_paths, vec![String::from("/gone.txt")]);
    assert!(!dry_send);
    assert!(wet_send);
}

#[test]
fn local_run_writes_and_never_calls_the_remote_site() {
    let mut p = local("out/dir");
    assert_eq!(p.build(Event::Start), Action::Collect);
    p.load_files(vec![entry("site/a.txt", "abc")]).unwrap();
    assert_eq!(
        p.build(Event::Collected),
        Action::Write {
            dir: String::from("out/dir"),
            files: vec![LocalWrite { path: String::from("a.txt"), data: b"abc".to_vec() }],
            perform: true,
        }
    );
    assert_eq!(p.build(Event::Written), Action::Finish);
    assert_eq!(p.build(Event::Listed(vec![remote_file("/x", SHA1_ABC)])), Action::Finish);
    assert_eq!(p.build(Event::Uploaded), Action::Finish);
    assert_eq!(p.build(Event::Refreshed(Vec::new())), Action::Finish);
    assert_eq!(p.build(Event::Deleted), Action::Finish);
}

#[test]
fn local_dry_run_plans_the_writes_and_performs_none() {
    let mut o = Options::new();
    o.dry_run = true;
    o.local = Some(String::from("out"));
    let mut p = Processor::new(o, sources()).unwrap();
    p.load_files(vec![entry("site/a.txt", "abc")]).unwrap();
    assert_eq!(
        p.build(Event::Collected),
        Action::Write {
            dir: String::from("out"),
            files: vec![LocalWrite { path: String::from("a.txt"), data: b"abc".to_vec() }],
            perform: false,
        }
    );
}
