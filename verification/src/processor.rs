//! The run: its configuration, the local records, and what to do next.
//!
//! A `Processor` is made from the options and from what the configuration
//! files gave. The entries of the site directory are loaded into it, each as
//! a record. What is then done with the records is decided step by step:
//! `build` takes what has just happened and says what comes next.
use vstd::prelude::*;
use vstd::string::*;
use vstd::utf8::{decode_utf8, encode_utf8, valid_utf8};
use crate::config::{
    distinct_triggers, file_lines, first_malformed, lemma_rules_of_distinct, parse_replacement,
    rule_lines, rules_of, set_rule, ConfigSources, ConfigSourcesView, Source, MALFORMED_RULE,
    MISSING_API_KEY, MISSING_POSTFIX, MISSING_PREFIX,
};
use crate::error::{ErrorView, SiteBuilderError};
use crate::markdown::{
    page, page_path, page_path_of, preprocess, rule_views, RenderOptions, Replacement,
    MARKDOWN_SUFFIX, PAGE_SUFFIX,
};
use crate::step::{
    from_root, local_writes, next_action, write_views, Action, Event, LocalWrite, LocalWriteView,
};
use crate::sync::{
    delete_set, item_views, plan_deletions, plan_uploads, record_views, upload_set, RemoteItem,
    SiteRecord, SiteRecordView, SyncPlan,
};
use crate::text::{
    chars_of, ends_with, last_index_of, lemma_last_index_before, lines_of, push_range, text_view,
    utf8_text, views,
};
use crate::utils::{
    extension, file_extension, get_remote_path, is_allowed, is_allowed_file_type, remote_path,
    Options, OptionsView, MARKDOWN_EXTENSION,
};

verus! {

/// The detail of the error for a markdown source that is not valid UTF-8.
pub const INVALID_TEXT: &'static str = "stream did not contain valid UTF-8";

/// One entry that the walk of the site directory found.
pub struct LocalEntry {
    /// The path of the entry, from the data directory.
    pub path: String,
    /// Whether the entry is a directory.
    pub is_dir: bool,
    /// The bytes of the file; empty for a directory.
    pub data: Vec<u8>,
}

/// The mathematical value of a `LocalEntry`.
pub struct LocalEntryView {
    pub path: Seq<char>,
    pub is_dir: bool,
    pub data: Seq<u8>,
}

impl View for LocalEntry {
    type V = LocalEntryView;

    open spec fn view(&self) -> LocalEntryView {
        LocalEntryView { path: self.path@, is_dir: self.is_dir, data: self.data@ }
    }
}

/// The views of the entries, in order.
pub open spec fn entry_views(entries: Seq<LocalEntry>) -> Seq<LocalEntryView> {
    entries.map_values(|e: LocalEntry| e@)
}

/// How a file of the site directory is published.
#[derive(Debug, Clone, Copy, PartialEq, Eq, Structural)]
pub enum EntryKind {
    /// Rendered to a page.
    Markdown,
    /// Published as it is.
    PassThrough,
}

/// The mathematical value of a `Processor`.
pub struct ProcessorView {
    /// The records loaded so far, in the order in which they were loaded.
    pub files: Seq<SiteRecordView>,
    /// The markdown files that are published as they are.
    pub md_ignore: Seq<Seq<char>>,
    /// The first half of the page template.
    pub md_prefix: Seq<char>,
    /// The second half of the page template.
    pub md_postfix: Seq<char>,
    /// The substitutions, in the order in which they are applied.
    pub md_replace: Seq<(Seq<char>, Seq<char>)>,
    /// The dialect of markdown.
    pub md_options: RenderOptions,
    /// Whether file extensions are held against the allowed file types.
    pub check_extensions: bool,
    /// The directory that the site is written to; `None` where it goes to
    /// the remote site.
    pub local: Option<Seq<char>>,
    /// Whether the run changes nothing.
    pub dry_run: bool,
}

impl ProcessorView {
    /// Every record's remote path begins with `/`, and no two substitutions
    /// have the same trigger.
    pub open spec fn wf(self) -> bool {
        &&& forall|i: int|
            0 <= i < self.files.len() ==> (#[trigger] self.files[i]).remote_path.len() > 0
                && self.files[i].remote_path[0] == '/'
        &&& distinct_triggers(self.md_replace)
    }

    /// The same run with other records.
    pub open spec fn with_files(self, files: Seq<SiteRecordView>) -> ProcessorView {
        ProcessorView { files, ..self }
    }
}

/// What the options and the configuration files make: the run, or the error
/// for the first thing that is missing, unreadable or malformed. The key for
/// the remote site is asked for where the site is not written to a
/// directory, then the two halves of the page template; each of the three
/// is missing also where it could not be read. The list of markdown files
/// to publish as they are and the rules may be missing, but not unreadable.
/// Last, every rule must have a `=`.
pub open spec fn configured(options: OptionsView, sources: ConfigSourcesView) -> Result<
    ProcessorView,
    ErrorView,
> {
    let lines = rule_lines(options, sources);
    if options.local is None && !(sources.api_key is Text) {
        Err(ErrorView::CfgError(MISSING_API_KEY@))
    } else if !(sources.md_prefix is Text) {
        Err(ErrorView::CfgError(MISSING_PREFIX@))
    } else if !(sources.md_postfix is Text) {
        Err(ErrorView::CfgError(MISSING_POSTFIX@))
    } else if sources.md_ignore is Unreadable {
        Err(ErrorView::IoError(sources.md_ignore->Unreadable_0))
    } else if sources.md_replace is Unreadable {
        Err(ErrorView::IoError(sources.md_replace->Unreadable_0))
    } else if first_malformed(lines) < lines.len() {
        Err(ErrorView::CfgError(MALFORMED_RULE@ + lines[first_malformed(lines)]))
    } else {
        Ok(
            ProcessorView {
                files: Seq::empty(),
                md_ignore: file_lines(sources.md_ignore) + options.md_ignore,
                md_prefix: sources.md_prefix->Text_0,
                md_postfix: sources.md_postfix->Text_0,
                md_replace: rules_of(lines),
                md_options: options.md_options,
                check_extensions: options.check_extensions,
                local: options.local,
                dry_run: options.dry_run,
            },
        )
    }
}

/// How the file at `path` is published, or the error for a file that may not
/// be. A markdown source is rendered unless it is listed to be published as
/// it is; it is never held against the allowed file types. Any other file is
/// published as it is; where extensions are checked, it must have one that
/// is allowed.
pub open spec fn entry_kind(run: ProcessorView, path: Seq<char>) -> Result<EntryKind, ErrorView> {
    match extension(path) {
        Some(ext) => {
            if ext == MARKDOWN_EXTENSION@ {
                if run.md_ignore.contains(path) {
                    Ok(EntryKind::PassThrough)
                } else {
                    Ok(EntryKind::Markdown)
                }
            } else if run.check_extensions && !is_allowed(ext) {
                Err(ErrorView::ExtensionError(path))
            } else {
                Ok(EntryKind::PassThrough)
            }
        },
        None => {
            if run.check_extensions {
                Err(ErrorView::ExtensionError(path))
            } else {
                Ok(EntryKind::PassThrough)
            }
        },
    }
}

/// The record for a file that is published as it is.
pub open spec fn plain_record(path: Seq<char>, data: Seq<u8>) -> Result<SiteRecordView, ErrorView> {
    match remote_path(path) {
        Some(r) => Ok(SiteRecordView { content: data, remote_path: r }),
        None => Err(ErrorView::PathError(path)),
    }
}

/// The record for a markdown source: its page, at the path of the source
/// with `.html` for `.md`.
pub open spec fn page_record(run: ProcessorView, path: Seq<char>, data: Seq<u8>) -> Result<
    SiteRecordView,
    ErrorView,
> {
    if !valid_utf8(data) {
        Err(ErrorView::IoError(INVALID_TEXT@))
    } else {
        match remote_path(path) {
            Some(r) => Ok(
                SiteRecordView {
                    content: encode_utf8(
                        page(
                            decode_utf8(data),
                            run.md_prefix,
                            run.md_postfix,
                            run.md_replace,
                            run.md_options,
                        ),
                    ),
                    remote_path: page_path(r),
                },
            ),
            None => Err(ErrorView::PathError(path)),
        }
    }
}

/// The record for a file of the site directory, or the error that ends the
/// run.
pub open spec fn entry_record(run: ProcessorView, entry: LocalEntryView) -> Result<
    SiteRecordView,
    ErrorView,
> {
    match entry_kind(run, entry.path) {
        Ok(EntryKind::Markdown) => page_record(run, entry.path, entry.data),
        Ok(EntryKind::PassThrough) => plain_record(entry.path, entry.data),
        Err(e) => Err(e),
    }
}

/// The records of the run after the entries are loaded in order, and the
/// error of the first entry that fails, if one does. Directories are passed
/// over. Nothing is loaded after a failure.
pub open spec fn loaded(run: ProcessorView, entries: Seq<LocalEntryView>) -> (
    Seq<SiteRecordView>,
    Option<ErrorView>,
)
    decreases entries.len(),
{
    if entries.len() == 0 {
        (run.files, None)
    } else {
        let before = loaded(run, entries.drop_last());
        if before.1 is Some || entries.last().is_dir {
            before
        } else {
            match entry_record(run, entries.last()) {
                Ok(record) => (before.0.push(record), None),
                Err(e) => (before.0, Some(e)),
            }
        }
    }
}

/// The configuration and the records of one run.
pub struct Processor {
    files: Vec<SiteRecord>,
    md_ignore: Vec<String>,
    md_prefix: String,
    md_postfix: String,
    md_replace: Vec<Replacement>,
    md_options: RenderOptions,
    check_extensions: bool,
    local: Option<String>,
    dry_run: bool,
}

impl View for Processor {
    type V = ProcessorView;

    closed spec fn view(&self) -> ProcessorView {
        ProcessorView {
            files: record_views(self.files@),
            md_ignore: views(self.md_ignore@),
            md_prefix: self.md_prefix@,
            md_postfix: self.md_postfix@,
            md_replace: rule_views(self.md_replace@),
            md_options: self.md_options,
            check_extensions: self.check_extensions,
            local: text_view(self.local),
            dry_run: self.dry_run,
        }
    }
}

impl Processor {
    /// Makes the run from the options and the configuration files.
    #[verifier::loop_isolation(false)]
    pub fn new(options: Options, sources: ConfigSources) -> (res: Result<Processor, SiteBuilderError>)
        ensures
            match configured(options@, sources@) {
                Ok(run) => res is Ok && res->Ok_0@ == run && run.wf(),
                Err(e) => res is Err && res->Err_0@ == e,
            },
    {
        let ghost lines = rule_lines(options@, sources@);
        let Options { data_dir: _, md_ignore, md_replace, check_extensions, local, dry_run, md_options } =
            options;
        let ConfigSources { api_key, md_prefix, md_postfix, md_ignore: ignore_file, md_replace: rule_file } =
            sources;
        match api_key {
            Source::Text(_) => {},
            _ => {
                if local.is_none() {
                    return Err(SiteBuilderError::CfgError(MISSING_API_KEY.to_owned()));
                }
            },
        }
        let md_prefix = match md_prefix {
            Source::Text(text) => text,
            _ => {
                return Err(SiteBuilderError::CfgError(MISSING_PREFIX.to_owned()));
            },
        };
        let md_postfix = match md_postfix {
            Source::Text(text) => text,
            _ => {
                return Err(SiteBuilderError::CfgError(MISSING_POSTFIX.to_owned()));
            },
        };
        let mut ignored: Vec<String> = match ignore_file {
            Source::Text(text) => lines_of(text.as_str()),
            Source::Missing => Vec::new(),
            Source::Unreadable(cause) => {
                return Err(SiteBuilderError::IoError(cause));
            },
        };
        let ghost ignored_file = views(ignored@);
        let mut from_options = md_ignore;
        ignored.append(&mut from_options);
        assert(views(ignored@) =~= ignored_file + views(md_ignore@));

        let mut rule_texts = md_replace;
        let mut from_file: Vec<String> = match rule_file {
            Source::Text(text) => lines_of(text.as_str()),
            Source::Missing => Vec::new(),
            Source::Unreadable(cause) => {
                return Err(SiteBuilderError::IoError(cause));
            },
        };
        rule_texts.append(&mut from_file);

        let mut rules: Vec<Replacement> = Vec::new();
        let mut i: usize = 0;
        assert(lines.skip(0) == lines);
        while i < rule_texts.len()
            invariant
                i <= rule_texts.len(),
                views(rule_texts@) == lines,
                first_malformed(lines) == i + first_malformed(lines.skip(i as int)),
                rule_views(rules@) == rules_of(lines.take(i as int)),
            decreases rule_texts.len() - i,
        {
            assert(lines.skip(i as int).drop_first() == lines.skip(i + 1));
            assert(lines.take(i + 1).drop_last() == lines.take(i as int));
            match parse_replacement(rule_texts[i].as_str()) {
                Some(rule) => {
                    set_rule(&mut rules, rule);
                },
                None => {
                    let mut detail = MALFORMED_RULE.to_owned();
                    detail.append(rule_texts[i].as_str());
                    return Err(SiteBuilderError::CfgError(detail));
                },
            }
            i = i + 1;
        }
        proof {
            lemma_rules_of_distinct(lines);
        }
        let files: Vec<SiteRecord> = Vec::new();
        assert(record_views(files@) =~= Seq::empty());
        Ok(
            Processor {
                files,
                md_ignore: ignored,
                md_prefix,
                md_postfix,
                md_replace: rules,
                md_options,
                check_extensions,
                local,
                dry_run,
            },
        )
    }

    /// The records loaded so far.
    pub fn files(&self) -> (files: &Vec<SiteRecord>)
        ensures
            record_views(files@) == self@.files,
    {
        &self.files
    }

    /// Whether the run changes nothing.
    pub fn dry_run(&self) -> (r: bool)
        ensures
            r == self@.dry_run,
    {
        self.dry_run
    }

    /// The directory that the site is written to, where it does not go to
    /// the remote site.
    pub fn local(&self) -> (dir: &Option<String>)
        ensures
            text_view(*dir) == self@.local,
    {
        &self.local
    }

    /// How the file at `path` is published, or the error for a file that may
    /// not be.
    pub fn classify(&self, path: &str) -> (res: Result<EntryKind, SiteBuilderError>)
        ensures
            match entry_kind(self@, path@) {
                Ok(kind) => res == Ok::<EntryKind, SiteBuilderError>(kind),
                Err(e) => res is Err && res->Err_0@ == e,
            },
    {
        match file_extension(path) {
            Some(ext) => {
                let markdown = MARKDOWN_EXTENSION.to_owned();
                if ext == markdown {
                    if self.ignores(path) {
                        Ok(EntryKind::PassThrough)
                    } else {
                        Ok(EntryKind::Markdown)
                    }
                } else if self.check_extensions && !is_allowed_file_type(ext.as_str()) {
                    Err(SiteBuilderError::ExtensionError(path.to_owned()))
                } else {
                    Ok(EntryKind::PassThrough)
                }
            },
            None => {
                if self.check_extensions {
                    Err(SiteBuilderError::ExtensionError(path.to_owned()))
                } else {
                    Ok(EntryKind::PassThrough)
                }
            },
        }
    }

    /// Whether the markdown file at `path` is listed to be published as it
    /// is.
    fn ignores(&self, path: &str) -> (r: bool)
        ensures
            r == self@.md_ignore.contains(path@),
    {
        let wanted = path.to_owned();
        let mut i: usize = 0;
        while i < self.md_ignore.len()
            invariant
                i <= self.md_ignore.len(),
                wanted@ == path@,
                forall|k: int| 0 <= k < i ==> (#[trigger] views(self.md_ignore@)[k]) != path@,
            decreases self.md_ignore.len() - i,
        {
            if self.md_ignore[i] == wanted {
                assert(views(self.md_ignore@)[i as int] == path@);
                return true;
            }
            i = i + 1;
        }
        false
    }

    /// Loads a file that is published as it is.
    fn load(&mut self, path: &str, data: Vec<u8>) -> (res: Result<(), SiteBuilderError>)
        ensures
            match plain_record(path@, data@) {
                Ok(record) => res is Ok && final(self)@ == old(self)@.with_files(
                    old(self)@.files.push(record),
                ),
                Err(e) => res is Err && res->Err_0@ == e && final(self)@ == old(self)@,
            },
            old(self)@.wf() ==> final(self)@.wf(),
    {
        let ghost before = self@.files;
        match get_remote_path(path) {
            Ok(site_path) => {
                self.files.push(SiteRecord { content: data, remote_path: site_path });
                assert(record_views(self.files@) == before.push(plain_record(path@, data@)->Ok_0));
                Ok(())
            },
            Err(e) => Err(e),
        }
    }

    /// Loads a markdown source: its page, at the path of the source with
    /// `.html` for `.md`.
    fn load_markdown(&mut self, path: &str, data: &Vec<u8>) -> (res: Result<(), SiteBuilderError>)
        ensures
            match page_record(old(self)@, path@, data@) {
                Ok(record) => res is Ok && final(self)@ == old(self)@.with_files(
                    old(self)@.files.push(record),
                ),
                Err(e) => res is Err && res->Err_0@ == e && final(self)@ == old(self)@,
            },
            old(self)@.wf() ==> final(self)@.wf(),
    {
        let ghost before = self@.files;
        let text = match utf8_text(data) {
            Some(text) => text,
            None => {
                return Err(SiteBuilderError::IoError(INVALID_TEXT.to_owned()));
            },
        };
        proof {
            vstd::utf8::encode_utf8_decode_utf8(text@);
        }
        let site_path = match get_remote_path(path) {
            Ok(site_path) => site_path,
            Err(e) => {
                return Err(e);
            },
        };
        let ghost source_path = site_path@;
        let site_path = page_path_of(site_path.as_str());
        proof {
            reveal_strlit(".md");
            reveal_strlit(".html");
            if source_path.len() == 3 {
                assert(source_path.subrange(0, 3)[0] == source_path[0]);
            }
        }
        let content = preprocess(
            text,
            self.md_prefix.as_str(),
            self.md_postfix.as_str(),
            &self.md_replace,
            &self.md_options,
        );
        self.files.push(SiteRecord { content, remote_path: site_path });
        assert(record_views(self.files@) == before.push(
            page_record(old(self)@, path@, data@)->Ok_0,
        ));
        Ok(())
    }

    /// Loads one entry of the site directory: the record of a file is added
    /// to the records, a directory is passed over, and a file that fails
    /// leaves the records as they are.
    pub fn load_entry(&mut self, entry: LocalEntry) -> (res: Result<(), SiteBuilderError>)
        ensures
            entry.is_dir ==> res is Ok && final(self)@ == old(self)@,
            !entry.is_dir ==> match entry_record(old(self)@, entry@) {
                Ok(record) => res is Ok && final(self)@ == old(self)@.with_files(
                    old(self)@.files.push(record),
                ),
                Err(e) => res is Err && res->Err_0@ == e && final(self)@ == old(self)@,
            },
            old(self)@.wf() ==> final(self)@.wf(),
    {
        if entry.is_dir {
            return Ok(());
        }
        match self.classify(entry.path.as_str()) {
            Ok(EntryKind::Markdown) => self.load_markdown(entry.path.as_str(), &entry.data),
            Ok(EntryKind::PassThrough) => self.load(entry.path.as_str(), entry.data),
            Err(e) => Err(e),
        }
    }

    /// Loads the entries of the site directory, in order, up to the first
    /// that fails.
    #[verifier::loop_isolation(false)]
    pub fn load_files(&mut self, entries: Vec<LocalEntry>) -> (res: Result<(), SiteBuilderError>)
        ensures
            final(self)@ == old(self)@.with_files(loaded(old(self)@, entry_views(entries@)).0),
            match loaded(old(self)@, entry_views(entries@)).1 {
                Some(e) => res is Err && res->Err_0@ == e,
                None => res is Ok,
            },
            old(self)@.wf() ==> final(self)@.wf(),
    {
        let ghost all = entry_views(entries@);
        let ghost start = self@;
        for entry in it: entries
            invariant
                entry_views(it.seq()) == all,
                loaded(start, all.take(it.index() as int)).1 is None,
                self@ == start.with_files(loaded(start, all.take(it.index() as int)).0),
                start.wf() ==> self@.wf(),
        {
            let ghost done = it.index() as int;
            assert(all.take(done + 1).drop_last() == all.take(done));
            match self.load_entry(entry) {
                Ok(()) => {},
                Err(e) => {
                    proof {
                        lemma_loaded_stops(start, all, done + 1);
                    }
                    return Err(e);
                },
            }
        }
        assert(all.take(all.len() as int) == all);
        Ok(())
    }

    /// The records to upload: those that differ from what the listing shows.
    pub fn upload(&self, listing: &Vec<RemoteItem>) -> (records: Vec<SiteRecord>)
        ensures
            record_views(records@) == upload_set(self@.files, item_views(listing@)),
    {
        plan_uploads(&self.files, listing)
    }

    /// The remote paths to delete: those of the files of the listing that
    /// have no local record.
    pub fn delete_orphaned(&self, listing: &Vec<RemoteItem>) -> (paths: Vec<String>)
        ensures
            views(paths@) == delete_set(self@.files, item_views(listing@)),
    {
        plan_deletions(&self.files, listing)
    }

    /// What a run against a remote site in the state of `listing` uploads
    /// and deletes.
    pub fn plan(&self, listing: &Vec<RemoteItem>) -> (plan: SyncPlan)
        ensures
            record_views(plan.upload_set@) == upload_set(self@.files, item_views(listing@)),
            views(plan.delete_set@) == delete_set(self@.files, item_views(listing@)),
    {
        SyncPlan { upload_set: self.upload(listing), delete_set: self.delete_orphaned(listing) }
    }

    /// The files to write below the output directory.
    pub fn output_local(&self) -> (writes: Vec<LocalWrite>)
        ensures
            write_views(writes@) == local_writes(self@.files),
    {
        let mut writes: Vec<LocalWrite> = Vec::new();
        let mut i: usize = 0;
        while i < self.files.len()
            invariant
                i <= self.files.len(),
                write_views(writes@) == local_writes(self@.files.take(i as int)),
            decreases self.files.len() - i,
        {
            let ghost before = write_views(writes@);
            let record = &self.files[i];
            let chars = chars_of(record.remote_path.as_str());
            let mut path = String::new();
            if chars.len() > 0 {
                push_range(&mut path, &chars, 1, chars.len());
            }
            assert(path@ =~= from_root(record@.remote_path));
            writes.push(LocalWrite { path, data: record.content.clone() });
            assert(write_views(writes@) == before.push(
                LocalWriteView { path: from_root(record@.remote_path), data: record@.content },
            ));
            i = i + 1;
        }
        writes
    }

    /// What the run does after `event`.
    pub fn build(&self, event: Event) -> (action: Action)
        ensures
            action@ == next_action(self@, event@),
    {
        match &self.local {
            Some(dir) => match event {
                Event::Start => Action::Collect,
                Event::Collected => Action::Write {
                    dir: dir.clone(),
                    files: self.output_local(),
                    perform: !self.dry_run,
                },
                _ => Action::Finish,
            },
            None => match event {
                Event::Start => Action::Collect,
                Event::Collected => Action::List,
                Event::Listed(listing) => Action::Upload {
                    records: self.upload(&listing),
                    send: !self.dry_run,
                },
                Event::Uploaded => Action::Refresh,
                Event::Refreshed(listing) => Action::Delete {
                    paths: self.delete_orphaned(&listing),
                    send: !self.dry_run,
                },
                _ => Action::Finish,
            },
        }
    }
}

/// A markdown source below the site directory is published as a page: its
/// remote path ends in `.md`, and the path of its page is that path with
/// `.html` in the place of `.md`.
pub proof fn lemma_markdown_source_becomes_a_page(path: Seq<char>)
    requires
        extension(path) == Some(MARKDOWN_EXTENSION@),
        remote_path(path) is Some,
    ensures
        ends_with(remote_path(path)->0, MARKDOWN_SUFFIX@),
        page_path(remote_path(path)->0) == remote_path(path)->0.take(
            remote_path(path)->0.len() - MARKDOWN_SUFFIX@.len(),
        ) + PAGE_SUFFIX@,
        ends_with(page_path(remote_path(path)->0), PAGE_SUFFIX@),
{
    reveal_strlit("md");
    reveal_strlit(".md");
    reveal_strlit("site");
    let n = path.len() as int;
    let dot = last_index_of(path, '.');
    let slash = last_index_of(path, '/');
    lemma_last_index_before(path, '.', n);
    lemma_last_index_before(path, '/', n);
    assert(path.skip(dot + 1).len() == 2);
    assert(dot == n - 3);
    assert(slash >= 4);
    let remote = remote_path(path)->0;
    let m = remote.len() as int;
    assert(remote.subrange(m - 3, m) =~= MARKDOWN_SUFFIX@) by {
        assert(remote[m - 3] == path[dot]);
        assert(remote[m - 2] == path.skip(dot + 1)[0]);
        assert(remote[m - 1] == path.skip(dot + 1)[1]);
    }
    let page = page_path(remote);
    assert(page.subrange(page.len() - PAGE_SUFFIX@.len(), page.len() as int) =~= PAGE_SUFFIX@);
}

/// Without the check of extensions every file is admitted, whatever its
/// extension, and also without one.
pub proof fn lemma_unchecked_extensions_admit_every_file(run: ProcessorView, path: Seq<char>)
    requires
        !run.check_extensions,
    ensures
        entry_kind(run, path) is Ok,
{
}

/// A markdown source is never held against the allowed file types: it is
/// rendered, or published as it is where it is listed so.
pub proof fn lemma_markdown_is_always_admitted(run: ProcessorView, path: Seq<char>)
    requires
        extension(path) == Some(MARKDOWN_EXTENSION@),
    ensures
        entry_kind(run, path) == Ok::<EntryKind, ErrorView>(
            if run.md_ignore.contains(path) {
                EntryKind::PassThrough
            } else {
                EntryKind::Markdown
            },
        ),
{
}

/// Loading keeps what was loaded before, in its order.
pub proof fn lemma_loaded_extends(run: ProcessorView, entries: Seq<LocalEntryView>)
    ensures
        run.files.is_prefix_of(loaded(run, entries).0),
        run.wf() ==> run.with_files(loaded(run, entries).0).wf(),
    decreases entries.len(),
{
    if entries.len() > 0 {
        lemma_loaded_extends(run, entries.drop_last());
        let before = loaded(run, entries.drop_last());
        if before.1 is None && !entries.last().is_dir {
            match entry_record(run, entries.last()) {
                Ok(record) => {
                    lemma_record_path_is_rooted(run, entries.last());
                    let after = before.0.push(record);
                    if run.wf() {
                        assert forall|i: int| 0 <= i < after.len() implies (
                        #[trigger] after[i]).remote_path.len() > 0 && after[i].remote_path[0]
                            == '/' by {
                            if i < before.0.len() {
                                assert(after[i] == run.with_files(before.0).files[i]);
                            }
                        }
                    }
                },
                Err(_) => {},
            }
        }
    }
}

/// The remote path of every record begins with `/`.
pub proof fn lemma_record_path_is_rooted(run: ProcessorView, entry: LocalEntryView)
    requires
        entry_record(run, entry) is Ok,
    ensures
        entry_record(run, entry)->Ok_0.remote_path.len() > 0,
        entry_record(run, entry)->Ok_0.remote_path[0] == '/',
{
    let source = remote_path(entry.path)->0;
    assert(source.len() > 0 && source[0] == '/');
    if entry_kind(run, entry.path) == Ok::<EntryKind, ErrorView>(EntryKind::Markdown) {
        reveal_strlit(".md");
        reveal_strlit(".html");
        if source.len() == 3 {
            assert(source.subrange(0, 3)[0] == source[0]);
        }
    }
}

/// Once an entry has failed, the entries after it change nothing.
pub proof fn lemma_loaded_stops(run: ProcessorView, entries: Seq<LocalEntryView>, n: int)
    requires
        0 <= n <= entries.len(),
        loaded(run, entries.take(n)).1 is Some,
    ensures
        loaded(run, entries) == loaded(run, entries.take(n)),
    decreases entries.len() - n,
{
    if n < entries.len() {
        assert(entries.take(n + 1).drop_last() == entries.take(n));
        lemma_loaded_stops(run, entries, n + 1);
    } else {
        assert(entries.take(n) == entries);
    }
}

} // verus!
