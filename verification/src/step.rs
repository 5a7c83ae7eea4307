//! The steps of a run: what has happened, and what is done next.
//!
//! The library decides; the program around it carries out. After each thing
//! that the program has done it hands in an `Event`, and gets the `Action`
//! that comes next.
use vstd::prelude::*;
use vstd::string::*;
use crate::processor::ProcessorView;
use crate::sync::{
    delete_set, item_views, record_views, upload_set, RemoteItem, RemoteItemView, SiteRecord,
    SiteRecordView,
};
use crate::text::views;

verus! {

/// One file to write below the output directory.
#[derive(Debug, PartialEq, Eq)]
pub struct LocalWrite {
    /// The path of the file, from the output directory.
    pub path: String,
    /// The bytes of the file.
    pub data: Vec<u8>,
}

/// The mathematical value of a `LocalWrite`.
pub struct LocalWriteView {
    pub path: Seq<char>,
    pub data: Seq<u8>,
}

impl View for LocalWrite {
    type V = LocalWriteView;

    open spec fn view(&self) -> LocalWriteView {
        LocalWriteView { path: self.path@, data: self.data@ }
    }
}

/// The views of the writes, in order.
pub open spec fn write_views(writes: Seq<LocalWrite>) -> Seq<LocalWriteView> {
    writes.map_values(|w: LocalWrite| w@)
}

/// A remote path without the `/` that it begins with: the path from the
/// root of the site.
pub open spec fn from_root(remote_path: Seq<char>) -> Seq<char> {
    if remote_path.len() > 0 {
        remote_path.skip(1)
    } else {
        remote_path
    }
}

/// The files to write for the records: each record's bytes, at its remote
/// path from the root of the site.
pub open spec fn local_writes(files: Seq<SiteRecordView>) -> Seq<LocalWriteView> {
    files.map_values(
        |r: SiteRecordView| LocalWriteView { path: from_root(r.remote_path), data: r.content },
    )
}

/// What has just happened in a run.
#[derive(Debug, PartialEq, Eq)]
pub enum Event {
    /// The run has been configured.
    Start,
    /// The entries of the site directory have been loaded.
    Collected,
    /// The remote site has been listed, before anything was sent.
    Listed(Vec<RemoteItem>),
    /// The upload has been sent, or left out in a dry run.
    Uploaded,
    /// The remote site has been listed again, after the upload.
    Refreshed(Vec<RemoteItem>),
    /// The deletion has been sent, or left out in a dry run.
    Deleted,
    /// The files have been written, or left out in a dry run.
    Written,
}

/// The mathematical value of an `Event`.
pub enum EventView {
    Start,
    Collected,
    Listed(Seq<RemoteItemView>),
    Uploaded,
    Refreshed(Seq<RemoteItemView>),
    Deleted,
    Written,
}

impl View for Event {
    type V = EventView;

    open spec fn view(&self) -> EventView {
        match self {
            Event::Start => EventView::Start,
            Event::Collected => EventView::Collected,
            Event::Listed(listing) => EventView::Listed(item_views(listing@)),
            Event::Uploaded => EventView::Uploaded,
            Event::Refreshed(listing) => EventView::Refreshed(item_views(listing@)),
            Event::Deleted => EventView::Deleted,
            Event::Written => EventView::Written,
        }
    }
}

/// What a run does next.
#[derive(Debug, PartialEq, Eq)]
pub enum Action {
    /// Walk the site directory and load its entries.
    Collect,
    /// Write the files below `dir`, unless `perform` is off.
    Write { dir: String, files: Vec<LocalWrite>, perform: bool },
    /// List the remote site.
    List,
    /// Send the records as one upload, unless `send` is off.
    Upload { records: Vec<SiteRecord>, send: bool },
    /// List the remote site again.
    Refresh,
    /// Send the paths as one deletion, unless `send` is off.
    Delete { paths: Vec<String>, send: bool },
    /// Nothing is left to do.
    Finish,
}

/// The mathematical value of an `Action`.
pub enum ActionView {
    Collect,
    Write { dir: Seq<char>, files: Seq<LocalWriteView>, perform: bool },
    List,
    Upload { records: Seq<SiteRecordView>, send: bool },
    Refresh,
    Delete { paths: Seq<Seq<char>>, send: bool },
    Finish,
}

impl View for Action {
    type V = ActionView;

    open spec fn view(&self) -> ActionView {
        match self {
            Action::Collect => ActionView::Collect,
            Action::Write { dir, files, perform } => ActionView::Write {
                dir: dir@,
                files: write_views(files@),
                perform: *perform,
            },
            Action::List => ActionView::List,
            Action::Upload { records, send } => ActionView::Upload {
                records: record_views(records@),
                send: *send,
            },
            Action::Refresh => ActionView::Refresh,
            Action::Delete { paths, send } => ActionView::Delete { paths: views(paths@), send: *send },
            Action::Finish => ActionView::Finish,
        }
    }
}

impl ActionView {
    /// The action changes the remote site or the output directory.
    pub open spec fn changes_something(self) -> bool {
        match self {
            ActionView::Write { perform, .. } => perform,
            ActionView::Upload { send, .. } => send,
            ActionView::Delete { send, .. } => send,
            _ => false,
        }
    }

    /// The action as it is in a dry run: the same plan, not carried out.
    pub open spec fn held_back(self) -> ActionView {
        match self {
            ActionView::Write { dir, files, .. } => ActionView::Write { dir, files, perform: false },
            ActionView::Upload { records, .. } => ActionView::Upload { records, send: false },
            ActionView::Delete { paths, .. } => ActionView::Delete { paths, send: false },
            other => other,
        }
    }
}

/// What a run does after `event`. A run that writes to a directory loads the
/// entries and writes the files. A run that sends to the remote site loads
/// the entries, lists the site, uploads what has changed, lists the site
/// again, and deletes what that second listing shows without a local record.
/// A dry run plans the same and carries nothing out.
pub open spec fn next_action(run: ProcessorView, event: EventView) -> ActionView {
    match run.local {
        Some(dir) => match event {
            EventView::Start => ActionView::Collect,
            EventView::Collected => ActionView::Write {
                dir,
                files: local_writes(run.files),
                perform: !run.dry_run,
            },
            _ => ActionView::Finish,
        },
        None => match event {
            EventView::Start => ActionView::Collect,
            EventView::Collected => ActionView::List,
            EventView::Listed(listing) => ActionView::Upload {
                records: upload_set(run.files, listing),
                send: !run.dry_run,
            },
            EventView::Uploaded => ActionView::Refresh,
            EventView::Refreshed(listing) => ActionView::Delete {
                paths: delete_set(run.files, listing),
                send: !run.dry_run,
            },
            _ => ActionView::Finish,
        },
    }
}

/// A dry run plans what the run would do and carries nothing out: after
/// every event its action is that of the same run without the switch, held
/// back, and it changes nothing.
pub proof fn lemma_dry_run_plans_the_same(run: ProcessorView, event: EventView)
    ensures
        next_action(ProcessorView { dry_run: true, ..run }, event) == next_action(
            ProcessorView { dry_run: false, ..run },
            event,
        ).held_back(),
        !next_action(ProcessorView { dry_run: true, ..run }, event).changes_something(),
{
}

/// A run that writes to a directory never calls the remote site, and a run
/// that sends to the remote site never writes.
pub proof fn lemma_one_target_for_a_run(run: ProcessorView, event: EventView)
    ensures
        run.local is Some ==> next_action(run, event) is Collect || next_action(run, event) is Write
            || next_action(run, event) is Finish,
        run.local is None ==> !(next_action(run, event) is Write),
{
}

/// Nothing is deleted but what a listing shows that was made after the
/// upload: a deletion comes only after the remote site has been listed
/// again, and that second listing is asked for only after the upload.
pub proof fn lemma_deletion_follows_the_refresh(run: ProcessorView, event: EventView)
    ensures
        next_action(run, event) is Delete ==> event is Refreshed && next_action(
            run,
            event,
        )->Delete_paths == delete_set(run.files, event->Refreshed_0),
        next_action(run, event) is Refresh ==> event is Uploaded,
{
}

} // verus!
