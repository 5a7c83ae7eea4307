//! The plan of a synchronisation: which local records are uploaded, and
//! which remote files are deleted.
//!
//! A record is uploaded where the remote site holds no file at its path, or
//! one with another fingerprint. A remote file is deleted where no local
//! record has its path. Remote directories are never deleted.
use vstd::prelude::*;
use vstd::string::*;

verus! {

/// What is published at one path of the site.
#[derive(Debug, PartialEq, Eq)]
pub struct SiteRecord {
    /// The bytes of the file.
    pub content: Vec<u8>,
    /// The path on the remote site; it begins with `/`.
    pub remote_path: String,
}

/// The mathematical value of a `SiteRecord`.
pub struct SiteRecordView {
    pub content: Seq<u8>,
    pub remote_path: Seq<char>,
}

impl View for SiteRecord {
    type V = SiteRecordView;

    open spec fn view(&self) -> SiteRecordView {
        SiteRecordView { content: self.content@, remote_path: self.remote_path@ }
    }
}

/// One entry of the remote site's listing.
#[derive(Debug, PartialEq, Eq)]
pub enum RemoteItem {
    /// A file, with the fingerprint that the remote site reports for it.
    File { path: String, sha1_hash: String },
    /// A directory.
    Directory { path: String },
}

/// The mathematical value of a `RemoteItem`.
pub enum RemoteItemView {
    File { path: Seq<char>, sha1_hash: Seq<char> },
    Directory { path: Seq<char> },
}

impl View for RemoteItem {
    type V = RemoteItemView;

    open spec fn view(&self) -> RemoteItemView {
        match self {
            RemoteItem::File { path, sha1_hash } => RemoteItemView::File {
                path: path@,
                sha1_hash: sha1_hash@,
            },
            RemoteItem::Directory { path } => RemoteItemView::Directory { path: path@ },
        }
    }
}

impl RemoteItemView {
    /// The path of the item.
    pub open spec fn path(self) -> Seq<char> {
        match self {
            RemoteItemView::File { path, .. } => path,
            RemoteItemView::Directory { path } => path,
        }
    }
}

/// What is uploaded and what is deleted in one run.
#[derive(Debug, PartialEq, Eq)]
pub struct SyncPlan {
    /// The records to upload, in the order of the local records.
    pub upload_set: Vec<SiteRecord>,
    /// The remote paths to delete, in the order of the remote listing.
    pub delete_set: Vec<String>,
}

/// The views of the records of `files`, in order.
pub open spec fn record_views(files: Seq<SiteRecord>) -> Seq<SiteRecordView> {
    files.map_values(|r: SiteRecord| r@)
}

/// The views of the items of `listing`, in order.
pub open spec fn item_views(listing: Seq<RemoteItem>) -> Seq<RemoteItemView> {
    listing.map_values(|i: RemoteItem| i@)
}

/// The fingerprint of `bytes`: their SHA-1 digest, written as forty
/// hexadecimal digits in lower case.
pub uninterp spec fn sha1_hex(bytes: Seq<u8>) -> Seq<char>;

/// The first item of `listing` at `path`, if there is one.
pub open spec fn find_item(listing: Seq<RemoteItemView>, path: Seq<char>) -> Option<RemoteItemView>
    decreases listing.len(),
{
    if listing.len() == 0 {
        None
    } else if listing.first().path() == path {
        Some(listing.first())
    } else {
        find_item(listing.drop_first(), path)
    }
}

/// Content with the fingerprint `fingerprint` differs from what `listing`
/// shows at `path`: the listing has no item there, or a directory, or a file
/// with another fingerprint.
pub open spec fn fingerprint_differs(
    listing: Seq<RemoteItemView>,
    path: Seq<char>,
    fingerprint: Seq<char>,
) -> bool {
    match find_item(listing, path) {
        Some(RemoteItemView::File { sha1_hash, .. }) => sha1_hash != fingerprint,
        _ => true,
    }
}

/// The record differs from what `listing` shows at its path.
pub open spec fn has_changed(listing: Seq<RemoteItemView>, record: SiteRecordView) -> bool {
    fingerprint_differs(listing, record.remote_path, sha1_hex(record.content))
}

/// Some record of `files` has the remote path `path`.
pub open spec fn has_local(files: Seq<SiteRecordView>, path: Seq<char>) -> bool {
    exists|i: int| 0 <= i < files.len() && (#[trigger] files[i]).remote_path == path
}

/// The item is a remote file without a local record at its path.
pub open spec fn is_orphan(files: Seq<SiteRecordView>, item: RemoteItemView) -> bool {
    item is File && !has_local(files, item.path())
}

/// The records to upload: those of `files` that differ from what `listing`
/// shows, in the order of `files`.
pub open spec fn upload_set(files: Seq<SiteRecordView>, listing: Seq<RemoteItemView>) -> Seq<
    SiteRecordView,
> {
    files.filter(|r: SiteRecordView| has_changed(listing, r))
}

/// The paths to delete: those of the orphaned files of `listing`, one for
/// each such file, in the order of `listing`.
pub open spec fn delete_set(files: Seq<SiteRecordView>, listing: Seq<RemoteItemView>) -> Seq<
    Seq<char>,
> {
    listing.filter(|i: RemoteItemView| is_orphan(files, i)).map_values(
        |i: RemoteItemView| i.path(),
    )
}

/// No two items of the listing have the same path.
pub open spec fn distinct_paths(listing: Seq<RemoteItemView>) -> bool {
    forall|i: int, j: int|
        0 <= i < j < listing.len() ==> (#[trigger] listing[i]).path() != (#[trigger] listing[j]).path()
}

/// The remote site holds what the local records hold, and nothing else: at
/// the path of every record the listing shows a file with the record's
/// fingerprint, and every file of the listing has a record at its path.
pub open spec fn mirrors(listing: Seq<RemoteItemView>, files: Seq<SiteRecordView>) -> bool {
    &&& forall|i: int|
        0 <= i < files.len() ==> find_item(listing, (#[trigger] files[i]).remote_path) == Some(
            RemoteItemView::File {
                path: files[i].remote_path,
                sha1_hash: sha1_hex(files[i].content),
            },
        )
    &&& forall|j: int|
        0 <= j < listing.len() && (#[trigger] listing[j]) is File ==> has_local(
            files,
            listing[j].path(),
        )
}

/// The file that the listing shows at `path`, if it shows a file there.
pub open spec fn file_at(listing: Seq<RemoteItemView>, path: Seq<char>) -> Option<RemoteItemView> {
    match find_item(listing, path) {
        Some(item) => if item is File {
            Some(item)
        } else {
            None
        },
        None => None,
    }
}

/// No two records have the same remote path.
pub open spec fn distinct_records(files: Seq<SiteRecordView>) -> bool {
    forall|i: int, j: int|
        0 <= i < j < files.len() ==> (#[trigger] files[i]).remote_path != (
        #[trigger] files[j]).remote_path
}

/// `after` is a listing of the remote site once it has taken the upload of
/// `records`: at the path of each record it shows a file with the record's
/// fingerprint, and at every other path it shows the file that `before`
/// shows, or none where `before` shows none.
pub open spec fn reflects_upload(
    before: Seq<RemoteItemView>,
    records: Seq<SiteRecordView>,
    after: Seq<RemoteItemView>,
) -> bool {
    &&& forall|i: int|
        0 <= i < records.len() ==> find_item(after, (#[trigger] records[i]).remote_path) == Some(
            RemoteItemView::File {
                path: records[i].remote_path,
                sha1_hash: sha1_hex(records[i].content),
            },
        )
    &&& forall|path: Seq<char>|
        !has_local(records, path) ==> (#[trigger] file_at(after, path)) == file_at(before, path)
}

/// `after` is a listing of the remote site once it has taken the deletion of
/// `paths`: it shows no file at these paths, and at every other path it
/// shows the file that `before` shows, or none where `before` shows none.
pub open spec fn reflects_deletion(
    before: Seq<RemoteItemView>,
    paths: Seq<Seq<char>>,
    after: Seq<RemoteItemView>,
) -> bool {
    forall|path: Seq<char>| (#[trigger] file_at(after, path)) == (if paths.contains(path) {
        None
    } else {
        file_at(before, path)
    })
}

/// How often `path` stands in `paths`.
pub open spec fn count_of(paths: Seq<Seq<char>>, path: Seq<char>) -> nat
    decreases paths.len(),
{
    if paths.len() == 0 {
        0
    } else {
        count_of(paths.drop_last(), path) + if paths.last() == path {
            1nat
        } else {
            0nat
        }
    }
}

/// A path that is counted zero times does not stand in the sequence, and
/// one that does not stand in it is counted zero times.
pub proof fn lemma_count_of_zero(paths: Seq<Seq<char>>, path: Seq<char>)
    ensures
        count_of(paths, path) == 0 <==> !paths.contains(path),
    decreases paths.len(),
{
    if paths.len() > 0 {
        lemma_count_of_zero(paths.drop_last(), path);
        if paths.last() == path {
            assert(paths[paths.len() - 1] == path);
        } else if paths.contains(path) {
            let k = choose|k: int| 0 <= k < paths.len() && paths[k] == path;
            assert(paths.drop_last()[k] == path);
        } else if paths.drop_last().contains(path) {
            let k = choose|k: int| 0 <= k < paths.drop_last().len() && paths.drop_last()[k] == path;
            assert(paths[k] == path);
        }
    }
}

/// A record is uploaded if and only if it differs from what the remote
/// listing shows: every record of `files` that has changed stands in the
/// upload set, and no record that has not changed does.
pub proof fn lemma_upload_set_holds_the_changed(
    files: Seq<SiteRecordView>,
    listing: Seq<RemoteItemView>,
    record: SiteRecordView,
)
    ensures
        upload_set(files, listing).contains(record) <==> files.contains(record) && has_changed(
            listing,
            record,
        ),
    decreases files.len(),
{
    let changed = |r: SiteRecordView| has_changed(listing, r);
    reveal(Seq::filter);
    if files.len() > 0 {
        let before = files.drop_last();
        lemma_upload_set_holds_the_changed(before, listing, record);
        let plan = upload_set(files, listing);
        let plan_before = upload_set(before, listing);
        if plan.contains(record) {
            let k = choose|k: int| 0 <= k < plan.len() && plan[k] == record;
            if changed(files.last()) && k == plan.len() - 1 {
                assert(files[files.len() - 1] == record);
            } else {
                assert(plan_before[k] == record);
                let j = choose|j: int| 0 <= j < before.len() && before[j] == record;
                assert(files[j] == record);
            }
        }
        if files.contains(record) && has_changed(listing, record) {
            let j = choose|j: int| 0 <= j < files.len() && files[j] == record;
            if j == files.len() - 1 {
                assert(plan[plan.len() - 1] == record);
            } else {
                assert(before[j] == record);
                let k = choose|k: int| 0 <= k < plan_before.len() && plan_before[k] == record;
                assert(plan[k] == record);
            }
        }
    }
}

/// The upload set keeps the order of the local records: of two records in
/// the upload set, the earlier one is also the earlier one among the local
/// records.
pub proof fn lemma_upload_set_keeps_the_order(
    files: Seq<SiteRecordView>,
    listing: Seq<RemoteItemView>,
    a: int,
    b: int,
)
    requires
        0 <= a < b < upload_set(files, listing).len(),
    ensures
        exists|i: int, j: int|
            0 <= i < j < files.len() && #[trigger] files[i] == upload_set(files, listing)[a]
                && #[trigger] files[j] == upload_set(files, listing)[b],
    decreases files.len(),
{
    reveal(Seq::filter);
    let plan = upload_set(files, listing);
    if files.len() > 0 {
        let before = files.drop_last();
        let plan_before = upload_set(before, listing);
        if has_changed(listing, files.last()) && b == plan.len() - 1 {
            assert(plan_before[a] == plan[a]);
            assert(plan_before.contains(plan[a]));
            lemma_upload_set_holds_the_changed(before, listing, plan[a]);
            let i = choose|i: int| 0 <= i < before.len() && before[i] == plan[a];
            assert(files[i] == plan[a] && files[files.len() - 1] == plan[b]);
        } else {
            assert(plan_before[a] == plan[a] && plan_before[b] == plan[b]);
            lemma_upload_set_keeps_the_order(before, listing, a, b);
            let (i, j) = choose|i: int, j: int|
                0 <= i < j < before.len() && #[trigger] before[i] == plan_before[a]
                    && #[trigger] before[j] == plan_before[b];
            assert(files[i] == plan[a] && files[j] == plan[b]);
        }
    }
}

/// For a listing of the first `n` items of `listing`, whose paths all
/// differ: the path of an item stands once in the delete set where the item
/// is among those `n` and is orphaned, and not at all otherwise.
proof fn lemma_delete_set_prefix(
    files: Seq<SiteRecordView>,
    listing: Seq<RemoteItemView>,
    n: int,
    j: int,
)
    requires
        distinct_paths(listing),
        0 <= n <= listing.len(),
        0 <= j < listing.len(),
    ensures
        count_of(delete_set(files, listing.take(n)), listing[j].path()) == (if j < n && is_orphan(
            files,
            listing[j],
        ) {
            1nat
        } else {
            0nat
        }),
    decreases n,
{
    let orphan = |i: RemoteItemView| is_orphan(files, i);
    let path_of = |i: RemoteItemView| i.path();
    reveal(Seq::filter);
    if n == 0 {
        assert(delete_set(files, listing.take(0)) =~= Seq::empty());
    } else {
        lemma_delete_set_prefix(files, listing, n - 1, j);
        assert(listing.take(n).drop_last() == listing.take(n - 1));
        let kept = listing.take(n - 1).filter(orphan);
        let last = listing[n - 1];
        if is_orphan(files, last) {
            assert(listing.take(n).filter(orphan) == kept.push(last));
            assert(kept.push(last).map_values(path_of) == kept.map_values(path_of).push(
                last.path(),
            ));
            assert(delete_set(files, listing.take(n)).drop_last() == delete_set(
                files,
                listing.take(n - 1),
            ));
        } else {
            assert(listing.take(n).filter(orphan) == kept);
        }
    }
}

/// Every remote file without a local record is deleted exactly once, and
/// nothing else is deleted: in a listing whose paths all differ, the path of
/// an orphaned file stands once in the delete set, and the path of a
/// directory, or of a file with a local record, does not stand in it.
pub proof fn lemma_delete_set_holds_the_orphans(
    files: Seq<SiteRecordView>,
    listing: Seq<RemoteItemView>,
    j: int,
)
    requires
        distinct_paths(listing),
        0 <= j < listing.len(),
    ensures
        is_orphan(files, listing[j]) ==> count_of(delete_set(files, listing), listing[j].path())
            == 1,
        !is_orphan(files, listing[j]) ==> !delete_set(files, listing).contains(listing[j].path()),
        listing[j] is Directory ==> !delete_set(files, listing).contains(listing[j].path()),
{
    lemma_delete_set_prefix(files, listing, listing.len() as int, j);
    assert(listing.take(listing.len() as int) == listing);
    lemma_count_of_zero(delete_set(files, listing), listing[j].path());
}

/// A second run changes nothing: where the remote listing mirrors the local
/// records, no record is uploaded and no remote path is deleted.
pub proof fn lemma_synchronised_site_needs_nothing(
    files: Seq<SiteRecordView>,
    listing: Seq<RemoteItemView>,
)
    requires
        mirrors(listing, files),
    ensures
        upload_set(files, listing) == Seq::<SiteRecordView>::empty(),
        delete_set(files, listing) == Seq::<Seq<char>>::empty(),
{
    lemma_nothing_changed(files, listing, files.len() as int);
    assert(files.take(files.len() as int) == files);
    lemma_nothing_orphaned(files, listing, listing.len() as int);
    assert(listing.take(listing.len() as int) == listing);
}

/// Where the listing mirrors the records, none of the first `n` records is
/// uploaded.
proof fn lemma_nothing_changed(files: Seq<SiteRecordView>, listing: Seq<RemoteItemView>, n: int)
    requires
        mirrors(listing, files),
        0 <= n <= files.len(),
    ensures
        files.take(n).filter(|r: SiteRecordView| has_changed(listing, r)) == Seq::<
            SiteRecordView,
        >::empty(),
    decreases n,
{
    reveal(Seq::filter);
    if n > 0 {
        lemma_nothing_changed(files, listing, n - 1);
        assert(files.take(n).drop_last() == files.take(n - 1));
        assert(!has_changed(listing, files[n - 1]));
    }
}

/// Where the listing mirrors the records, none of its first `n` items is
/// deleted.
proof fn lemma_nothing_orphaned(files: Seq<SiteRecordView>, listing: Seq<RemoteItemView>, n: int)
    requires
        mirrors(listing, files),
        0 <= n <= listing.len(),
    ensures
        delete_set(files, listing.take(n)) == Seq::<Seq<char>>::empty(),
    decreases n,
{
    reveal(Seq::filter);
    if n > 0 {
        lemma_nothing_orphaned(files, listing, n - 1);
        assert(listing.take(n).drop_last() == listing.take(n - 1));
        assert(!is_orphan(files, listing[n - 1]));
    }
}

/// What `find_item` gives stands in the listing and has the path asked for.
pub proof fn lemma_find_item(listing: Seq<RemoteItemView>, path: Seq<char>)
    ensures
        find_item(listing, path) is Some ==> listing.contains(find_item(listing, path)->0)
            && find_item(listing, path)->0.path() == path,
        find_item(listing, path) is None ==> forall|k: int|
            0 <= k < listing.len() ==> (#[trigger] listing[k]).path() != path,
    decreases listing.len(),
{
    if listing.len() > 0 {
        if listing.first().path() == path {
            assert(listing[0] == listing.first());
        } else {
            let rest = listing.drop_first();
            lemma_find_item(rest, path);
            if find_item(rest, path) is Some {
                let k = choose|k: int| 0 <= k < rest.len() && rest[k] == find_item(rest, path)->0;
                assert(listing[k + 1] == rest[k]);
            } else {
                assert forall|k: int| 0 <= k < listing.len() implies (#[trigger] listing[k]).path()
                    != path by {
                    if k > 0 {
                        assert(rest[k - 1] == listing[k]);
                    }
                }
            }
        }
    }
}

/// In a listing whose paths all differ, every item is the one found at its
/// path.
pub proof fn lemma_find_item_of_distinct(listing: Seq<RemoteItemView>, j: int)
    requires
        distinct_paths(listing),
        0 <= j < listing.len(),
    ensures
        find_item(listing, listing[j].path()) == Some(listing[j]),
    decreases j,
{
    if j > 0 {
        let rest = listing.drop_first();
        assert(listing[0].path() != listing[j].path());
        assert forall|a: int, b: int| 0 <= a < b < rest.len() implies (#[trigger] rest[a]).path() != (
        #[trigger] rest[b]).path() by {
            assert(listing[a + 1].path() != listing[b + 1].path());
        }
        lemma_find_item_of_distinct(rest, j - 1);
    }
}

/// A path stands in the delete set if and only if the listing has an
/// orphaned file at it.
pub proof fn lemma_delete_set_members(
    files: Seq<SiteRecordView>,
    listing: Seq<RemoteItemView>,
    path: Seq<char>,
)
    ensures
        delete_set(files, listing).contains(path) <==> exists|k: int|
            0 <= k < listing.len() && is_orphan(files, #[trigger] listing[k]) && listing[k].path()
                == path,
    decreases listing.len(),
{
    let orphan = |i: RemoteItemView| is_orphan(files, i);
    let path_of = |i: RemoteItemView| i.path();
    reveal(Seq::filter);
    if listing.len() > 0 {
        let before = listing.drop_last();
        lemma_delete_set_members(files, before, path);
        let plan = delete_set(files, listing);
        let plan_before = delete_set(files, before);
        let kept = before.filter(orphan);
        if is_orphan(files, listing.last()) {
            assert(plan == kept.push(listing.last()).map_values(path_of));
            assert(plan =~= plan_before.push(listing.last().path()));
        } else {
            assert(plan == plan_before);
        }
        if plan.contains(path) {
            let n = choose|n: int| 0 <= n < plan.len() && plan[n] == path;
            if is_orphan(files, listing.last()) && n == plan.len() - 1 {
                assert(is_orphan(files, listing[listing.len() - 1]));
            } else {
                assert(plan_before[n] == path);
                let k = choose|k: int|
                    0 <= k < before.len() && is_orphan(files, #[trigger] before[k]) && before[k].path()
                        == path;
                assert(listing[k] == before[k]);
            }
        }
        if exists|k: int|
            0 <= k < listing.len() && is_orphan(files, #[trigger] listing[k]) && listing[k].path()
                == path {
            let k = choose|k: int|
                0 <= k < listing.len() && is_orphan(files, #[trigger] listing[k]) && listing[k].path()
                    == path;
            if k == listing.len() - 1 {
                assert(plan[plan.len() - 1] == path);
            } else {
                assert(before[k] == listing[k]);
                let n = choose|n: int| 0 <= n < plan_before.len() && plan_before[n] == path;
                assert(plan[n] == path);
            }
        }
    } else {
        assert(delete_set(files, listing) =~= Seq::empty());
    }
}

/// A run leaves the remote site a mirror of the local records. Let the
/// records have remote paths that all differ. Let `uploaded` be a listing of
/// the site after it has taken the upload planned against `before`, and
/// `after` a listing, with paths that all differ, after it has taken the
/// deletion planned against `uploaded`. Then `after` mirrors the records.
pub proof fn lemma_run_leaves_a_mirror(
    files: Seq<SiteRecordView>,
    before: Seq<RemoteItemView>,
    uploaded: Seq<RemoteItemView>,
    after: Seq<RemoteItemView>,
)
    requires
        distinct_records(files),
        reflects_upload(before, upload_set(files, before), uploaded),
        reflects_deletion(uploaded, delete_set(files, uploaded), after),
        distinct_paths(after),
    ensures
        mirrors(after, files),
{
    let sent = upload_set(files, before);
    let gone = delete_set(files, uploaded);
    assert forall|i: int| 0 <= i < files.len() implies find_item(
        after,
        (#[trigger] files[i]).remote_path,
    ) == Some(
        RemoteItemView::File {
            path: files[i].remote_path,
            sha1_hash: sha1_hex(files[i].content),
        },
    ) by {
        let record = files[i];
        let path = record.remote_path;
        let wanted = RemoteItemView::File { path, sha1_hash: sha1_hex(record.content) };
        lemma_upload_set_holds_the_changed(files, before, record);
        if has_changed(before, record) {
            let n = choose|n: int| 0 <= n < sent.len() && sent[n] == record;
            assert(find_item(uploaded, sent[n].remote_path) == Some(wanted));
        } else {
            lemma_find_item(before, path);
            assert(find_item(before, path) == Some(wanted));
            if has_local(sent, path) {
                let n = choose|n: int| 0 <= n < sent.len() && (#[trigger] sent[n]).remote_path == path;
                lemma_upload_set_holds_the_changed(files, before, sent[n]);
                let k = choose|k: int| 0 <= k < files.len() && files[k] == sent[n];
                assert(files[k].remote_path == files[i].remote_path);
                assert(k == i);
            }
            assert(file_at(uploaded, path) == file_at(before, path));
        }
        assert(file_at(uploaded, path) == Some(wanted));
        lemma_delete_set_members(files, uploaded, path);
        if gone.contains(path) {
            let k = choose|k: int|
                0 <= k < uploaded.len() && is_orphan(files, #[trigger] uploaded[k]) && uploaded[k].path()
                    == path;
            assert(has_local(files, files[i].remote_path));
        }
        assert(file_at(after, path) == file_at(uploaded, path));
    }
    assert forall|j: int| 0 <= j < after.len() && (#[trigger] after[j]) is File implies has_local(
        files,
        after[j].path(),
    ) by {
        let path = after[j].path();
        lemma_find_item_of_distinct(after, j);
        assert(file_at(after, path) == Some(after[j]));
        assert(file_at(uploaded, path) == Some(after[j]));
        lemma_find_item(uploaded, path);
        let k = choose|k: int| 0 <= k < uploaded.len() && uploaded[k] == after[j];
        lemma_delete_set_members(files, uploaded, path);
        if !has_local(files, path) {
            assert(is_orphan(files, uploaded[k]));
        }
    }
}

/// A second run changes nothing. Under what `lemma_run_leaves_a_mirror`
/// asks of the records and of the listings during a first run, a run
/// against the listing that the first one leaves uploads no record and
/// deletes no path.
pub proof fn lemma_second_run_plans_nothing(
    files: Seq<SiteRecordView>,
    before: Seq<RemoteItemView>,
    uploaded: Seq<RemoteItemView>,
    after: Seq<RemoteItemView>,
)
    requires
        distinct_records(files),
        reflects_upload(before, upload_set(files, before), uploaded),
        reflects_deletion(uploaded, delete_set(files, uploaded), after),
        distinct_paths(after),
    ensures
        upload_set(files, after) == Seq::<SiteRecordView>::empty(),
        delete_set(files, after) == Seq::<Seq<char>>::empty(),
{
    lemma_run_leaves_a_mirror(files, before, uploaded, after);
    lemma_synchronised_site_needs_nothing(files, after);
}

/// `neoercities::site_info::hash_of_bytes`: the SHA-1 digest of the bytes in
/// hexadecimal. The digest depends on the bytes alone; the contract names it
/// and claims nothing about its digits.
#[verifier::external_body]
fn fingerprint(bytes: &Vec<u8>) -> (hash: String)
    ensures
        hash@ == sha1_hex(bytes@),
{
    neoercities::site_info::hash_of_bytes(bytes)
}

/// A copy of the record.
pub fn copy_record(record: &SiteRecord) -> (copy: SiteRecord)
    ensures
        copy@ == record@,
{
    SiteRecord { content: record.content.clone(), remote_path: record.remote_path.clone() }
}

/// The path of the item.
pub fn item_path(item: &RemoteItem) -> (path: &String)
    ensures
        path@ == item@.path(),
{
    match item {
        RemoteItem::File { path, .. } => path,
        RemoteItem::Directory { path } => path,
    }
}

/// Whether content with the fingerprint `fingerprint` differs from what the
/// listing shows at `remote_path`.
pub fn differs_from_listing(listing: &Vec<RemoteItem>, remote_path: &String, fingerprint: &String) -> (r:
    bool)
    ensures
        r == fingerprint_differs(item_views(listing@), remote_path@, fingerprint@),
{
    let mut i: usize = 0;
    assert(item_views(listing@).skip(0) == item_views(listing@));
    while i < listing.len()
        invariant
            i <= listing.len(),
            find_item(item_views(listing@), remote_path@) == find_item(
                item_views(listing@).skip(i as int),
                remote_path@,
            ),
        decreases listing.len() - i,
    {
        assert(item_views(listing@).skip(i as int).drop_first() == item_views(listing@).skip(
            i + 1,
        ));
        if *item_path(&listing[i]) == *remote_path {
            return match &listing[i] {
                RemoteItem::File { sha1_hash, .. } => !(*sha1_hash == *fingerprint),
                RemoteItem::Directory { .. } => true,
            };
        }
        i = i + 1;
    }
    true
}

/// Whether the record differs from what the listing shows at its path.
pub fn record_changed(listing: &Vec<RemoteItem>, record: &SiteRecord) -> (r: bool)
    ensures
        r == has_changed(item_views(listing@), record@),
{
    let hash = fingerprint(&record.content);
    differs_from_listing(listing, &record.remote_path, &hash)
}

/// Whether some record of `files` has the remote path `path`.
pub fn has_local_record(files: &Vec<SiteRecord>, path: &String) -> (r: bool)
    ensures
        r == has_local(record_views(files@), path@),
{
    let mut i: usize = 0;
    while i < files.len()
        invariant
            i <= files.len(),
            forall|k: int| 0 <= k < i ==> (#[trigger] record_views(files@)[k]).remote_path != path@,
        decreases files.len() - i,
    {
        if files[i].remote_path == *path {
            assert(record_views(files@)[i as int].remote_path == path@);
            return true;
        }
        i = i + 1;
    }
    false
}

/// The records to upload: those that differ from what the listing shows, in
/// the order of `files`.
pub fn plan_uploads(files: &Vec<SiteRecord>, listing: &Vec<RemoteItem>) -> (plan: Vec<SiteRecord>)
    ensures
        record_views(plan@) == upload_set(record_views(files@), item_views(listing@)),
{
    let ghost changed = |r: SiteRecordView| has_changed(item_views(listing@), r);
    let mut plan: Vec<SiteRecord> = Vec::new();
    let mut i: usize = 0;
    proof {
        reveal(Seq::filter);
    }
    while i < files.len()
        invariant
            i <= files.len(),
            changed == |r: SiteRecordView| has_changed(item_views(listing@), r),
            record_views(plan@) == record_views(files@).take(i as int).filter(changed),
        decreases files.len() - i,
    {
        proof {
            reveal(Seq::filter);
            assert(record_views(files@).take(i + 1).drop_last() == record_views(files@).take(
                i as int,
            ));
        }
        if record_changed(listing, &files[i]) {
            plan.push(copy_record(&files[i]));
        }
        i = i + 1;
    }
    assert(record_views(files@).take(files.len() as int) == record_views(files@));
    plan
}

/// The remote paths to delete: those of the files of the listing that have
/// no local record, in the order of the listing.
pub fn plan_deletions(files: &Vec<SiteRecord>, listing: &Vec<RemoteItem>) -> (plan: Vec<String>)
    ensures
        crate::text::views(plan@) == delete_set(record_views(files@), item_views(listing@)),
{
    let ghost orphan = |i: RemoteItemView| is_orphan(record_views(files@), i);
    let ghost path_of = |i: RemoteItemView| i.path();
    let mut plan: Vec<String> = Vec::new();
    let mut i: usize = 0;
    proof {
        reveal(Seq::filter);
    }
    while i < listing.len()
        invariant
            i <= listing.len(),
            orphan == |i: RemoteItemView| is_orphan(record_views(files@), i),
            path_of == |i: RemoteItemView| i.path(),
            crate::text::views(plan@) == item_views(listing@).take(i as int).filter(
                orphan,
            ).map_values(path_of),
        decreases listing.len() - i,
    {
        let ghost before = crate::text::views(plan@);
        proof {
            reveal(Seq::filter);
            assert(item_views(listing@).take(i + 1).drop_last() == item_views(listing@).take(
                i as int,
            ));
        }
        match &listing[i] {
            RemoteItem::File { path, .. } => {
                if !has_local_record(files, path) {
                    plan.push(path.clone());
                    assert(crate::text::views(plan@) == before.push(path@));
                }
            },
            RemoteItem::Directory { .. } => {},
        }
        i = i + 1;
    }
    assert(item_views(listing@).take(listing.len() as int) == item_views(listing@));
    plan
}

} // verus!
