//! The sync executor's planning: grouping a diff's operations into the
//! legal remote calls, batching uploads, and propagating remote-assigned
//! file identifiers back into the new snapshot. The remote calls
//! themselves are made outside the library; everything here is a pure
//! function of the snapshots and the operation list.

use vstd::prelude::*;

use crate::post::{Post, PostDiff, PostDiffView, PostFileView, PostPrivacy, PostView};
use crate::diff::diffs_in_bounds;

verus! {

/// The remote service accepts at most this many images per upload call.
pub const UPLOAD_BATCH_SIZE: usize = 20;

/// Why an operation list could not be turned into remote calls.
#[derive(Debug, Clone, Copy, PartialEq, Eq, Structural)]
pub enum SyncError {
    /// A file that should already exist remotely has no remote identifier.
    MissingFileId,
    /// A file that should be uploaded has no local path.
    MissingFilePath,
    /// The remote service reported a different number of files than
    /// expected after an upload.
    FileCountMismatch,
    /// The post has no files at all.
    PostHasNoFiles,
}

/// One description replacement to send to the remote service.
#[derive(Debug, Clone, PartialEq, Eq)]
pub struct FileUpdate {
    /// The remote identifier of the file.
    pub id: String,
    /// The new description.
    pub description: String,
}

/// The mathematical value of a [`FileUpdate`].
#[verifier::ext_equal]
pub ghost struct FileUpdateView {
    pub id: Seq<char>,
    pub description: Seq<char>,
}

impl DeepView for FileUpdate {
    type V = FileUpdateView;

    open spec fn deep_view(&self) -> FileUpdateView {
        FileUpdateView { id: self.id@, description: self.description@ }
    }
}

/// The metadata fields to replace in a single remote "update post" call.
#[derive(Debug, Clone, PartialEq, Eq)]
pub struct PostMetadataUpdate {
    /// The new title, if the title changed.
    pub title: Option<String>,
    /// The new privacy, if the privacy changed.
    pub privacy: Option<PostPrivacy>,
    /// The new maturity flag, if the flag changed.
    pub nsfw: Option<bool>,
}

/// The mathematical value of a [`PostMetadataUpdate`].
#[verifier::ext_equal]
pub ghost struct PostMetadataUpdateView {
    pub title: Option<Seq<char>>,
    pub privacy: Option<PostPrivacy>,
    pub nsfw: Option<bool>,
}

impl DeepView for PostMetadataUpdate {
    type V = PostMetadataUpdateView;

    open spec fn deep_view(&self) -> PostMetadataUpdateView {
        PostMetadataUpdateView {
            title: self.title.deep_view(),
            privacy: self.privacy,
            nsfw: self.nsfw,
        }
    }
}

/// What an update run must send: the one metadata call (present exactly
/// when some metadata edit exists), the new-post indices to upload in
/// order, the remote ids to delete in order, and the description
/// replacements for retained files.
#[derive(Debug, Clone, PartialEq, Eq)]
pub struct UpdatePlan {
    /// The metadata call, if any metadata edit exists.
    pub metadata: Option<PostMetadataUpdate>,
    /// Indices into the new post's files to upload, in operation order.
    pub add_indices: Vec<usize>,
    /// Remote ids of old files to delete, in operation order.
    pub remove_ids: Vec<String>,
    /// Description replacements for retained files, in operation order.
    pub description_updates: Vec<FileUpdate>,
}

/// The mathematical value of an [`UpdatePlan`].
#[verifier::ext_equal]
pub ghost struct UpdatePlanView {
    pub metadata: Option<PostMetadataUpdateView>,
    pub add_indices: Seq<usize>,
    pub remove_ids: Seq<Seq<char>>,
    pub description_updates: Seq<FileUpdateView>,
}

impl DeepView for UpdatePlan {
    type V = UpdatePlanView;

    open spec fn deep_view(&self) -> UpdatePlanView {
        UpdatePlanView {
            metadata: self.metadata.deep_view(),
            add_indices: self.add_indices@,
            remove_ids: self.remove_ids.deep_view(),
            description_updates: self.description_updates.deep_view(),
        }
    }
}

/// The plan with nothing to do.
pub open spec fn empty_plan() -> UpdatePlanView {
    UpdatePlanView {
        metadata: None,
        add_indices: seq![],
        remove_ids: seq![],
        description_updates: seq![],
    }
}

/// The metadata update so far, or one with nothing set.
pub open spec fn meta_or_empty(m: Option<PostMetadataUpdateView>) -> PostMetadataUpdateView {
    match m {
        Some(x) => x,
        None => PostMetadataUpdateView { title: None, privacy: None, nsfw: None },
    }
}

/// How one operation extends the plan. Retains contribute nothing here
/// (identifier copying is a separate step); a description edit or a
/// removal needs the old file's remote id, an addition needs the new
/// file's local path.
pub open spec fn spec_plan_step(
    acc: UpdatePlanView,
    d: PostDiffView,
    old: PostView,
    new: PostView,
) -> Result<UpdatePlanView, SyncError> {
    match d {
        PostDiffView::EditTitle { title } => Ok(
            UpdatePlanView {
                metadata: Some(
                    PostMetadataUpdateView { title: Some(title), ..meta_or_empty(acc.metadata) },
                ),
                ..acc
            },
        ),
        PostDiffView::EditPrivacy { privacy } => Ok(
            UpdatePlanView {
                metadata: Some(
                    PostMetadataUpdateView {
                        privacy: Some(privacy),
                        ..meta_or_empty(acc.metadata)
                    },
                ),
                ..acc
            },
        ),
        PostDiffView::EditNsfw { nsfw } => Ok(
            UpdatePlanView {
                metadata: Some(
                    PostMetadataUpdateView { nsfw: Some(nsfw), ..meta_or_empty(acc.metadata) },
                ),
                ..acc
            },
        ),
        PostDiffView::RetainFile { .. } => Ok(acc),
        PostDiffView::EditFileDescription { index, description } => match old.files[index].id {
            Some(id) => Ok(
                UpdatePlanView {
                    description_updates: acc.description_updates.push(
                        FileUpdateView { id, description },
                    ),
                    ..acc
                },
            ),
            None => Err(SyncError::MissingFileId),
        },
        PostDiffView::AddFile { index } => if new.files[index].path is Some {
            Ok(UpdatePlanView { add_indices: acc.add_indices.push(index as usize), ..acc })
        } else {
            Err(SyncError::MissingFilePath)
        },
        PostDiffView::RemoveFile { index } => match old.files[index].id {
            Some(id) => Ok(UpdatePlanView { remove_ids: acc.remove_ids.push(id), ..acc }),
            None => Err(SyncError::MissingFileId),
        },
    }
}

/// The plan an operation list folds to, or the first error met while
/// walking it in order.
pub open spec fn spec_update_plan(ds: Seq<PostDiffView>, old: PostView, new: PostView) -> Result<
    UpdatePlanView,
    SyncError,
>
    decreases ds.len(),
{
    if ds.len() == 0 {
        Ok(empty_plan())
    } else {
        match spec_update_plan(ds.drop_last(), old, new) {
            Ok(acc) => spec_plan_step(acc, ds.last(), old, new),
            Err(e) => Err(e),
        }
    }
}

/// Once the fold has failed on a prefix, the whole list fails the same way.
proof fn lemma_spec_update_plan_err_persists(
    ds: Seq<PostDiffView>,
    old: PostView,
    new: PostView,
    j: int,
)
    requires
        0 <= j <= ds.len(),
        spec_update_plan(ds.take(j), old, new) is Err,
    ensures
        spec_update_plan(ds, old, new) == spec_update_plan(ds.take(j), old, new),
    decreases ds.len() - j,
{
    if j == ds.len() {
        assert(ds.take(j) =~= ds);
    } else {
        assert(ds.drop_last().take(j) =~= ds.take(j));
        lemma_spec_update_plan_err_persists(ds.drop_last(), old, new, j);
    }
}

/// `plan_update` folds the operation list into the calls an update run
/// must make, exactly as [`spec_update_plan`] does: it returns its plan,
/// or its first error.
pub fn plan_update(diffs: &Vec<PostDiff>, old: &Post, new: &Post) -> (r: Result<
    UpdatePlan,
    SyncError,
>)
    requires
        diffs_in_bounds(diffs.deep_view(), old.files@.len() as int, new.files@.len() as int),
    ensures
        spec_update_plan(diffs.deep_view(), old.deep_view(), new.deep_view()) == (match r {
            Ok(p) => Ok::<UpdatePlanView, SyncError>(p.deep_view()),
            Err(e) => Err::<UpdatePlanView, SyncError>(e),
        }),
{
    let ghost ds = diffs.deep_view();
    let ghost ov = old.deep_view();
    let ghost nv = new.deep_view();

    let mut metadata: Option<PostMetadataUpdate> = None;
    let mut add_indices: Vec<usize> = Vec::new();
    let mut remove_ids: Vec<String> = Vec::new();
    let mut description_updates: Vec<FileUpdate> = Vec::new();

    let mut idx: usize = 0;
    proof {
        assert(ds.take(0) =~= Seq::<PostDiffView>::empty());
        assert(UpdatePlanView {
            metadata: metadata.deep_view(),
            add_indices: add_indices@,
            remove_ids: remove_ids.deep_view(),
            description_updates: description_updates.deep_view(),
        } =~~= empty_plan());
    }
    while idx < diffs.len()
        invariant
            ds == diffs.deep_view(),
            ov == old.deep_view(),
            nv == new.deep_view(),
            diffs_in_bounds(ds, old.files@.len() as int, new.files@.len() as int),
            old.files@.len() == ov.files.len(),
            new.files@.len() == nv.files.len(),
            idx <= ds.len(),
            spec_update_plan(ds.take(idx as int), ov, nv) == Ok::<UpdatePlanView, SyncError>(
                UpdatePlanView {
                    metadata: metadata.deep_view(),
                    add_indices: add_indices@,
                    remove_ids: remove_ids.deep_view(),
                    description_updates: description_updates.deep_view(),
                },
            ),
        decreases diffs@.len() - idx,
    {
        let ghost acc = UpdatePlanView {
            metadata: metadata.deep_view(),
            add_indices: add_indices@,
            remove_ids: remove_ids.deep_view(),
            description_updates: description_updates.deep_view(),
        };
        proof {
            assert(ds.take(idx + 1).drop_last() =~= ds.take(idx as int));
            assert(ds.take(idx + 1).last() == ds[idx as int]);
        }
        let d = &diffs[idx];
        match d {
            PostDiff::EditTitle { title } => {
                metadata = Some(
                    match metadata {
                        Some(m) => PostMetadataUpdate { title: Some(title.clone()), ..m },
                        None => PostMetadataUpdate {
                            title: Some(title.clone()),
                            privacy: None,
                            nsfw: None,
                        },
                    },
                );
            },
            PostDiff::EditPrivacy { privacy } => {
                metadata = Some(
                    match metadata {
                        Some(m) => PostMetadataUpdate { privacy: Some(*privacy), ..m },
                        None => PostMetadataUpdate {
                            title: None,
                            privacy: Some(*privacy),
                            nsfw: None,
                        },
                    },
                );
            },
            PostDiff::EditNsfw { nsfw } => {
                metadata = Some(
                    match metadata {
                        Some(m) => PostMetadataUpdate { nsfw: Some(*nsfw), ..m },
                        None => PostMetadataUpdate {
                            title: None,
                            privacy: None,
                            nsfw: Some(*nsfw),
                        },
                    },
                );
            },
            PostDiff::RetainFile { .. } => {},
            PostDiff::EditFileDescription { index, description } => {
                match &old.files[*index].id {
                    Some(id) => {
                        description_updates.push(
                            FileUpdate { id: id.clone(), description: description.clone() },
                        );
                        assert(description_updates.deep_view() =~= acc.description_updates.push(
                            FileUpdateView {
                                id: ov.files[*index as int].id.unwrap(),
                                description: ds[idx as int]->EditFileDescription_description,
                            },
                        ));
                    },
                    None => {
                        proof {
                            lemma_spec_update_plan_err_persists(ds, ov, nv, idx + 1);
                        }
                        return Err(SyncError::MissingFileId);
                    },
                }
            },
            PostDiff::AddFile { index } => {
                if new.files[*index].path.is_some() {
                    add_indices.push(*index);
                    assert(add_indices@ =~= acc.add_indices.push(*index));
                } else {
                    proof {
                        lemma_spec_update_plan_err_persists(ds, ov, nv, idx + 1);
                    }
                    return Err(SyncError::MissingFilePath);
                }
            },
            PostDiff::RemoveFile { index } => {
                match &old.files[*index].id {
                    Some(id) => {
                        remove_ids.push(id.clone());
                        assert(remove_ids.deep_view() =~= acc.remove_ids.push(
                            ov.files[*index as int].id.unwrap(),
                        ));
                    },
                    None => {
                        proof {
                            lemma_spec_update_plan_err_persists(ds, ov, nv, idx + 1);
                        }
                        return Err(SyncError::MissingFileId);
                    },
                }
            },
        }
        idx = idx + 1;
    }
    proof {
        assert(ds.take(ds.len() as int) =~= ds);
    }
    Ok(UpdatePlan { metadata, add_indices, remove_ids, description_updates })
}

/// A diff with only `RetainFile` operations means "no changes": the
/// executor then makes no remote call at all.
pub fn post_diffs_empty(diffs: &Vec<PostDiff>) -> (r: bool)
    ensures
        r <==> (forall|k: int|
            0 <= k < diffs.deep_view().len() ==> (#[trigger] diffs.deep_view()[k]) is RetainFile),
{
    let mut k: usize = 0;
    while k < diffs.len()
        invariant
            k <= diffs@.len(),
            forall|j: int|
                0 <= j < k ==> (#[trigger] diffs.deep_view()[j]) is RetainFile,
        decreases diffs@.len() - k,
    {
        match &diffs[k] {
            PostDiff::RetainFile { .. } => {},
            _ => {
                assert(!((diffs.deep_view())[k as int] is RetainFile));
                return false;
            },
        }
        k = k + 1;
    }
    true
}


/// Whether some operation of the list retains index `i`.
pub open spec fn diff_retains_index(ds: Seq<PostDiffView>, i: int) -> bool {
    exists|k: int| 0 <= k < ds.len() && ds[k] == (PostDiffView::RetainFile { index: i })
}

/// Whether every retained index has a remote id on the old side.
pub open spec fn retains_have_ids(ds: Seq<PostDiffView>, old: PostView) -> bool {
    forall|k: int|
        0 <= k < ds.len() ==> match #[trigger] ds[k] {
            PostDiffView::RetainFile { index } => old.files[index].id is Some,
            _ => true,
        }
}

/// Whether index `i` of the old post's files is retained by the list.
fn is_index_retained(diffs: &Vec<PostDiff>, i: usize) -> (r: bool)
    ensures
        r <==> diff_retains_index(diffs.deep_view(), i as int),
{
    let mut k: usize = 0;
    while k < diffs.len()
        invariant
            k <= diffs@.len(),
            forall|j: int|
                0 <= j < k ==> (#[trigger] diffs.deep_view()[j]) != (PostDiffView::RetainFile {
                    index: i as int,
                }),
        decreases diffs@.len() - k,
    {
        match &diffs[k] {
            PostDiff::RetainFile { index } => {
                if *index == i {
                    assert(diffs.deep_view()[k as int] == (PostDiffView::RetainFile {
                        index: i as int,
                    }));
                    return true;
                }
            },
            _ => {},
        }
        k = k + 1;
    }
    false
}

/// Copy the remote id of every retained file from the old snapshot into
/// the new one, so that the new snapshot can be persisted as the cache.
/// Fails, changing nothing, when a retained old file has no remote id.
pub fn apply_retain_ids(new: &mut Post, old_post: &Post, diffs: &Vec<PostDiff>) -> (r: Result<
    (),
    SyncError,
>)
    requires
        diffs_in_bounds(
            diffs.deep_view(),
            old_post.files@.len() as int,
            old(new).files@.len() as int,
        ),
    ensures
        r is Ok <==> retains_have_ids(diffs.deep_view(), old_post.deep_view()),
        r is Err ==> *final(new) == *old(new) && r == Err::<(), SyncError>(
            SyncError::MissingFileId,
        ),
        r is Ok ==> {
            &&& final(new).title == old(new).title
            &&& final(new).privacy == old(new).privacy
            &&& final(new).nsfw == old(new).nsfw
            &&& final(new).files@.len() == old(new).files@.len()
            &&& forall|i: int|
                0 <= i < old(new).files@.len() ==> final(new).deep_view().files[i] == (
                if diff_retains_index(diffs.deep_view(), i) {
                    PostFileView {
                        id: old_post.deep_view().files[i].id,
                        ..old(new).deep_view().files[i]
                    }
                } else {
                    old(new).deep_view().files[i]
                })
        },
{
    let ghost ds = diffs.deep_view();
    let ghost ov = old_post.deep_view();
    let ghost files_start = old(new).deep_view().files;

    // First make sure every retained old_post file has a remote id, so that
    // on failure the new snapshot is left untouched.
    let mut k: usize = 0;
    while k < diffs.len()
        invariant
            ds == diffs.deep_view(),
            ov == old_post.deep_view(),
            old_post.files@.len() == ov.files.len(),
            diffs_in_bounds(ds, old_post.files@.len() as int, old(new).files@.len() as int),
            k <= ds.len(),
            forall|j: int|
                0 <= j < k ==> match #[trigger] ds[j] {
                    PostDiffView::RetainFile { index } => ov.files[index].id is Some,
                    _ => true,
                },
        decreases ds.len() - k,
    {
        proof {
            assert(crate::diff::diff_in_bounds(
                ds[k as int],
                old_post.files@.len() as int,
                old(new).files@.len() as int,
            ));
        }
        match &diffs[k] {
            PostDiff::RetainFile { index } => {
                if old_post.files[*index].id.is_none() {
                    proof {
                        assert(!(ov.files[*index as int].id is Some));
                        assert(!retains_have_ids(ds, ov));
                    }
                    return Err(SyncError::MissingFileId);
                }
            },
            _ => {},
        }
        k = k + 1;
    }
    assert(retains_have_ids(ds, ov));

    let new_len = new.files.len();
    let mut i: usize = 0;
    while i < new_len
        invariant
            ds == diffs.deep_view(),
            ov == old_post.deep_view(),
            old_post.files@.len() == ov.files.len(),
            retains_have_ids(ds, ov),
            diffs_in_bounds(ds, old_post.files@.len() as int, files_start.len() as int),
            files_start == old(new).deep_view().files,
            new_len == old(new).files@.len(),
            new.title == old(new).title,
            new.privacy == old(new).privacy,
            new.nsfw == old(new).nsfw,
            new.files@.len() == new_len,
            i <= new_len,
            forall|j: int|
                i <= j < new_len ==> new.deep_view().files[j] == files_start[j],
            forall|j: int|
                0 <= j < i ==> new.deep_view().files[j] == (if diff_retains_index(ds, j) {
                    PostFileView { id: ov.files[j].id, ..files_start[j] }
                } else {
                    files_start[j]
                }),
        decreases new_len - i,
    {
        if is_index_retained(diffs, i) {
            proof {
                let kw = choose|k2: int|
                    0 <= k2 < ds.len() && ds[k2] == (PostDiffView::RetainFile { index: i as int });
                assert(crate::diff::diff_in_bounds(
                    ds[kw],
                    old_post.files@.len() as int,
                    files_start.len() as int,
                ));
                assert(ov.files[i as int].id is Some);
            }
            let ghost before = new.deep_view().files;
            match &old_post.files[i].id {
                Some(id) => {
                    new.files[i].id = Some(id.clone());
                    assert(new.deep_view().files =~= before.update(
                        i as int,
                        PostFileView { id: ov.files[i as int].id, ..files_start[i as int] },
                    ));
                },
                None => {
                    assert(false);
                },
            }
        }
        i = i + 1;
    }
    Ok(())
}

/// Copy every remote id from the old_post snapshot into the new one, used on
/// the "no changes" path so the persisted cache still carries the ids.
/// Ids are copied for the indices both lists share. Fails, changing
/// nothing, when such an old_post file has no remote id.
pub fn copy_file_ids(new: &mut Post, old_post: &Post) -> (r: Result<(), SyncError>)
    ensures
        ({
            let m = if old(new).files@.len() <= old_post.files@.len() {
                old(new).files@.len() as int
            } else {
                old_post.files@.len() as int
            };
            &&& (r is Ok <==> forall|i: int|
                0 <= i < m ==> (#[trigger] old_post.deep_view().files[i]).id is Some)
            &&& (r is Err ==> *final(new) == *old(new) && r == Err::<(), SyncError>(
                SyncError::MissingFileId,
            ))
            &&& (r is Ok ==> {
                &&& final(new).title == old(new).title
                &&& final(new).privacy == old(new).privacy
                &&& final(new).nsfw == old(new).nsfw
                &&& final(new).files@.len() == old(new).files@.len()
                &&& forall|i: int|
                    0 <= i < m ==> final(new).deep_view().files[i] == (PostFileView {
                        id: old_post.deep_view().files[i].id,
                        ..old(new).deep_view().files[i]
                    })
                &&& forall|i: int|
                    m <= i < old(new).files@.len() ==> final(new).deep_view().files[i] == old(
                        new,
                    ).deep_view().files[i]
            })
        }),
{
    let ghost ov = old_post.deep_view();
    let ghost files_start = old(new).deep_view().files;
    let m = if new.files.len() <= old_post.files.len() {
        new.files.len()
    } else {
        old_post.files.len()
    };

    let mut k: usize = 0;
    while k < m
        invariant
            ov == old_post.deep_view(),
            old_post.files@.len() == ov.files.len(),
            m <= old_post.files@.len(),
            *new == *old(new),
            m as int == (if old(new).files@.len() <= old_post.files@.len() {
                old(new).files@.len() as int
            } else {
                old_post.files@.len() as int
            }),
            k <= m,
            forall|i: int| 0 <= i < k ==> (#[trigger] ov.files[i]).id is Some,
        decreases m - k,
    {
        if old_post.files[k].id.is_none() {
            proof {
                assert(!(old_post.deep_view().files[k as int].id is Some));
            }
            return Err(SyncError::MissingFileId);
        }
        k = k + 1;
    }

    let mut i: usize = 0;
    while i < m
        invariant
            ov == old_post.deep_view(),
            old_post.files@.len() == ov.files.len(),
            files_start == old(new).deep_view().files,
            m <= old_post.files@.len(),
            m <= old(new).files@.len(),
            forall|j: int| 0 <= j < m ==> (#[trigger] ov.files[j]).id is Some,
            new.title == old(new).title,
            new.privacy == old(new).privacy,
            new.nsfw == old(new).nsfw,
            new.files@.len() == old(new).files@.len(),
            i <= m,
            forall|j: int| i <= j < files_start.len() ==> new.deep_view().files[j] == files_start[j],
            forall|j: int|
                0 <= j < i ==> new.deep_view().files[j] == (PostFileView {
                    id: ov.files[j].id,
                    ..files_start[j]
                }),
        decreases m - i,
    {
        let ghost before = new.deep_view().files;
        match &old_post.files[i].id {
            Some(id) => {
                new.files[i].id = Some(id.clone());
                assert(new.deep_view().files =~= before.update(
                    i as int,
                    PostFileView { id: ov.files[i as int].id, ..files_start[i as int] },
                ));
            },
            None => {
                assert(false);
            },
        }
        i = i + 1;
    }
    Ok(())
}


/// How many batches of at most `batch_size` the count splits into.
pub open spec fn spec_batch_count(count: int, batch_size: int) -> int
    decreases (if count <= 0 { 0int } else { count }) when batch_size >= 1
{
    if count <= 0 {
        0
    } else {
        1 + spec_batch_count(count - batch_size, batch_size)
    }
}

/// Split `count` items into upload batches: contiguous index ranges
/// starting at zero, each of at most `batch_size` items, every one but
/// the last exactly full, together covering `0..count` in order.
pub fn add_batch_ranges(count: usize, batch_size: usize) -> (r: Vec<(usize, usize)>)
    requires
        batch_size >= 1,
    ensures
        r@.len() == spec_batch_count(count as int, batch_size as int),
        r@.len() == 0 <==> count == 0,
        r@.len() > 0 ==> r@[0].0 == 0 && r@[r@.len() - 1].1 == count,
        forall|k: int| 0 <= k < r@.len() ==> (#[trigger] r@[k]).0 < r@[k].1 <= count,
        forall|k: int| 0 <= k < r@.len() ==> (#[trigger] r@[k]).1 - r@[k].0 <= batch_size,
        forall|k: int| 0 < k < r@.len() ==> (#[trigger] r@[k]).0 == r@[k - 1].1,
        forall|k: int| 0 <= k < r@.len() - 1 ==> (#[trigger] r@[k]).1 - r@[k].0 == batch_size,
{
    let mut r: Vec<(usize, usize)> = Vec::new();
    let mut start: usize = 0;
    while start < count
        invariant
            batch_size >= 1,
            start <= count,
            r@.len() + spec_batch_count(count - start, batch_size as int) == spec_batch_count(
                count as int,
                batch_size as int,
            ),
            r@.len() == 0 ==> start == 0,
            r@.len() > 0 ==> r@[0].0 == 0 && r@[r@.len() - 1].1 == start,
            forall|k: int| 0 <= k < r@.len() ==> (#[trigger] r@[k]).0 < r@[k].1 <= start,
            forall|k: int| 0 <= k < r@.len() ==> (#[trigger] r@[k]).1 - r@[k].0 <= batch_size,
            forall|k: int| 0 < k < r@.len() ==> (#[trigger] r@[k]).0 == r@[k - 1].1,
            forall|k: int|
                0 <= k < r@.len() - 1 ==> (#[trigger] r@[k]).1 - r@[k].0 == batch_size,
            r@.len() > 0 && start < count ==> r@[r@.len() - 1].1 - r@[r@.len() - 1].0
                == batch_size,
        decreases count - start,
    {
        let end = if count - start <= batch_size {
            count
        } else {
            start + batch_size
        };
        proof {
            if count - start <= batch_size {
                assert(spec_batch_count(count - start - batch_size, batch_size as int) == 0);
            }
            assert(spec_batch_count(count - start, batch_size as int) == 1 + spec_batch_count(
                count - end,
                batch_size as int,
            ));
        }
        r.push((start, end));
        start = end;
    }
    r
}

/// Whether some entry of `adds` is the index `j`.
pub open spec fn spec_index_added(adds: Seq<usize>, j: int) -> bool {
    exists|k: int| 0 <= k < adds.len() && adds[k] == j
}

/// The description replacements owed for newly uploaded files: uploads
/// start with no description, so every added file whose local
/// description is non-empty needs one, with the remote id the upload
/// response assigned it.
pub open spec fn spec_added_desc_updates(
    files: Seq<PostFileView>,
    adds: Seq<usize>,
    ids: Seq<Seq<char>>,
    old_count: int,
) -> Seq<FileUpdateView>
    decreases adds.len(),
{
    if adds.len() == 0 {
        seq![]
    } else {
        let prev = spec_added_desc_updates(files, adds.drop_last(), ids, old_count);
        let k = adds.len() - 1;
        let f = files[adds[k] as int];
        if f.description.len() > 0 {
            prev.push(FileUpdateView { id: ids[old_count + k], description: f.description })
        } else {
            prev
        }
    }
}

/// After the upload calls, the remote service's response lists the old
/// files followed by the uploaded ones in upload order. Record each
/// uploaded file's new remote id into the new snapshot, positionally,
/// and collect the description replacements still owed for them.
/// Fails, changing nothing, when the response's file count is not the
/// old count plus the number of uploads.
pub fn record_uploaded_file_ids(
    new: &mut Post,
    old_file_count: usize,
    add_indices: &Vec<usize>,
    uploaded_ids: &Vec<String>,
) -> (r: Result<Vec<FileUpdate>, SyncError>)
    requires
        forall|k: int|
            0 <= k < add_indices@.len() ==> (#[trigger] add_indices@[k]) < old(
                new,
            ).files@.len(),
        forall|k1: int, k2: int|
            0 <= k1 < k2 < add_indices@.len() ==> add_indices@[k1] < add_indices@[k2],
    ensures
        r is Ok <==> uploaded_ids@.len() == old_file_count + add_indices@.len(),
        r is Err ==> *final(new) == *old(new) && r == Err::<Vec<FileUpdate>, SyncError>(
            SyncError::FileCountMismatch,
        ),
        r matches Ok(updates) ==> {
            &&& final(new).title == old(new).title
            &&& final(new).privacy == old(new).privacy
            &&& final(new).nsfw == old(new).nsfw
            &&& final(new).files@.len() == old(new).files@.len()
            &&& forall|k: int|
                0 <= k < add_indices@.len() ==> final(new).deep_view().files[add_indices@[k] as int]
                    == (PostFileView {
                    id: Some(uploaded_ids@[old_file_count + k]@),
                    ..old(new).deep_view().files[add_indices@[k] as int]
                })
            &&& forall|j: int|
                0 <= j < old(new).files@.len() && !spec_index_added(add_indices@, j)
                    ==> final(new).deep_view().files[j] == old(new).deep_view().files[j]
            &&& updates.deep_view() == spec_added_desc_updates(
                old(new).deep_view().files,
                add_indices@,
                uploaded_ids.deep_view(),
                old_file_count as int,
            )
        },
{
    let ghost adds = add_indices@;
    let ghost ids = uploaded_ids.deep_view();
    let ghost files_start = old(new).deep_view().files;

    if uploaded_ids.len() < old_file_count || uploaded_ids.len() - old_file_count
        != add_indices.len() {
        return Err(SyncError::FileCountMismatch);
    }

    let mut updates: Vec<FileUpdate> = Vec::new();
    let mut k: usize = 0;
    proof {
        assert(adds.take(0) =~= Seq::<usize>::empty());
        assert(updates.deep_view() =~= spec_added_desc_updates(
            files_start,
            adds.take(0),
            ids,
            old_file_count as int,
        ));
    }
    while k < add_indices.len()
        invariant
            adds == add_indices@,
            ids == uploaded_ids.deep_view(),
            files_start == old(new).deep_view().files,
            uploaded_ids@.len() == old_file_count + adds.len(),
            uploaded_ids@.len() <= usize::MAX,
            forall|k2: int| 0 <= k2 < adds.len() ==> (#[trigger] adds[k2]) < files_start.len(),
            forall|k1: int, k2: int| 0 <= k1 < k2 < adds.len() ==> adds[k1] < adds[k2],
            new.title == old(new).title,
            new.privacy == old(new).privacy,
            new.nsfw == old(new).nsfw,
            new.files@.len() == files_start.len(),
            k <= adds.len(),
            forall|k2: int|
                0 <= k2 < k ==> new.deep_view().files[adds[k2] as int] == (PostFileView {
                    id: Some(ids[old_file_count + k2]),
                    ..files_start[adds[k2] as int]
                }),
            forall|j: int|
                0 <= j < files_start.len() && !spec_index_added(adds.take(k as int), j)
                    ==> new.deep_view().files[j] == files_start[j],
            updates.deep_view() == spec_added_desc_updates(
                files_start,
                adds.take(k as int),
                ids,
                old_file_count as int,
            ),
        decreases adds.len() - k,
    {
        let idx = add_indices[k];
        let pos = old_file_count + k;
        let ghost before = new.deep_view().files;
        proof {
            assert(!spec_index_added(adds.take(k as int), idx as int)) by {
                if spec_index_added(adds.take(k as int), idx as int) {
                    let w = choose|w: int|
                        0 <= w < k && adds.take(k as int)[w] == idx as int;
                    assert(adds[w] < adds[k as int]);
                }
            }
            assert(before[idx as int] == files_start[idx as int]);
        }
        new.files[idx].id = Some(uploaded_ids[pos].clone());
        proof {
            assert(new.deep_view().files =~= before.update(
                idx as int,
                PostFileView { id: Some(ids[pos as int]), ..files_start[idx as int] },
            ));
            assert(adds.take(k + 1).drop_last() =~= adds.take(k as int));
        }
        if !new.files[idx].description.as_str().is_empty() {
            updates.push(
                FileUpdate {
                    id: uploaded_ids[pos].clone(),
                    description: new.files[idx].description.clone(),
                },
            );
            assert(updates.deep_view() =~= spec_added_desc_updates(
                files_start,
                adds.take(k as int),
                ids,
                old_file_count as int,
            ).push(
                FileUpdateView {
                    id: ids[pos as int],
                    description: files_start[idx as int].description,
                },
            ));
        }
        proof {
            assert(updates.deep_view() =~= spec_added_desc_updates(
                files_start,
                adds.take(k + 1),
                ids,
                old_file_count as int,
            ));
            assert forall|j: int|
                0 <= j < files_start.len() && !spec_index_added(adds.take(k + 1), j)
                    implies new.deep_view().files[j] == files_start[j] by {
                assert(!spec_index_added(adds.take(k as int), j)) by {
                    if spec_index_added(adds.take(k as int), j) {
                        let w = choose|w: int|
                            0 <= w < k && adds.take(k as int)[w] == j;
                        assert(adds.take(k + 1)[w] == j);
                    }
                }
                assert(j != idx as int) by {
                    if j == idx as int {
                        assert(adds.take(k + 1)[k as int] == j);
                    }
                }
            }
        }
        k = k + 1;
    }
    proof {
        assert(adds.take(adds.len() as int) =~= adds);
    }
    Ok(updates)
}

/// The local path of every file of the post, in order, for uploading.
/// Fails when some file has no local path.
pub fn local_upload_paths(post: &Post) -> (r: Result<Vec<String>, SyncError>)
    ensures
        r is Ok <==> (forall|i: int|
            0 <= i < post.files@.len() ==> (#[trigger] post.deep_view().files[i]).path is Some),
        r matches Ok(paths) ==> paths.deep_view() == Seq::new(
            post.files@.len(),
            |i: int| post.deep_view().files[i].path.unwrap(),
        ),
        r is Err ==> r == Err::<Vec<String>, SyncError>(SyncError::MissingFilePath),
{
    let mut paths: Vec<String> = Vec::new();
    let mut i: usize = 0;
    while i < post.files.len()
        invariant
            i <= post.files@.len(),
            paths@.len() == i,
            forall|j: int|
                0 <= j < i ==> #[trigger] paths.deep_view()[j] == post.deep_view().files[
                    j
                ].path.unwrap(),
            forall|j: int|
                0 <= j < i ==> (#[trigger] post.deep_view().files[j]).path is Some,
        decreases post.files@.len() - i,
    {
        let ghost prev = paths.deep_view();
        match &post.files[i].path {
            Some(p) => {
                paths.push(p.clone());
                assert(paths.deep_view()[i as int] == post.deep_view().files[
                    i as int
                ].path.unwrap());
                assert(forall|j: int|
                    0 <= j < i ==> #[trigger] paths.deep_view()[j] == prev[j]);
            },
            None => {
                assert(!(post.deep_view().files[i as int].path is Some));
                return Err(SyncError::MissingFilePath);
            },
        }
        i = i + 1;
    }
    assert(paths.deep_view() =~= Seq::new(
        post.files@.len(),
        |j: int| post.deep_view().files[j].path.unwrap(),
    ));
    Ok(paths)
}

/// After a post is created, the remote response lists one file per
/// uploaded file, in order. Record each assigned remote id into the
/// snapshot, positionally. Fails, changing nothing, when the counts
/// differ.
pub fn assign_created_ids(new: &mut Post, ids: &Vec<String>) -> (r: Result<(), SyncError>)
    ensures
        r is Ok <==> ids@.len() == old(new).files@.len(),
        r is Err ==> *final(new) == *old(new) && r == Err::<(), SyncError>(
            SyncError::FileCountMismatch,
        ),
        r is Ok ==> {
            &&& final(new).title == old(new).title
            &&& final(new).privacy == old(new).privacy
            &&& final(new).nsfw == old(new).nsfw
            &&& final(new).files@.len() == old(new).files@.len()
            &&& forall|i: int|
                0 <= i < old(new).files@.len() ==> final(new).deep_view().files[i]
                    == (PostFileView {
                    id: Some(ids.deep_view()[i]),
                    ..old(new).deep_view().files[i]
                })
        },
{
    let ghost files_start = old(new).deep_view().files;
    if ids.len() != new.files.len() {
        return Err(SyncError::FileCountMismatch);
    }
    let mut i: usize = 0;
    while i < new.files.len()
        invariant
            files_start == old(new).deep_view().files,
            ids@.len() == files_start.len(),
            new.title == old(new).title,
            new.privacy == old(new).privacy,
            new.nsfw == old(new).nsfw,
            new.files@.len() == files_start.len(),
            i <= files_start.len(),
            forall|j: int|
                i <= j < files_start.len() ==> new.deep_view().files[j] == files_start[j],
            forall|j: int|
                0 <= j < i ==> new.deep_view().files[j] == (PostFileView {
                    id: Some(ids.deep_view()[j]),
                    ..files_start[j]
                }),
        decreases files_start.len() - i,
    {
        let ghost before = new.deep_view().files;
        new.files[i].id = Some(ids[i].clone());
        proof {
            assert(new.deep_view().files =~= before.update(
                i as int,
                PostFileView { id: Some(ids.deep_view()[i as int]), ..files_start[i as int] },
            ));
        }
        i = i + 1;
    }
    Ok(())
}

/// The description replacements owed for a freshly created post: one per
/// file with a non-empty description, carrying that file's remote id, in
/// file order; or the first file met that needs one but has no id.
pub open spec fn spec_post_desc_updates(files: Seq<PostFileView>) -> Result<
    Seq<FileUpdateView>,
    SyncError,
>
    decreases files.len(),
{
    if files.len() == 0 {
        Ok(seq![])
    } else {
        match spec_post_desc_updates(files.drop_last()) {
            Ok(prev) => {
                let f = files.last();
                if f.description.len() > 0 {
                    match f.id {
                        Some(id) => Ok(prev.push(FileUpdateView { id, description: f.description })),
                        None => Err(SyncError::MissingFileId),
                    }
                } else {
                    Ok(prev)
                }
            },
            Err(e) => Err(e),
        }
    }
}

/// Once an error, extending the file list keeps the same error.
proof fn lemma_spec_post_desc_updates_err_persists(files: Seq<PostFileView>, j: int)
    requires
        0 <= j <= files.len(),
        spec_post_desc_updates(files.take(j)) is Err,
    ensures
        spec_post_desc_updates(files) == spec_post_desc_updates(files.take(j)),
    decreases files.len() - j,
{
    if j == files.len() {
        assert(files.take(j) =~= files);
    } else {
        assert(files.drop_last().take(j) =~= files.take(j));
        lemma_spec_post_desc_updates_err_persists(files.drop_last(), j);
    }
}

/// Collect the description replacements a post still owes, exactly as
/// [`spec_post_desc_updates`] lists them.
pub fn description_updates_for_post(post: &Post) -> (r: Result<Vec<FileUpdate>, SyncError>)
    ensures
        spec_post_desc_updates(post.deep_view().files) == (match r {
            Ok(u) => Ok::<Seq<FileUpdateView>, SyncError>(u.deep_view()),
            Err(e) => Err::<Seq<FileUpdateView>, SyncError>(e),
        }),
{
    let ghost files = post.deep_view().files;
    let mut updates: Vec<FileUpdate> = Vec::new();
    let mut i: usize = 0;
    proof {
        assert(files.take(0) =~= Seq::<PostFileView>::empty());
        assert(updates.deep_view() =~= Seq::<FileUpdateView>::empty());
    }
    while i < post.files.len()
        invariant
            files == post.deep_view().files,
            post.files@.len() == files.len(),
            i <= files.len(),
            spec_post_desc_updates(files.take(i as int)) == Ok::<Seq<FileUpdateView>, SyncError>(
                updates.deep_view(),
            ),
        decreases files.len() - i,
    {
        proof {
            assert(files.take(i + 1).drop_last() =~= files.take(i as int));
            assert(files.take(i + 1).last() == files[i as int]);
        }
        let f = &post.files[i];
        if !f.description.as_str().is_empty() {
            match &f.id {
                Some(id) => {
                    let ghost prev = updates.deep_view();
                    updates.push(
                        FileUpdate { id: id.clone(), description: f.description.clone() },
                    );
                    assert(updates.deep_view() =~= prev.push(
                        FileUpdateView {
                            id: files[i as int].id.unwrap(),
                            description: files[i as int].description,
                        },
                    ));
                },
                None => {
                    proof {
                        lemma_spec_post_desc_updates_err_persists(files, i + 1);
                    }
                    return Err(SyncError::MissingFileId);
                },
            }
        }
        i = i + 1;
    }
    proof {
        assert(files.take(files.len() as int) =~= files);
    }
    Ok(updates)
}

/// The upload batches for creating a post from scratch: the batches of
/// [`add_batch_ranges`] over all its files. The first batch rides along
/// with the creation call itself; the rest go through the add-images
/// call. Fails when the post has no files, which the remote format does
/// not allow.
pub fn create_batches(post: &Post, batch_size: usize) -> (r: Result<Vec<(usize, usize)>, SyncError>)
    requires
        batch_size >= 1,
    ensures
        r is Ok <==> post.files@.len() > 0,
        r is Err ==> r == Err::<Vec<(usize, usize)>, SyncError>(SyncError::PostHasNoFiles),
        r matches Ok(b) ==> {
            let count = post.files@.len();
            &&& b@.len() == spec_batch_count(count as int, batch_size as int)
            &&& b@.len() > 0 && b@[0].0 == 0 && b@[b@.len() - 1].1 == count
            &&& forall|k: int| 0 <= k < b@.len() ==> (#[trigger] b@[k]).0 < b@[k].1 <= count
            &&& forall|k: int|
                0 <= k < b@.len() ==> (#[trigger] b@[k]).1 - b@[k].0 <= batch_size
            &&& forall|k: int| 0 < k < b@.len() ==> (#[trigger] b@[k]).0 == b@[k - 1].1
            &&& forall|k: int|
                0 <= k < b@.len() - 1 ==> (#[trigger] b@[k]).1 - b@[k].0 == batch_size
        },
{
    if post.files.len() == 0 {
        return Err(SyncError::PostHasNoFiles);
    }
    Ok(add_batch_ranges(post.files.len(), batch_size))
}

} // verus!
