//! The diff engine: computes the ordered operation list that transforms an
//! old post snapshot into a new one, under the remote service's limits
//! (no reordering, no clearing of a description, no interior inserts).

use vstd::prelude::*;

use crate::post::{Post, PostDiff, PostDiffView, PostFileView, PostView};

verus! {

/// Why a diff could not be computed.
#[derive(Debug, Clone, Copy, PartialEq, Eq, Structural)]
pub enum DiffError {
    /// The old post has an empty file list.
    OldPostHasNoFiles,
    /// The new post has an empty file list.
    NewPostHasNoFiles,
}

/// Whether the files at index `i` can stay matched during the prefix scan:
/// the content identity is the same, and the description either agrees or
/// can be replaced in place (the remote service cannot clear a description,
/// so a change to the empty description breaks the match).
pub open spec fn file_match_at(old: Seq<PostFileView>, new: Seq<PostFileView>, i: int) -> bool {
    &&& old[i].sha256 == new[i].sha256
    &&& (old[i].description == new[i].description || new[i].description.len() > 0)
}

/// The index where the prefix scan stops, having started at `i`.
pub open spec fn prefix_len_from(old: Seq<PostFileView>, new: Seq<PostFileView>, i: int) -> int
    decreases old.len() - i,
{
    if i < 0 || i >= old.len() || i >= new.len() {
        i
    } else if file_match_at(old, new, i) {
        prefix_len_from(old, new, i + 1)
    } else {
        i
    }
}

/// The length of the matched prefix of the two file lists.
pub open spec fn prefix_len(old: Seq<PostFileView>, new: Seq<PostFileView>) -> int {
    prefix_len_from(old, new, 0)
}

/// The metadata edits: one per field on which the posts differ, in the
/// fixed order title, privacy, maturity flag.
pub open spec fn meta_ops(old: PostView, new: PostView) -> Seq<PostDiffView> {
    (if old.title != new.title {
        seq![PostDiffView::EditTitle { title: new.title }]
    } else {
        seq![]
    }) + (if old.privacy != new.privacy {
        seq![PostDiffView::EditPrivacy { privacy: new.privacy }]
    } else {
        seq![]
    }) + (if old.nsfw != new.nsfw {
        seq![PostDiffView::EditNsfw { nsfw: new.nsfw }]
    } else {
        seq![]
    })
}

/// The operations emitted for matched index `i`: a retain, plus a
/// description replacement when the descriptions differ.
pub open spec fn retain_ops_at(old: Seq<PostFileView>, new: Seq<PostFileView>, i: int) -> Seq<
    PostDiffView,
> {
    if old[i].description == new[i].description {
        seq![PostDiffView::RetainFile { index: i }]
    } else {
        seq![
            PostDiffView::RetainFile { index: i },
            PostDiffView::EditFileDescription { index: i, description: new[i].description },
        ]
    }
}

/// The operations for the matched prefix `0..n`, in index order.
pub open spec fn prefix_ops(old: Seq<PostFileView>, new: Seq<PostFileView>, n: int) -> Seq<
    PostDiffView,
>
    decreases n,
{
    if n <= 0 {
        seq![]
    } else {
        prefix_ops(old, new, n - 1) + retain_ops_at(old, new, n - 1)
    }
}

/// `AddFile` operations for the new indices `from..to`, ascending.
pub open spec fn add_ops(from: int, to: int) -> Seq<PostDiffView> {
    Seq::new(
        if to >= from {
            (to - from) as nat
        } else {
            0
        },
        |k: int| PostDiffView::AddFile { index: from + k },
    )
}

/// `RemoveFile` operations for the old indices `from..to`, ascending.
pub open spec fn remove_ops(from: int, to: int) -> Seq<PostDiffView> {
    Seq::new(
        if to >= from {
            (to - from) as nat
        } else {
            0
        },
        |k: int| PostDiffView::RemoveFile { index: from + k },
    )
}

/// The full operation list of the diff: metadata edits, then the matched
/// prefix's retains and description edits, then adds, then removes.
pub open spec fn spec_post_diffs(old: PostView, new: PostView) -> Seq<PostDiffView> {
    let n = prefix_len(old.files, new.files);
    meta_ops(old, new) + prefix_ops(old.files, new.files, n) + add_ops(n, new.files.len() as int)
        + remove_ops(n, old.files.len() as int)
}

/// Whether every operation's index is legal for file lists of the given
/// lengths: retains address both lists, description edits and removes the
/// old list, adds the new list.
pub open spec fn diff_in_bounds(d: PostDiffView, old_len: int, new_len: int) -> bool {
    match d {
        PostDiffView::RetainFile { index } => 0 <= index < old_len && index < new_len,
        PostDiffView::EditFileDescription { index, .. } => 0 <= index < old_len,
        PostDiffView::AddFile { index } => 0 <= index < new_len,
        PostDiffView::RemoveFile { index } => 0 <= index < old_len,
        _ => true,
    }
}

/// Whether every operation of the list is legal for the given lengths.
pub open spec fn diffs_in_bounds(ds: Seq<PostDiffView>, old_len: int, new_len: int) -> bool {
    forall|i: int| 0 <= i < ds.len() ==> diff_in_bounds(#[trigger] ds[i], old_len, new_len)
}

/// A scan that matched everything before `k` stops where a scan from `k`
/// stops.
proof fn lemma_prefix_len_from(old: Seq<PostFileView>, new: Seq<PostFileView>, k: int)
    requires
        0 <= k <= old.len(),
        k <= new.len(),
        forall|j: int| 0 <= j < k ==> file_match_at(old, new, j),
    ensures
        prefix_len(old, new) == prefix_len_from(old, new, k),
    decreases k,
{
    if k > 0 {
        lemma_prefix_len_from(old, new, k - 1);
        assert(file_match_at(old, new, k - 1));
    }
}

/// `generate_post_diffs` reports an error exactly on an empty file list,
/// the old list first; otherwise it returns exactly the operation list of
/// [`spec_post_diffs`], every operation of which is in bounds.
pub fn generate_post_diffs(old: &Post, new: &Post) -> (r: Result<Vec<PostDiff>, DiffError>)
    ensures
        r is Err <==> old.files@.len() == 0 || new.files@.len() == 0,
        old.files@.len() == 0 ==> r == Result::<Vec<PostDiff>, DiffError>::Err(
            DiffError::OldPostHasNoFiles,
        ),
        old.files@.len() > 0 && new.files@.len() == 0 ==> r == Result::<
            Vec<PostDiff>,
            DiffError,
        >::Err(DiffError::NewPostHasNoFiles),
        r matches Ok(ds) ==> ds.deep_view() == spec_post_diffs(old.deep_view(), new.deep_view()),
        r matches Ok(ds) ==> diffs_in_bounds(
            ds.deep_view(),
            old.files@.len() as int,
            new.files@.len() as int,
        ),
{
    let ghost ov = old.deep_view();
    let ghost nv = new.deep_view();
    if old.files.len() == 0 {
        return Err(DiffError::OldPostHasNoFiles);
    }
    if new.files.len() == 0 {
        return Err(DiffError::NewPostHasNoFiles);
    }

    let mut diffs: Vec<PostDiff> = Vec::new();
    if old.title != new.title {
        diffs.push(PostDiff::EditTitle { title: new.title.clone() });
    }
    if old.privacy != new.privacy {
        diffs.push(PostDiff::EditPrivacy { privacy: new.privacy });
    }
    if old.nsfw != new.nsfw {
        diffs.push(PostDiff::EditNsfw { nsfw: new.nsfw });
    }
    assert(diffs.deep_view() =~= meta_ops(ov, nv));

    let old_len = old.files.len();
    let new_len = new.files.len();
    let mut i: usize = 0;
    let mut mismatch = false;
    while i < old_len && i < new_len && !mismatch
        invariant
            old_len == old.files@.len(),
            new_len == new.files@.len(),
            ov == old.deep_view(),
            nv == new.deep_view(),
            i <= old_len,
            i <= new_len,
            forall|j: int| 0 <= j < i ==> file_match_at(ov.files, nv.files, j),
            mismatch ==> i < old_len && i < new_len && !file_match_at(ov.files, nv.files, i as int),
            diffs.deep_view() == meta_ops(ov, nv) + prefix_ops(ov.files, nv.files, i as int),
        decreases old_len - i + (if mismatch { 0int } else { 1int }),
    {
        let old_file = &old.files[i];
        let new_file = &new.files[i];
        let descriptions_differ = old_file.description != new_file.description;
        if old_file.sha256 != new_file.sha256 || (descriptions_differ
            && new_file.description.as_str().is_empty()) {
            // Either the content no longer matches, or the description
            // can only be cleared by recreating the file: the matched
            // prefix ends here.
            mismatch = true;
        } else {
            let ghost prev = diffs.deep_view();
            diffs.push(PostDiff::RetainFile { index: i });
            if descriptions_differ {
                diffs.push(
                    PostDiff::EditFileDescription {
                        index: i,
                        description: new_file.description.clone(),
                    },
                );
                assert(diffs.deep_view() =~= prev + retain_ops_at(ov.files, nv.files, i as int));
            } else {
                assert(diffs.deep_view() =~= prev + retain_ops_at(ov.files, nv.files, i as int));
            }
            assert(prefix_ops(ov.files, nv.files, i + 1) == prefix_ops(ov.files, nv.files, i as int)
                + retain_ops_at(ov.files, nv.files, i as int));
            assert(diffs.deep_view() =~= meta_ops(ov, nv) + prefix_ops(
                ov.files,
                nv.files,
                i + 1,
            ));
            i = i + 1;
        }
    }

    proof {
        lemma_prefix_len_from(ov.files, nv.files, i as int);
        assert(prefix_len(ov.files, nv.files) == i as int);
    }

    let ghost base = diffs.deep_view();
    let mut k: usize = i;
    while k < new_len
        invariant
            new_len == new.files@.len(),
            nv == new.deep_view(),
            i <= k <= new_len,
            diffs.deep_view() == base + add_ops(i as int, k as int),
        decreases new_len - k,
    {
        let ghost prev = diffs.deep_view();
        diffs.push(PostDiff::AddFile { index: k });
        assert(diffs.deep_view() =~= prev.push(PostDiffView::AddFile { index: k as int }));
        assert(diffs.deep_view() =~= base + add_ops(i as int, k + 1));
        k = k + 1;
    }
    assert(diffs.deep_view() =~= base + add_ops(i as int, new_len as int));

    let ghost base2 = diffs.deep_view();
    let mut m: usize = i;
    while m < old_len
        invariant
            old_len == old.files@.len(),
            ov == old.deep_view(),
            i <= m <= old_len,
            diffs.deep_view() == base2 + remove_ops(i as int, m as int),
        decreases old_len - m,
    {
        let ghost prev = diffs.deep_view();
        diffs.push(PostDiff::RemoveFile { index: m });
        assert(diffs.deep_view() =~= prev.push(PostDiffView::RemoveFile { index: m as int }));
        assert(diffs.deep_view() =~= base2 + remove_ops(i as int, m + 1));
        m = m + 1;
    }

    assert(diffs.deep_view() =~= spec_post_diffs(ov, nv));
    assert forall|j: int| 0 <= j < diffs.deep_view().len() implies diff_in_bounds(
        #[trigger] diffs.deep_view()[j],
        old_len as int,
        new_len as int,
    ) by {
        lemma_spec_post_diffs_in_bounds(ov, nv);
    }
    Ok(diffs)
}

/// Diffing a post against itself yields exactly one `RetainFile` per
/// index and nothing else: no metadata edits, no adds, no removes.
pub proof fn lemma_diff_identity(p: PostView)
    ensures
        spec_post_diffs(p, p) == Seq::new(
            p.files.len(),
            |i: int| PostDiffView::RetainFile { index: i },
        ),
{
    let f = p.files;
    assert(forall|j: int| 0 <= j < f.len() ==> file_match_at(f, f, j));
    lemma_prefix_len_from(f, f, f.len() as int);
    lemma_prefix_ops_identity(f, f.len() as int);
    assert(meta_ops(p, p) =~= Seq::<PostDiffView>::empty());
    assert(spec_post_diffs(p, p) =~= Seq::new(
        p.files.len(),
        |i: int| PostDiffView::RetainFile { index: i },
    ));
}

/// On identical file lists the prefix operations are plain retains.
proof fn lemma_prefix_ops_identity(f: Seq<PostFileView>, n: int)
    requires
        n <= f.len(),
    ensures
        prefix_ops(f, f, n) =~= Seq::new(
            if n >= 0 {
                n as nat
            } else {
                0
            },
            |i: int| PostDiffView::RetainFile { index: i },
        ),
    decreases n,
{
    if n > 0 {
        lemma_prefix_ops_identity(f, n - 1);
    }
}

/// When the two posts have the same number of files and the content ids
/// differ at every index, the diff keeps nothing: after the metadata
/// edits it is exactly one `AddFile` per new index followed by one
/// `RemoveFile` per old index, and no operation is a retain.
pub proof fn lemma_diff_all_replaced(old: PostView, new: PostView)
    requires
        old.files.len() == new.files.len(),
        forall|i: int|
            0 <= i < old.files.len() ==> old.files[i].sha256 != #[trigger] new.files[i].sha256,
    ensures
        spec_post_diffs(old, new) == meta_ops(old, new) + add_ops(0, new.files.len() as int)
            + remove_ops(0, old.files.len() as int),
        forall|k: int|
            0 <= k < spec_post_diffs(old, new).len() ==> !(#[trigger] spec_post_diffs(old, new)[k]
                is RetainFile),
{
    let n = prefix_len(old.files, new.files);
    if old.files.len() > 0 {
        assert(!file_match_at(old.files, new.files, 0));
    }
    assert(n == 0);
    assert(prefix_ops(old.files, new.files, 0) =~= Seq::<PostDiffView>::empty());
    assert(spec_post_diffs(old, new) =~= meta_ops(old, new) + add_ops(0, new.files.len() as int)
        + remove_ops(0, old.files.len() as int));
}

/// Every operation that the diff algorithm emits addresses a legal index.
pub proof fn lemma_spec_post_diffs_in_bounds(old: PostView, new: PostView)
    ensures
        diffs_in_bounds(
            spec_post_diffs(old, new),
            old.files.len() as int,
            new.files.len() as int,
        ),
{
    let n = prefix_len(old.files, new.files);
    lemma_prefix_len_bounds(old.files, new.files, 0);
    lemma_prefix_ops_in_bounds(old.files, new.files, n, old.files.len() as int, new.files.len() as int);
}

/// The prefix scan stops between its start and the end of both lists.
proof fn lemma_prefix_len_bounds(old: Seq<PostFileView>, new: Seq<PostFileView>, i: int)
    requires
        0 <= i <= old.len(),
        i <= new.len(),
    ensures
        i <= prefix_len_from(old, new, i) <= old.len(),
        prefix_len_from(old, new, i) <= new.len(),
    decreases old.len() - i,
{
    if i < old.len() && i < new.len() && file_match_at(old, new, i) {
        lemma_prefix_len_bounds(old, new, i + 1);
    }
}

/// The prefix operations for indices below `n` stay in bounds.
proof fn lemma_prefix_ops_in_bounds(
    old: Seq<PostFileView>,
    new: Seq<PostFileView>,
    n: int,
    old_len: int,
    new_len: int,
)
    requires
        n <= old_len,
        n <= new_len,
    ensures
        diffs_in_bounds(prefix_ops(old, new, n), old_len, new_len),
    decreases n,
{
    if n > 0 {
        lemma_prefix_ops_in_bounds(old, new, n - 1, old_len, new_len);
    }
}

} // verus!
