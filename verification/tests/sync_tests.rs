use imgchest_sync::post::{Post, PostDiff, PostFile, PostPrivacy};
use imgchest_sync::sync::{
    add_batch_ranges, apply_retain_ids, assign_created_ids, copy_file_ids, create_batches,
    description_updates_for_post, local_upload_paths, plan_update, post_diffs_empty,
    record_uploaded_file_ids, FileUpdate, SyncError, UPLOAD_BATCH_SIZE,
};

fn remote_file(description: &str, sha256: &str, id: &str) -> PostFile {
    PostFile {
        description: description.into(),
        sha256: sha256.into(),
        path: None,
        id: Some(id.into()),
    }
}

fn local_file(description: &str, sha256: &str, path: &str) -> PostFile {
    PostFile {
        description: description.into(),
        sha256: sha256.into(),
        path: Some(path.into()),
        id: None,
    }
}

fn post_of(files: Vec<PostFile>) -> Post {
    Post {
        title: "title".into(),
        privacy: PostPrivacy::Hidden,
        nsfw: false,
        files,
    }
}

#[test]
fn plan_update_groups_operations() {
    let old_post = post_of(vec![
        remote_file("", "s1", "id1"),
        remote_file("", "s2", "id2"),
        remote_file("", "s3", "id3"),
    ]);
    let new_post = post_of(vec![
        local_file("cap", "s1", "/a/1.png"),
        local_file("", "x2", "/a/2.png"),
    ]);
    let diffs = vec![
        PostDiff::EditTitle {
            title: "new title".into(),
        },
        PostDiff::RetainFile { index: 0 },
        PostDiff::EditFileDescription {
            index: 0,
            description: "cap".into(),
        },
        PostDiff::AddFile { index: 1 },
        PostDiff::RemoveFile { index: 1 },
        PostDiff::RemoveFile { index: 2 },
    ];
    let plan = plan_update(&diffs, &old_post, &new_post).expect("planning failed");
    let metadata = plan.metadata.expect("expected a metadata update");
    assert_eq!(metadata.title, Some("new title".to_string()));
    assert_eq!(metadata.privacy, None);
    assert_eq!(metadata.nsfw, None);
    assert_eq!(plan.add_indices, vec![1]);
    assert_eq!(plan.remove_ids, vec!["id2".to_string(), "id3".to_string()]);
    assert_eq!(
        plan.description_updates,
        vec![FileUpdate {
            id: "id1".into(),
            description: "cap".into(),
        }]
    );
}

#[test]
fn plan_update_without_metadata_changes_has_no_metadata_call() {
    let old_post = post_of(vec![remote_file("", "s1", "id1")]);
    let new_post = post_of(vec![local_file("", "s1", "/a/1.png")]);
    let diffs = vec![PostDiff::RetainFile { index: 0 }];
    let plan = plan_update(&diffs, &old_post, &new_post).expect("planning failed");
    assert!(plan.metadata.is_none());
    assert!(plan.add_indices.is_empty());
    assert!(plan.remove_ids.is_empty());
    assert!(plan.description_updates.is_empty());
}

#[test]
fn plan_update_reports_missing_remote_id() {
    let old_post = post_of(vec![PostFile {
        description: "".into(),
        sha256: "s1".into(),
        path: None,
        id: None,
    }]);
    let new_post = post_of(vec![local_file("", "x1", "/a/1.png")]);
    let diffs = vec![PostDiff::RemoveFile { index: 0 }];
    assert_eq!(
        plan_update(&diffs, &old_post, &new_post),
        Err(SyncError::MissingFileId)
    );
}

#[test]
fn plan_update_reports_missing_local_path() {
    let old_post = post_of(vec![remote_file("", "s1", "id1")]);
    let new_post = post_of(vec![remote_file("", "x1", "idx")]);
    let diffs = vec![PostDiff::AddFile { index: 0 }];
    assert_eq!(
        plan_update(&diffs, &old_post, &new_post),
        Err(SyncError::MissingFilePath)
    );
}

#[test]
fn apply_retain_ids_copies_ids_of_retained_files() {
    let old_post = post_of(vec![
        remote_file("", "s1", "id1"),
        remote_file("", "s2", "id2"),
    ]);
    let mut new_post = post_of(vec![
        local_file("", "s1", "/a/1.png"),
        local_file("", "x2", "/a/2.png"),
    ]);
    let diffs = vec![
        PostDiff::RetainFile { index: 0 },
        PostDiff::AddFile { index: 1 },
        PostDiff::RemoveFile { index: 1 },
    ];
    apply_retain_ids(&mut new_post, &old_post, &diffs).expect("retain ids failed");
    assert_eq!(new_post.files[0].id, Some("id1".to_string()));
    assert_eq!(new_post.files[1].id, None);
}

#[test]
fn apply_retain_ids_reports_missing_old_id() {
    let old_post = post_of(vec![PostFile {
        description: "".into(),
        sha256: "s1".into(),
        path: None,
        id: None,
    }]);
    let mut new_post = post_of(vec![local_file("", "s1", "/a/1.png")]);
    let diffs = vec![PostDiff::RetainFile { index: 0 }];
    assert_eq!(
        apply_retain_ids(&mut new_post, &old_post, &diffs),
        Err(SyncError::MissingFileId)
    );
    assert_eq!(new_post.files[0].id, None);
}

#[test]
fn copy_file_ids_copies_every_id() {
    let old_post = post_of(vec![
        remote_file("", "s1", "id1"),
        remote_file("", "s2", "id2"),
    ]);
    let mut new_post = post_of(vec![
        local_file("", "s1", "/a/1.png"),
        local_file("", "s2", "/a/2.png"),
    ]);
    copy_file_ids(&mut new_post, &old_post).expect("copying ids failed");
    assert_eq!(new_post.files[0].id, Some("id1".to_string()));
    assert_eq!(new_post.files[1].id, Some("id2".to_string()));
}

#[test]
fn copy_file_ids_reports_missing_old_id() {
    let old_post = post_of(vec![PostFile {
        description: "".into(),
        sha256: "s1".into(),
        path: None,
        id: None,
    }]);
    let mut new_post = post_of(vec![local_file("", "s1", "/a/1.png")]);
    assert_eq!(
        copy_file_ids(&mut new_post, &old_post),
        Err(SyncError::MissingFileId)
    );
}

#[test]
fn post_diffs_empty_detects_no_changes() {
    let retains_only = vec![
        PostDiff::RetainFile { index: 0 },
        PostDiff::RetainFile { index: 1 },
    ];
    assert!(post_diffs_empty(&retains_only));
    let with_edit = vec![
        PostDiff::RetainFile { index: 0 },
        PostDiff::EditNsfw { nsfw: true },
    ];
    assert!(!post_diffs_empty(&with_edit));
    assert!(post_diffs_empty(&vec![]));
}

#[test]
fn upload_batching_splits_forty_five_files_into_three_batches() {
    assert_eq!(UPLOAD_BATCH_SIZE, 20);
    let ranges = add_batch_ranges(45, UPLOAD_BATCH_SIZE);
    assert_eq!(ranges, vec![(0, 20), (20, 40), (40, 45)]);

    let mut files = Vec::new();
    for i in 0..45 {
        files.push(local_file("", &format!("s{i}"), &format!("/a/{i}.png")));
    }
    let mut new_post = post_of(files);
    let add_indices: Vec<usize> = (0..45).collect();
    let uploaded_ids: Vec<String> = (0..45).map(|i| format!("rid{i}")).collect();
    let updates = record_uploaded_file_ids(&mut new_post, 0, &add_indices, &uploaded_ids)
        .expect("recording uploaded ids failed");
    assert!(updates.is_empty());
    for i in 0..45 {
        assert_eq!(new_post.files[i].id, Some(format!("rid{i}")));
    }
}

#[test]
fn record_uploaded_file_ids_collects_description_updates() {
    let mut new_post = post_of(vec![
        remote_file("kept", "s1", "id1"),
        local_file("fresh", "x2", "/a/2.png"),
    ]);
    let add_indices = vec![1];
    let uploaded_ids = vec!["id1".to_string(), "rid2".to_string()];
    let updates = record_uploaded_file_ids(&mut new_post, 1, &add_indices, &uploaded_ids)
        .expect("recording uploaded ids failed");
    assert_eq!(new_post.files[1].id, Some("rid2".to_string()));
    assert_eq!(
        updates,
        vec![FileUpdate {
            id: "rid2".into(),
            description: "fresh".into(),
        }]
    );
}

#[test]
fn record_uploaded_file_ids_reports_count_mismatch() {
    let mut new_post = post_of(vec![local_file("", "x1", "/a/1.png")]);
    let add_indices = vec![0];
    let uploaded_ids: Vec<String> = Vec::new();
    assert_eq!(
        record_uploaded_file_ids(&mut new_post, 0, &add_indices, &uploaded_ids),
        Err(SyncError::FileCountMismatch)
    );
}

#[test]
fn local_upload_paths_returns_paths_in_order() {
    let p = post_of(vec![
        local_file("", "s1", "/a/1.png"),
        local_file("", "s2", "/a/2.png"),
    ]);
    let paths = local_upload_paths(&p).expect("paths failed");
    assert_eq!(paths, vec!["/a/1.png".to_string(), "/a/2.png".to_string()]);
}

#[test]
fn local_upload_paths_reports_missing_path() {
    let p = post_of(vec![remote_file("", "s1", "id1")]);
    assert_eq!(local_upload_paths(&p), Err(SyncError::MissingFilePath));
}

#[test]
fn assign_created_ids_sets_every_id() {
    let mut p = post_of(vec![
        local_file("", "s1", "/a/1.png"),
        local_file("", "s2", "/a/2.png"),
    ]);
    let ids = vec!["id1".to_string(), "id2".to_string()];
    assign_created_ids(&mut p, &ids).expect("assigning ids failed");
    assert_eq!(p.files[0].id, Some("id1".to_string()));
    assert_eq!(p.files[1].id, Some("id2".to_string()));
}

#[test]
fn assign_created_ids_reports_count_mismatch() {
    let mut p = post_of(vec![local_file("", "s1", "/a/1.png")]);
    let ids: Vec<String> = Vec::new();
    assert_eq!(
        assign_created_ids(&mut p, &ids),
        Err(SyncError::FileCountMismatch)
    );
    assert_eq!(p.files[0].id, None);
}

#[test]
fn description_updates_skip_empty_descriptions() {
    let p = post_of(vec![
        remote_file("", "s1", "id1"),
        remote_file("words", "s2", "id2"),
    ]);
    let updates = description_updates_for_post(&p).expect("updates failed");
    assert_eq!(
        updates,
        vec![FileUpdate {
            id: "id2".into(),
            description: "words".into(),
        }]
    );
}

#[test]
fn description_updates_report_missing_id() {
    let p = post_of(vec![local_file("words", "s1", "/a/1.png")]);
    assert_eq!(
        description_updates_for_post(&p),
        Err(SyncError::MissingFileId)
    );
}

#[test]
fn create_batches_rejects_empty_post() {
    let p = post_of(vec![]);
    assert_eq!(
        create_batches(&p, UPLOAD_BATCH_SIZE),
        Err(SyncError::PostHasNoFiles)
    );
    let mut files = Vec::new();
    for i in 0..21 {
        files.push(local_file("", &format!("s{i}"), &format!("/a/{i}.png")));
    }
    let p = post_of(files);
    assert_eq!(
        create_batches(&p, UPLOAD_BATCH_SIZE),
        Ok(vec![(0, 20), (20, 21)])
    );
}
