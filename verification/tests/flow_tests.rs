use imgchest_sync::cache::{decode_cache, encode_cache, Cache};
use imgchest_sync::diff::generate_post_diffs;
use imgchest_sync::post::{Post, PostDiff, PostFile, PostPrivacy};
use imgchest_sync::sync::{
    apply_retain_ids, copy_file_ids, plan_update, post_diffs_empty, record_uploaded_file_ids,
    FileUpdate,
};

fn remote(description: &str, sha256: &str, id: &str) -> PostFile {
    PostFile {
        description: description.into(),
        sha256: sha256.into(),
        path: None,
        id: Some(id.into()),
    }
}

fn local(description: &str, sha256: &str, path: &str) -> PostFile {
    PostFile {
        description: description.into(),
        sha256: sha256.into(),
        path: Some(path.into()),
        id: None,
    }
}

#[test]
fn update_flow_threads_ids_through_to_the_cache() {
    let old_post = Post {
        title: "album".into(),
        privacy: PostPrivacy::Hidden,
        nsfw: false,
        files: vec![
            remote("", "s1", "id1"),
            remote("", "s2", "id2"),
            remote("", "s3", "id3"),
        ],
    };
    let mut new_post = Post {
        title: "album".into(),
        privacy: PostPrivacy::Hidden,
        nsfw: false,
        files: vec![local("cap", "s1", "/d/1.png"), local("", "s4", "/d/4.png")],
    };

    let diffs = generate_post_diffs(&old_post, &new_post).expect("failed to generate diffs");
    let expected = vec![
        PostDiff::RetainFile { index: 0 },
        PostDiff::EditFileDescription {
            index: 0,
            description: "cap".into(),
        },
        PostDiff::AddFile { index: 1 },
        PostDiff::RemoveFile { index: 1 },
        PostDiff::RemoveFile { index: 2 },
    ];
    assert_eq!(diffs, expected);
    assert!(!post_diffs_empty(&diffs));

    let plan = plan_update(&diffs, &old_post, &new_post).expect("planning failed");
    assert!(plan.metadata.is_none());
    assert_eq!(plan.add_indices, vec![1]);
    assert_eq!(plan.remove_ids, vec!["id2".to_string(), "id3".to_string()]);
    assert_eq!(
        plan.description_updates,
        vec![FileUpdate {
            id: "id1".into(),
            description: "cap".into(),
        }]
    );

    apply_retain_ids(&mut new_post, &old_post, &diffs).expect("retain ids failed");
    assert_eq!(new_post.files[0].id, Some("id1".to_string()));

    // The remote answer to the one upload batch lists the three old files
    // followed by the uploaded one.
    let uploaded_ids = vec![
        "id1".to_string(),
        "id2".to_string(),
        "id3".to_string(),
        "id4".to_string(),
    ];
    let added_updates =
        record_uploaded_file_ids(&mut new_post, old_post.files.len(), &plan.add_indices, &uploaded_ids)
            .expect("recording uploaded ids failed");
    assert!(added_updates.is_empty());
    assert_eq!(new_post.files[1].id, Some("id4".to_string()));

    let cache = Cache { post: new_post };
    let reloaded = decode_cache(&encode_cache(&cache)).expect("cache should decode");
    assert_eq!(reloaded, cache);
    assert_eq!(reloaded.post.files[0].id, Some("id1".to_string()));
    assert_eq!(reloaded.post.files[1].id, Some("id4".to_string()));
}

#[test]
fn no_changes_flow_copies_ids_and_skips_remote_calls() {
    let old_post = Post {
        title: "album".into(),
        privacy: PostPrivacy::Hidden,
        nsfw: false,
        files: vec![remote("", "s1", "id1"), remote("two", "s2", "id2")],
    };
    let mut new_post = Post {
        title: "album".into(),
        privacy: PostPrivacy::Hidden,
        nsfw: false,
        files: vec![local("", "s1", "/d/1.png"), local("two", "s2", "/d/2.png")],
    };

    let diffs = generate_post_diffs(&old_post, &new_post).expect("failed to generate diffs");
    assert!(post_diffs_empty(&diffs));

    copy_file_ids(&mut new_post, &old_post).expect("copying ids failed");
    assert_eq!(new_post.files[0].id, Some("id1".to_string()));
    assert_eq!(new_post.files[1].id, Some("id2".to_string()));
    // The copied paths stay: the persisted snapshot keeps where the
    // local files live.
    assert_eq!(new_post.files[0].path, Some("/d/1.png".to_string()));
}
