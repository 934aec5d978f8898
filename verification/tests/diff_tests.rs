use imgchest_sync::diff::{generate_post_diffs, DiffError};
use imgchest_sync::post::{Post, PostDiff, PostFile, PostPrivacy};

const SHA256_A: &str = "a";
const SHA256_B: &str = "b";

fn file(description: &str, sha256: &str) -> PostFile {
    PostFile {
        description: description.into(),
        sha256: sha256.into(),
        path: None,
        id: None,
    }
}

fn post(title: &str, files: Vec<PostFile>) -> Post {
    Post {
        title: title.into(),
        privacy: PostPrivacy::Hidden,
        nsfw: false,
        files,
    }
}

#[test]
fn generate_post_diffs_works() {
    let old_post = post("title", vec![file("", SHA256_B)]);
    let new_post = post("title", vec![file("", SHA256_A)]);
    let actual_diffs =
        generate_post_diffs(&old_post, &new_post).expect("failed to generate diffs");
    let expected_diffs = vec![
        PostDiff::AddFile { index: 0 },
        PostDiff::RemoveFile { index: 0 },
    ];
    assert!(actual_diffs == expected_diffs);

    let old_post = post("title", vec![file("", SHA256_A), file("", SHA256_A)]);
    let new_post = post("title", vec![file("", SHA256_A)]);
    let actual_diffs =
        generate_post_diffs(&old_post, &new_post).expect("failed to generate diffs");
    let expected_diffs = vec![
        PostDiff::RetainFile { index: 0 },
        PostDiff::RemoveFile { index: 1 },
    ];
    assert!(actual_diffs == expected_diffs);

    let old_post = post("title", vec![file("", SHA256_A)]);
    let new_post = post("title", vec![file("", SHA256_A)]);
    let actual_diffs =
        generate_post_diffs(&old_post, &new_post).expect("failed to generate diffs");
    let expected_diffs = vec![PostDiff::RetainFile { index: 0 }];
    assert!(actual_diffs == expected_diffs);

    let old_post = post("title", vec![file("", SHA256_A)]);
    let new_post = post("title", vec![file("hello world!", SHA256_A)]);
    let actual_diffs =
        generate_post_diffs(&old_post, &new_post).expect("failed to generate diffs");
    let expected_diffs = vec![
        PostDiff::RetainFile { index: 0 },
        PostDiff::EditFileDescription {
            index: 0,
            description: "hello world!".into(),
        },
    ];
    assert!(actual_diffs == expected_diffs);
}

#[test]
fn diff_of_identical_post_is_all_retains() {
    let p = Post {
        title: "gallery".into(),
        privacy: PostPrivacy::Public,
        nsfw: true,
        files: vec![file("one", SHA256_A), file("", SHA256_B), file("three", "c")],
    };
    let q = Post {
        title: "gallery".into(),
        privacy: PostPrivacy::Public,
        nsfw: true,
        files: vec![file("one", SHA256_A), file("", SHA256_B), file("three", "c")],
    };
    let diffs = generate_post_diffs(&p, &q).expect("failed to generate diffs");
    let expected = vec![
        PostDiff::RetainFile { index: 0 },
        PostDiff::RetainFile { index: 1 },
        PostDiff::RetainFile { index: 2 },
    ];
    assert_eq!(diffs, expected);
}

#[test]
fn diff_replaces_everything_when_all_content_differs() {
    let old_post = post("title", vec![file("x", "s1"), file("y", "s2")]);
    let new_post = post("title", vec![file("x", "t1"), file("y", "t2")]);
    let diffs = generate_post_diffs(&old_post, &new_post).expect("failed to generate diffs");
    let expected = vec![
        PostDiff::AddFile { index: 0 },
        PostDiff::AddFile { index: 1 },
        PostDiff::RemoveFile { index: 0 },
        PostDiff::RemoveFile { index: 1 },
    ];
    assert_eq!(diffs, expected);
}

#[test]
fn diff_retains_then_edits_description() {
    let old_post = post("title", vec![file("", SHA256_A)]);
    let new_post = post("title", vec![file("hello", SHA256_A)]);
    let diffs = generate_post_diffs(&old_post, &new_post).expect("failed to generate diffs");
    let expected = vec![
        PostDiff::RetainFile { index: 0 },
        PostDiff::EditFileDescription {
            index: 0,
            description: "hello".into(),
        },
    ];
    assert_eq!(diffs, expected);
}

#[test]
fn diff_recreates_file_to_clear_description() {
    let old_post = post("title", vec![file("hello", SHA256_A)]);
    let new_post = post("title", vec![file("", SHA256_A)]);
    let diffs = generate_post_diffs(&old_post, &new_post).expect("failed to generate diffs");
    let expected = vec![
        PostDiff::AddFile { index: 0 },
        PostDiff::RemoveFile { index: 0 },
    ];
    assert_eq!(diffs, expected);
}

#[test]
fn diff_rejects_empty_file_lists() {
    let empty = post("title", vec![]);
    let nonempty = post("title", vec![file("", SHA256_A)]);
    assert_eq!(
        generate_post_diffs(&empty, &nonempty),
        Err(DiffError::OldPostHasNoFiles)
    );
    assert_eq!(
        generate_post_diffs(&nonempty, &empty),
        Err(DiffError::NewPostHasNoFiles)
    );
    assert_eq!(
        generate_post_diffs(&empty, &empty),
        Err(DiffError::OldPostHasNoFiles)
    );
}

#[test]
fn diff_emits_metadata_edits_before_file_operations() {
    let old_post = Post {
        title: "old".into(),
        privacy: PostPrivacy::Hidden,
        nsfw: false,
        files: vec![file("", SHA256_A)],
    };
    let new_post = Post {
        title: "new".into(),
        privacy: PostPrivacy::Public,
        nsfw: true,
        files: vec![file("", SHA256_A)],
    };
    let diffs = generate_post_diffs(&old_post, &new_post).expect("failed to generate diffs");
    let expected = vec![
        PostDiff::EditTitle {
            title: "new".into(),
        },
        PostDiff::EditPrivacy {
            privacy: PostPrivacy::Public,
        },
        PostDiff::EditNsfw { nsfw: true },
        PostDiff::RetainFile { index: 0 },
    ];
    assert_eq!(diffs, expected);
}

#[test]
fn diff_stops_prefix_at_first_mismatch() {
    let old_post = post(
        "title",
        vec![file("", "s1"), file("", "s2"), file("", "s3")],
    );
    let new_post = post(
        "title",
        vec![file("", "s1"), file("", "x2"), file("", "s3")],
    );
    let diffs = generate_post_diffs(&old_post, &new_post).expect("failed to generate diffs");
    let expected = vec![
        PostDiff::RetainFile { index: 0 },
        PostDiff::AddFile { index: 1 },
        PostDiff::AddFile { index: 2 },
        PostDiff::RemoveFile { index: 1 },
        PostDiff::RemoveFile { index: 2 },
    ];
    assert_eq!(diffs, expected);
}
