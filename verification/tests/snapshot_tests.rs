use imgchest_sync::config::PostConfigPrivacy;
use imgchest_sync::hasher::content_id_of_bytes;
use imgchest_sync::post::{PostFile, PostPrivacy};
use imgchest_sync::snapshot::{
    build_post, build_remote_post, local_post_file, remote_post_file, resolve_file_path,
};

#[test]
fn content_id_of_empty_input_is_the_empty_digest() {
    assert_eq!(
        content_id_of_bytes(&[]),
        "e3b0c44298fc1c149afbf4c8996fb92427ae41e4649b934ca495991b7852b855"
    );
}

#[test]
fn content_id_matches_known_digest() {
    assert_eq!(
        content_id_of_bytes(b"abc"),
        "ba7816bf8f01cfea414140de5dae2223b00361a396177a9cb410ff61f20015ad"
    );
    let id = content_id_of_bytes(b"hello world");
    assert_eq!(id.len(), 64);
    assert!(id.chars().all(|c| c.is_ascii_hexdigit() && !c.is_ascii_uppercase()));
}

#[test]
fn resolve_file_path_joins_relative_paths() {
    assert_eq!(resolve_file_path("/sync/cats", "one.png"), "/sync/cats/one.png");
    assert_eq!(resolve_file_path("/sync/cats", "/tmp/two.png"), "/tmp/two.png");
    assert_eq!(resolve_file_path("/sync/cats", ""), "/sync/cats/");
}

#[test]
fn build_post_applies_defaults() {
    let files = vec![local_post_file(None, "aa".into(), "/d/1.png".into())];
    let p = build_post(None, "cats", None, None, files);
    assert_eq!(p.title, "cats");
    assert_eq!(p.privacy, PostPrivacy::Hidden);
    assert!(!p.nsfw);
    assert_eq!(p.files.len(), 1);
}

#[test]
fn build_post_keeps_explicit_values() {
    let files = vec![local_post_file(
        Some("desc".into()),
        "aa".into(),
        "/d/1.png".into(),
    )];
    let p = build_post(
        Some("named".into()),
        "cats",
        Some(PostConfigPrivacy::Public),
        Some(true),
        files,
    );
    assert_eq!(p.title, "named");
    assert_eq!(p.privacy, PostPrivacy::Public);
    assert!(p.nsfw);
    assert_eq!(p.files[0].description, "desc");
}

#[test]
fn build_remote_post_defaults_title_to_empty() {
    let files = vec![remote_post_file(None, "aa".into(), "rid".into())];
    let p = build_remote_post(None, PostPrivacy::Secret, false, files);
    assert_eq!(p.title, "");
    assert_eq!(p.privacy, PostPrivacy::Secret);
}

#[test]
fn post_file_constructors_fill_sides() {
    let lf: PostFile = local_post_file(None, "aa".into(), "/d/1.png".into());
    assert_eq!(lf.description, "");
    assert_eq!(lf.path, Some("/d/1.png".to_string()));
    assert_eq!(lf.id, None);

    let rf: PostFile = remote_post_file(Some("words".into()), "bb".into(), "rid".into());
    assert_eq!(rf.description, "words");
    assert_eq!(rf.path, None);
    assert_eq!(rf.id, Some("rid".to_string()));
}

#[test]
fn post_config_privacy_parses_exact_names() {
    assert_eq!(
        PostConfigPrivacy::parse("public"),
        Some(PostConfigPrivacy::Public)
    );
    assert_eq!(
        PostConfigPrivacy::parse("hidden"),
        Some(PostConfigPrivacy::Hidden)
    );
    assert_eq!(
        PostConfigPrivacy::parse("secret"),
        Some(PostConfigPrivacy::Secret)
    );
    assert_eq!(PostConfigPrivacy::parse("Public"), None);
    assert_eq!(PostConfigPrivacy::parse(""), None);
    assert_eq!(PostConfigPrivacy::parse("publicx"), None);
}

#[test]
fn post_config_privacy_maps_to_post_privacy() {
    assert_eq!(
        PostConfigPrivacy::Public.to_post_privacy(),
        PostPrivacy::Public
    );
    assert_eq!(
        PostConfigPrivacy::Hidden.to_post_privacy(),
        PostPrivacy::Hidden
    );
    assert_eq!(
        PostConfigPrivacy::Secret.to_post_privacy(),
        PostPrivacy::Secret
    );
    assert_eq!(PostConfigPrivacy::Public.name(), "public");
    assert_eq!(PostConfigPrivacy::Hidden.name(), "hidden");
    assert_eq!(PostConfigPrivacy::Secret.name(), "secret");
}
