//! The snapshot builder's pure parts: resolving configured file paths
//! against the directory, applying the configured defaults, and shaping
//! the file entries that the hasher and the readers supply into a post
//! snapshot. Reading files and talking to the remote service happen
//! outside the library.

use vstd::prelude::*;

use vstd::string::{StrSliceExecFns, StringExecFns};

use crate::config::PostConfigPrivacy;
use crate::post::{Post, PostFile, PostPrivacy};

verus! {

/// Whether a configured path stands on its own rather than inside the
/// directory.
pub open spec fn spec_is_absolute(path: Seq<char>) -> bool {
    path.len() > 0 && path[0] == '/'
}

/// Where a configured file path points: itself when absolute, otherwise
/// inside the directory, one separator in between.
pub open spec fn spec_resolved_path(dir: Seq<char>, path: Seq<char>) -> Seq<char> {
    if spec_is_absolute(path) {
        path
    } else {
        dir + seq!['/'] + path
    }
}

/// Resolve a configured file path against the post's directory.
pub fn resolve_file_path(dir: &str, path: &str) -> (r: String)
    ensures
        r@ == spec_resolved_path(dir@, path@),
{
    let is_abs = path.unicode_len() > 0 && path.get_char(0) == '/';
    if is_abs {
        path.to_owned()
    } else {
        let mut s = dir.to_owned();
        s.append("/");
        s.append(path);
        proof {
            reveal_strlit("/");
            assert(s@ =~= dir@ + seq!['/'] + path@);
        }
        s
    }
}

/// A file entry of a local snapshot: hashed content, the resolved path
/// kept for uploading, no remote id yet. A missing description reads as
/// the empty one.
pub fn local_post_file(description: Option<String>, sha256: String, path: String) -> (r: PostFile)
    ensures
        r.deep_view().description == (match description {
            Some(d) => d@,
            None => Seq::<char>::empty(),
        }),
        r.sha256@ == sha256@,
        r.deep_view().path == Some(path@),
        r.id is None,
{
    let description = match description {
        Some(d) => d,
        None => String::new(),
    };
    PostFile { description, sha256, path: Some(path), id: None }
}

/// A file entry of a remote snapshot: hashed content, the remote id
/// kept, no local path. A missing description reads as the empty one.
pub fn remote_post_file(description: Option<String>, sha256: String, id: String) -> (r: PostFile)
    ensures
        r.deep_view().description == (match description {
            Some(d) => d@,
            None => Seq::<char>::empty(),
        }),
        r.sha256@ == sha256@,
        r.path is None,
        r.deep_view().id == Some(id@),
{
    let description = match description {
        Some(d) => d,
        None => String::new(),
    };
    PostFile { description, sha256, path: None, id: Some(id) }
}

/// A snapshot built from a directory's configuration: the title falls
/// back to the directory's name, the privacy to hidden, the flag to
/// off; the files keep their configured order.
pub fn build_post(
    title: Option<String>,
    dir_name: &str,
    privacy: Option<PostConfigPrivacy>,
    nsfw: Option<bool>,
    files: Vec<PostFile>,
) -> (r: Post)
    ensures
        r.deep_view().title == (match title {
            Some(t) => t@,
            None => dir_name@,
        }),
        r.privacy == (match privacy {
            Some(p) => p.spec_post_privacy(),
            None => PostPrivacy::Hidden,
        }),
        r.nsfw == (match nsfw {
            Some(b) => b,
            None => false,
        }),
        r.files@ == files@,
{
    let title = match title {
        Some(t) => t,
        None => dir_name.to_owned(),
    };
    let privacy = match privacy {
        Some(p) => p.to_post_privacy(),
        None => PostPrivacy::Hidden,
    };
    let nsfw = match nsfw {
        Some(b) => b,
        None => false,
    };
    Post { title, privacy, nsfw, files }
}

/// A snapshot built from the remote service's answer: a missing title
/// reads as the empty one; the files keep the remote order.
pub fn build_remote_post(
    title: Option<String>,
    privacy: PostPrivacy,
    nsfw: bool,
    files: Vec<PostFile>,
) -> (r: Post)
    ensures
        r.deep_view().title == (match title {
            Some(t) => t@,
            None => Seq::<char>::empty(),
        }),
        r.privacy == privacy,
        r.nsfw == nsfw,
        r.files@ == files@,
{
    let title = match title {
        Some(t) => t,
        None => String::new(),
    };
    Post { title, privacy, nsfw, files }
}

} // verus!
