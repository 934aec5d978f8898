//! The post snapshot model: what a post looks like, locally or remotely,
//! and the mutation operations a diff is made of.

use vstd::prelude::*;

verus! {

/// The privacy of a post.
#[derive(Debug, Clone, Copy, PartialEq, Eq, Structural)]
pub enum PostPrivacy {
    /// The post is public.
    Public,
    /// The post is hidden.
    Hidden,
    /// The post is secret.
    Secret,
}

/// One file of a post.
#[derive(Debug, Clone, PartialEq, Eq)]
pub struct PostFile {
    /// The file description. The empty string means "no description":
    /// the remote service cannot represent an explicit empty description.
    pub description: String,

    /// The sha256 hash of the file contents, as a lowercase hex string.
    /// This is the identity used when diffing: two files are the same
    /// content exactly when this field matches.
    pub sha256: String,

    /// Where the file lives on disk. Present only for files read from a
    /// local directory; never consulted when diffing.
    pub path: Option<String>,

    /// The identifier the remote service assigned to this file. Present
    /// only once the file exists remotely; never consulted when diffing.
    pub id: Option<String>,
}

/// The mathematical value of a [`PostFile`].
#[verifier::ext_equal]
pub ghost struct PostFileView {
    pub description: Seq<char>,
    pub sha256: Seq<char>,
    pub path: Option<Seq<char>>,
    pub id: Option<Seq<char>>,
}

impl DeepView for PostFile {
    type V = PostFileView;

    open spec fn deep_view(&self) -> PostFileView {
        PostFileView {
            description: self.description@,
            sha256: self.sha256@,
            path: self.path.deep_view(),
            id: self.id.deep_view(),
        }
    }
}

/// A post snapshot: the desired or observed state of a remote post.
#[derive(Debug, Clone, PartialEq, Eq)]
pub struct Post {
    /// The title.
    pub title: String,

    /// The privacy of this post.
    pub privacy: PostPrivacy,

    /// Whether this post is marked as mature content.
    pub nsfw: bool,

    /// The post files, in display order. The order is significant.
    pub files: Vec<PostFile>,
}

/// The mathematical value of a [`Post`].
#[verifier::ext_equal]
pub ghost struct PostView {
    pub title: Seq<char>,
    pub privacy: PostPrivacy,
    pub nsfw: bool,
    pub files: Seq<PostFileView>,
}

impl DeepView for Post {
    type V = PostView;

    open spec fn deep_view(&self) -> PostView {
        PostView {
            title: self.title@,
            privacy: self.privacy,
            nsfw: self.nsfw,
            files: self.files.deep_view(),
        }
    }
}

/// One mutation operation of a post diff.
#[derive(Debug, Clone, PartialEq, Eq)]
pub enum PostDiff {
    /// Replace the title.
    EditTitle { title: String },
    /// Replace the privacy setting.
    EditPrivacy { privacy: PostPrivacy },
    /// Replace the maturity flag.
    EditNsfw { nsfw: bool },
    /// Keep the file at this index of both posts.
    RetainFile { index: usize },
    /// Replace the description of the retained file at this index.
    EditFileDescription { index: usize, description: String },
    /// Upload the file at this index of the new post.
    AddFile { index: usize },
    /// Delete the file at this index of the old post.
    RemoveFile { index: usize },
}

/// The mathematical value of a [`PostDiff`].
#[verifier::ext_equal]
pub ghost enum PostDiffView {
    EditTitle { title: Seq<char> },
    EditPrivacy { privacy: PostPrivacy },
    EditNsfw { nsfw: bool },
    RetainFile { index: int },
    EditFileDescription { index: int, description: Seq<char> },
    AddFile { index: int },
    RemoveFile { index: int },
}

impl DeepView for PostDiff {
    type V = PostDiffView;

    open spec fn deep_view(&self) -> PostDiffView {
        match self {
            PostDiff::EditTitle { title } => PostDiffView::EditTitle { title: title@ },
            PostDiff::EditPrivacy { privacy } => PostDiffView::EditPrivacy { privacy: *privacy },
            PostDiff::EditNsfw { nsfw } => PostDiffView::EditNsfw { nsfw: *nsfw },
            PostDiff::RetainFile { index } => PostDiffView::RetainFile { index: *index as int },
            PostDiff::EditFileDescription { index, description } => (PostDiffView::EditFileDescription {
                index: *index as int,
                description: description@,
            }),
            PostDiff::AddFile { index } => PostDiffView::AddFile { index: *index as int },
            PostDiff::RemoveFile { index } => PostDiffView::RemoveFile { index: *index as int },
        }
    }
}

} // verus!
