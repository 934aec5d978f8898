//! The typed values read from a directory's sync configuration. Parsing
//! the on-disk document itself happens outside the library; the library
//! receives plain values and interprets them.

use vstd::prelude::*;

use vstd::string::StrSliceExecFns;

use crate::post::PostPrivacy;

verus! {

/// A post's privacy as written in the configuration.
#[derive(Debug, Clone, Copy, PartialEq, Eq, Hash, Structural)]
pub enum PostConfigPrivacy {
    Public,
    Hidden,
    Secret,
}

/// Whether two strings hold the same characters.
fn str_eq(a: &str, b: &str) -> (r: bool)
    ensures
        r == (a@ == b@),
{
    let alen = a.unicode_len();
    let blen = b.unicode_len();
    if alen != blen {
        assert(a@ != b@);
        return false;
    }
    let mut i: usize = 0;
    while i < alen
        invariant
            alen == a@.len(),
            blen == b@.len(),
            alen == blen,
            i <= alen,
            forall|j: int| 0 <= j < i ==> a@[j] == b@[j],
        decreases alen - i,
    {
        if a.get_char(i) != b.get_char(i) {
            assert(a@[i as int] != b@[i as int]);
            return false;
        }
        i = i + 1;
    }
    proof {
        assert(a@ =~= b@);
    }
    true
}

impl PostConfigPrivacy {
    /// The privacy value a configuration string names, if any: exactly
    /// `"public"`, `"hidden"` or `"secret"`.
    pub fn parse(s: &str) -> (r: Option<PostConfigPrivacy>)
        ensures
            r == Some(PostConfigPrivacy::Public) <==> s@ == "public"@,
            r == Some(PostConfigPrivacy::Hidden) <==> s@ == "hidden"@,
            r == Some(PostConfigPrivacy::Secret) <==> s@ == "secret"@,
            r is None <==> s@ != "public"@ && s@ != "hidden"@ && s@ != "secret"@,
    {
        proof {
            reveal_strlit("public");
            reveal_strlit("hidden");
            reveal_strlit("secret");
            assert("public"@[0] == 'p' && "hidden"@[0] == 'h' && "secret"@[0] == 's');
            assert("public"@ != "hidden"@ && "public"@ != "secret"@ && "hidden"@ != "secret"@);
        }
        if str_eq(s, "public") {
            Some(PostConfigPrivacy::Public)
        } else if str_eq(s, "hidden") {
            Some(PostConfigPrivacy::Hidden)
        } else if str_eq(s, "secret") {
            Some(PostConfigPrivacy::Secret)
        } else {
            None
        }
    }

    /// The configuration spelling of this privacy value.
    pub open spec fn spec_name(self) -> Seq<char> {
        match self {
            PostConfigPrivacy::Public => "public"@,
            PostConfigPrivacy::Hidden => "hidden"@,
            PostConfigPrivacy::Secret => "secret"@,
        }
    }

    /// The configuration spelling of this privacy value.
    pub fn name(&self) -> (r: &'static str)
        ensures
            r@ == self.spec_name(),
    {
        match self {
            PostConfigPrivacy::Public => "public",
            PostConfigPrivacy::Hidden => "hidden",
            PostConfigPrivacy::Secret => "secret",
        }
    }

    /// The snapshot privacy this configuration value stands for.
    pub open spec fn spec_post_privacy(self) -> PostPrivacy {
        match self {
            PostConfigPrivacy::Public => PostPrivacy::Public,
            PostConfigPrivacy::Hidden => PostPrivacy::Hidden,
            PostConfigPrivacy::Secret => PostPrivacy::Secret,
        }
    }

    /// Convert to the snapshot privacy.
    pub fn to_post_privacy(self) -> (r: PostPrivacy)
        ensures
            r == self.spec_post_privacy(),
    {
        match self {
            PostConfigPrivacy::Public => PostPrivacy::Public,
            PostConfigPrivacy::Hidden => PostPrivacy::Hidden,
            PostConfigPrivacy::Secret => PostPrivacy::Secret,
        }
    }
}

} // verus!
