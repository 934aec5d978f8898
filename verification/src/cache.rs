//! The cache store's codec: the last-synced snapshot is persisted as a
//! single length-prefixed text record, written by this module and read
//! back by it. Decoding is total over arbitrary input — anything that is
//! not exactly an encoded snapshot reads as absent — and decoding an
//! encoded snapshot is proved to give the snapshot back. The file
//! system half of the store (write to a temporary path, rename over the
//! destination, delete) lives outside the library.

use vstd::prelude::*;

use vstd::string::{StrSliceExecFns, StringExecFns};

use crate::post::{Post, PostFile, PostFileView, PostPrivacy, PostView};

verus! {

/// The persisted record: the one post the last successful sync left
/// behind.
#[derive(Debug, Clone, PartialEq, Eq)]
pub struct Cache {
    /// The old post.
    pub post: Post,
}

/// The decimal digit character for a value below ten.
pub open spec fn digit_char(d: int) -> char
    recommends
        0 <= d < 10,
{
    ((48 + d) as u8) as char
}

/// The decimal digits of a number, most significant first.
pub open spec fn dec_digits(n: int) -> Seq<char>
    recommends
        n >= 0,
    decreases (if n < 10 { 0int } else { n }),
{
    if n < 10 {
        seq![digit_char(n)]
    } else {
        dec_digits(n / 10).push(digit_char(n % 10))
    }
}

/// A string field: its length in decimal, a colon, then its characters.
pub open spec fn enc_str(v: Seq<char>) -> Seq<char> {
    dec_digits(v.len() as int) + seq![':'] + v
}

/// An optional string field: a minus when absent, else a plus and the
/// string field.
pub open spec fn enc_opt(o: Option<Seq<char>>) -> Seq<char> {
    match o {
        None => seq!['-'],
        Some(v) => seq!['+'] + enc_str(v),
    }
}

/// One file: description, content id, optional local path, optional
/// remote id.
pub open spec fn enc_file(f: PostFileView) -> Seq<char> {
    enc_str(f.description) + enc_str(f.sha256) + enc_opt(f.path) + enc_opt(f.id)
}

/// The files, in order.
pub open spec fn enc_files(files: Seq<PostFileView>) -> Seq<char>
    decreases files.len(),
{
    if files.len() == 0 {
        seq![]
    } else {
        enc_file(files[0]) + enc_files(files.drop_first())
    }
}

/// The one-character tag of a privacy value.
pub open spec fn privacy_char(p: PostPrivacy) -> char {
    match p {
        PostPrivacy::Public => 'p',
        PostPrivacy::Hidden => 'h',
        PostPrivacy::Secret => 's',
    }
}

/// The one-character tag of the maturity flag.
pub open spec fn nsfw_char(b: bool) -> char {
    if b {
        't'
    } else {
        'f'
    }
}

/// The whole record: title, privacy tag, flag tag, file count in
/// decimal, a semicolon, then the files.
pub open spec fn spec_encode_post(p: PostView) -> Seq<char> {
    enc_str(p.title) + seq![privacy_char(p.privacy), nsfw_char(p.nsfw)] + dec_digits(
        p.files.len() as int,
    ) + seq![';'] + enc_files(p.files)
}

/// Whether a character is a decimal digit.
pub open spec fn is_digit(c: char) -> bool {
    48 <= (c as u32) <= 57
}

/// The value of a digit character.
pub open spec fn digit_val(c: char) -> int
    recommends
        is_digit(c),
{
    (c as u32) - 48
}

/// Scan decimal digits from position `i`, extending the value read so
/// far; stops at the first non-digit, refuses values the platform's
/// lengths cannot hold.
pub open spec fn parse_num_rec(s: Seq<char>, i: int, acc: int) -> Option<(int, int)>
    decreases s.len() - i when 0 <= i <= s.len()
{
    if i < s.len() && is_digit(s[i]) {
        let acc2 = acc * 10 + digit_val(s[i]);
        if acc2 > usize::MAX as int {
            None
        } else {
            parse_num_rec(s, i + 1, acc2)
        }
    } else {
        Some((acc, i))
    }
}

/// Parse a decimal number at position `i`: at least one digit.
pub open spec fn parse_num(s: Seq<char>, i: int) -> Option<(int, int)> {
    if 0 <= i < s.len() && is_digit(s[i]) {
        parse_num_rec(s, i, 0)
    } else {
        None
    }
}

/// Parse a string field at position `i`.
pub open spec fn parse_str(s: Seq<char>, i: int) -> Option<(Seq<char>, int)> {
    match parse_num(s, i) {
        Some((n, j)) => if j < s.len() && s[j] == ':' && j + 1 + n <= s.len() {
            Some((s.subrange(j + 1, j + 1 + n), j + 1 + n))
        } else {
            None
        },
        None => None,
    }
}

/// Parse an optional string field at position `i`.
pub open spec fn parse_opt(s: Seq<char>, i: int) -> Option<(Option<Seq<char>>, int)> {
    if 0 <= i < s.len() && s[i] == '-' {
        Some((None, i + 1))
    } else if 0 <= i < s.len() && s[i] == '+' {
        match parse_str(s, i + 1) {
            Some((v, j)) => Some((Some(v), j)),
            None => None,
        }
    } else {
        None
    }
}

/// Parse one file at position `i`.
pub open spec fn parse_file(s: Seq<char>, i: int) -> Option<(PostFileView, int)> {
    match parse_str(s, i) {
        Some((description, i1)) => match parse_str(s, i1) {
            Some((sha256, i2)) => match parse_opt(s, i2) {
                Some((path, i3)) => match parse_opt(s, i3) {
                    Some((id, i4)) => Some(
                        (PostFileView { description, sha256, path, id }, i4),
                    ),
                    None => None,
                },
                None => None,
            },
            None => None,
        },
        None => None,
    }
}

/// Parse `count` files in a row starting at position `i`.
pub open spec fn parse_files(s: Seq<char>, i: int, count: int) -> Option<(Seq<PostFileView>, int)>
    decreases (if count <= 0 { 0int } else { count }),
{
    if count <= 0 {
        Some((seq![], i))
    } else {
        match parse_file(s, i) {
            Some((f, j)) => match parse_files(s, j, count - 1) {
                Some((rest, k)) => Some((seq![f] + rest, k)),
                None => None,
            },
            None => None,
        }
    }
}

/// Parse a whole record at position `i`.
pub open spec fn parse_post(s: Seq<char>, i: int) -> Option<(PostView, int)> {
    match parse_str(s, i) {
        Some((title, i1)) => if i1 < s.len() && (s[i1] == 'p' || s[i1] == 'h' || s[i1] == 's') {
            let privacy = if s[i1] == 'p' {
                PostPrivacy::Public
            } else if s[i1] == 'h' {
                PostPrivacy::Hidden
            } else {
                PostPrivacy::Secret
            };
            let i2 = i1 + 1;
            if i2 < s.len() && (s[i2] == 't' || s[i2] == 'f') {
                let nsfw = s[i2] == 't';
                match parse_num(s, i2 + 1) {
                    Some((count, i3)) => if i3 < s.len() && s[i3] == ';' {
                        match parse_files(s, i3 + 1, count) {
                            Some((files, i4)) => Some(
                                (PostView { title, privacy, nsfw, files }, i4),
                            ),
                            None => None,
                        }
                    } else {
                        None
                    },
                    None => None,
                }
            } else {
                None
            }
        } else {
            None
        },
        None => None,
    }
}

/// What a stored record decodes to: the snapshot, exactly when the whole
/// input is one encoded record.
pub open spec fn spec_decode_post(s: Seq<char>) -> Option<PostView> {
    match parse_post(s, 0) {
        Some((p, j)) => if j == s.len() {
            Some(p)
        } else {
            None
        },
        None => None,
    }
}


/// Relies on `Iterator::collect` for `String`: the collected string
/// holds exactly the slice's characters, in order.
#[verifier::external_body]
fn chars_to_string(v: &[char]) -> (r: String)
    ensures
        r@ == v@,
{
    v.iter().collect()
}

/// The characters of a string, in order.
fn str_chars(s: &str) -> (r: Vec<char>)
    ensures
        r@ == s@,
{
    let n = s.unicode_len();
    let mut v: Vec<char> = Vec::new();
    let mut i: usize = 0;
    while i < n
        invariant
            n == s@.len(),
            i <= n,
            v@ == s@.subrange(0, i as int),
        decreases n - i,
    {
        v.push(s.get_char(i));
        assert(v@ =~= s@.subrange(0, i + 1));
        i = i + 1;
    }
    proof {
        assert(s@.subrange(0, n as int) =~= s@);
    }
    v
}

/// The decimal digits of a number, most significant first.
fn enc_num_chars(n: usize) -> (r: Vec<char>)
    ensures
        r@ == dec_digits(n as int),
    decreases n,
{
    if n < 10 {
        let c = (48 + n as u8) as char;
        let mut v: Vec<char> = Vec::new();
        v.push(c);
        assert(v@ =~= dec_digits(n as int));
        v
    } else {
        let mut v = enc_num_chars(n / 10);
        let d = (48 + (n % 10) as u8) as char;
        v.push(d);
        assert(v@ =~= dec_digits(n as int));
        v
    }
}

/// Append the characters of a string.
fn push_chars_of_str(out: &mut Vec<char>, s: &str)
    ensures
        final(out)@ == old(out)@ + s@,
{
    let mut chars = str_chars(s);
    out.append(&mut chars);
}

/// Append an encoded string field.
fn enc_str_into(out: &mut Vec<char>, s: &str)
    ensures
        final(out)@ == old(out)@ + enc_str(s@),
{
    let ghost base = out@;
    let n = s.unicode_len();
    let mut digits = enc_num_chars(n);
    out.append(&mut digits);
    out.push(':');
    push_chars_of_str(out, s);
    proof {
        assert(out@ =~= base + enc_str(s@));
    }
}

/// Append an encoded optional string field.
fn enc_opt_into(out: &mut Vec<char>, o: &Option<String>)
    ensures
        final(out)@ == old(out)@ + enc_opt(o.deep_view()),
{
    let ghost base = out@;
    match o {
        None => {
            out.push('-');
            assert(out@ =~= base + enc_opt(None));
        },
        Some(v) => {
            out.push('+');
            enc_str_into(out, v.as_str());
            assert(out@ =~= base + enc_opt(Some(v@)));
        },
    }
}

/// Append one encoded file.
fn enc_file_into(out: &mut Vec<char>, f: &PostFile)
    ensures
        final(out)@ == old(out)@ + enc_file(f.deep_view()),
{
    let ghost base = out@;
    enc_str_into(out, f.description.as_str());
    enc_str_into(out, f.sha256.as_str());
    enc_opt_into(out, &f.path);
    enc_opt_into(out, &f.id);
    proof {
        assert(out@ =~= base + enc_file(f.deep_view()));
    }
}

/// Appending one file to the list appends its encoding.
proof fn lemma_enc_files_push(files: Seq<PostFileView>, f: PostFileView)
    ensures
        enc_files(files.push(f)) == enc_files(files) + enc_file(f),
    decreases files.len(),
{
    if files.len() == 0 {
        assert(files.push(f).drop_first() =~= Seq::<PostFileView>::empty());
        assert(files.push(f)[0] == f);
        assert(enc_files(files.push(f)) == enc_file(f) + enc_files(
            files.push(f).drop_first(),
        ));
        assert(enc_files(files.push(f).drop_first()) == Seq::<char>::empty());
        assert(enc_files(files) == Seq::<char>::empty());
        assert(enc_files(files.push(f)) =~= enc_files(files) + enc_file(f));
    } else {
        assert(files.push(f).drop_first() =~= files.drop_first().push(f));
        lemma_enc_files_push(files.drop_first(), f);
        assert(files.push(f)[0] == files[0]);
        assert(enc_files(files.push(f)) == enc_file(files[0]) + enc_files(
            files.push(f).drop_first(),
        ));
        assert(enc_files(files.push(f).drop_first()) == enc_files(files.drop_first().push(f)));
        assert(enc_files(files) == enc_file(files[0]) + enc_files(files.drop_first()));
        assert(enc_files(files.push(f)) =~= enc_files(files) + enc_file(f));
    }
}

/// Every snapshot held in memory fits the platform's lengths: walking
/// it makes that visible to the prover.
fn observe_post_fits(post: &Post)
    ensures
        post_view_fits(post.deep_view()),
{
    let _ = post.title.as_str().unicode_len();
    let mut k: usize = 0;
    while k < post.files.len()
        invariant
            k <= post.files@.len(),
            forall|j: int|
                0 <= j < k ==> file_view_fits(#[trigger] post.deep_view().files[j]),
        decreases post.files@.len() - k,
    {
        let f = &post.files[k];
        let _ = f.description.as_str().unicode_len();
        let _ = f.sha256.as_str().unicode_len();
        match &f.path {
            Some(p) => {
                let _ = p.as_str().unicode_len();
            },
            None => {},
        }
        match &f.id {
            Some(p) => {
                let _ = p.as_str().unicode_len();
            },
            None => {},
        }
        assert(file_view_fits(post.deep_view().files[k as int]));
        k = k + 1;
    }
}

/// Encode the record to the text persisted on disk. What is written
/// decodes back to exactly this record.
pub fn encode_cache(cache: &Cache) -> (r: String)
    ensures
        r@ == spec_encode_post(cache.post.deep_view()),
        spec_decode_post(r@) == Some(cache.post.deep_view()),
{
    observe_post_fits(&cache.post);
    proof {
        lemma_cache_round_trip(cache.post.deep_view());
    }
    let post = &cache.post;
    let ghost pv = post.deep_view();
    let mut out: Vec<char> = Vec::new();
    enc_str_into(&mut out, post.title.as_str());
    match post.privacy {
        PostPrivacy::Public => out.push('p'),
        PostPrivacy::Hidden => out.push('h'),
        PostPrivacy::Secret => out.push('s'),
    }
    if post.nsfw {
        out.push('t');
    } else {
        out.push('f');
    }
    let mut count_digits = enc_num_chars(post.files.len());
    out.append(&mut count_digits);
    out.push(';');
    let ghost header = out@;
    proof {
        assert(header =~= enc_str(pv.title) + seq![
            privacy_char(pv.privacy),
            nsfw_char(pv.nsfw),
        ] + dec_digits(pv.files.len() as int) + seq![';']);
        assert(enc_files(pv.files.take(0)) =~= Seq::<char>::empty());
        assert(out@ =~= header + enc_files(pv.files.take(0)));
    }
    let mut i: usize = 0;
    while i < post.files.len()
        invariant
            pv == post.deep_view(),
            post.files@.len() == pv.files.len(),
            header =~= enc_str(pv.title) + seq![
                privacy_char(pv.privacy),
                nsfw_char(pv.nsfw),
            ] + dec_digits(pv.files.len() as int) + seq![';'],
            i <= pv.files.len(),
            out@ == header + enc_files(pv.files.take(i as int)),
        decreases post.files@.len() - i,
    {
        enc_file_into(&mut out, &post.files[i]);
        proof {
            assert(pv.files.take(i + 1) =~= pv.files.take(i as int).push(pv.files[i as int]));
            lemma_enc_files_push(pv.files.take(i as int), pv.files[i as int]);
            assert(out@ =~= header + enc_files(pv.files.take(i + 1)));
        }
        i = i + 1;
    }
    proof {
        assert(pv.files.take(pv.files.len() as int) =~= pv.files);
        assert(out@ =~= spec_encode_post(pv));
    }
    chars_to_string(out.as_slice())
}

/// The sibling path a record is written to before the atomic rename.
pub fn cache_temp_path(path: &str) -> (r: String)
    ensures
        r@ == path@ + ".temp"@,
{
    let mut s = path.to_owned();
    s.append(".temp");
    s
}


/// Scan decimal digits, extending the value read so far.
fn pnum_rec(s: &[char], i: usize, acc: usize) -> (r: Option<(usize, usize)>)
    requires
        i <= s@.len(),
    ensures
        parse_num_rec(s@, i as int, acc as int) == (match r {
            Some(p) => Some::<(int, int)>((p.0 as int, p.1 as int)),
            None => None::<(int, int)>,
        }),
    decreases s@.len() - i,
{
    if i < s.len() {
        let c = *vstd::slice::slice_index_get(s, i);
        let cv = c as u32;
        if 48 <= cv && cv <= 57 {
            let d = (cv - 48) as usize;
            let acc2_wide: u128 = acc as u128 * 10 + d as u128;
            if acc2_wide > usize::MAX as u128 {
                return None;
            }
            let acc2 = acc2_wide as usize;
            return pnum_rec(s, i + 1, acc2);
        }
    }
    Some((acc, i))
}

/// Parse a decimal number: at least one digit.
fn pnum(s: &[char], i: usize) -> (r: Option<(usize, usize)>)
    ensures
        parse_num(s@, i as int) == (match r {
            Some(p) => Some::<(int, int)>((p.0 as int, p.1 as int)),
            None => None::<(int, int)>,
        }),
{
    if i < s.len() {
        let c = *vstd::slice::slice_index_get(s, i);
        let cv = c as u32;
        if 48 <= cv && cv <= 57 {
            return pnum_rec(s, i, 0);
        }
    }
    None
}

/// Parse a string field.
fn pstr(s: &[char], i: usize) -> (r: Option<(Vec<char>, usize)>)
    ensures
        parse_str(s@, i as int) is Some <==> r is Some,
        r matches Some(p) ==> parse_str(s@, i as int) == Some((p.0@, p.1 as int)),
{
    match pnum(s, i) {
        Some((n, j)) => {
            if j < s.len() {
                let c = *vstd::slice::slice_index_get(s, j);
                if c == ':' {
                    if n <= s.len() - (j + 1) {
                        let sub = vstd::slice::slice_subrange(s, j + 1, j + 1 + n);
                        let v = vstd::slice::slice_to_vec(sub);
                        return Some((v, j + 1 + n));
                    }
                }
            }
            None
        },
        None => None,
    }
}

/// Parse an optional string field.
fn popt(s: &[char], i: usize) -> (r: Option<(Option<Vec<char>>, usize)>)
    ensures
        parse_opt(s@, i as int) is Some <==> r is Some,
        r matches Some(p) ==> parse_opt(s@, i as int) == Some((p.0.deep_view(), p.1 as int)),
{
    if i < s.len() {
        let c = *vstd::slice::slice_index_get(s, i);
        if c == '-' {
            return Some((None, i + 1));
        }
        if c == '+' {
            match pstr(s, i + 1) {
                Some((v, j)) => {
                    return Some((Some(v), j));
                },
                None => {
                    return None;
                },
            }
        }
    }
    None
}

/// Parse one file.
fn pfile(s: &[char], i: usize) -> (r: Option<(PostFile, usize)>)
    ensures
        parse_file(s@, i as int) is Some <==> r is Some,
        r matches Some(p) ==> parse_file(s@, i as int) == Some((p.0.deep_view(), p.1 as int)),
{
    let (description, i1) = match pstr(s, i) {
        Some(x) => x,
        None => {
            return None;
        },
    };
    let (sha256, i2) = match pstr(s, i1) {
        Some(x) => x,
        None => {
            return None;
        },
    };
    let (path, i3) = match popt(s, i2) {
        Some(x) => x,
        None => {
            return None;
        },
    };
    let (id, i4) = match popt(s, i3) {
        Some(x) => x,
        None => {
            return None;
        },
    };
    let f = PostFile {
        description: chars_to_string(description.as_slice()),
        sha256: chars_to_string(sha256.as_slice()),
        path: match path {
            Some(v) => Some(chars_to_string(v.as_slice())),
            None => None,
        },
        id: match id {
            Some(v) => Some(chars_to_string(v.as_slice())),
            None => None,
        },
    };
    Some((f, i4))
}

/// Parse `count` files in a row.
fn pfiles(s: &[char], i: usize, count: usize) -> (r: Option<(Vec<PostFile>, usize)>)
    ensures
        parse_files(s@, i as int, count as int) is Some <==> r is Some,
        r matches Some(p) ==> parse_files(s@, i as int, count as int) == Some(
            (p.0.deep_view(), p.1 as int),
        ),
    decreases count,
{
    if count == 0 {
        let v: Vec<PostFile> = Vec::new();
        assert(v.deep_view() =~= Seq::<PostFileView>::empty());
        return Some((v, i));
    }
    match pfile(s, i) {
        Some((f, j)) => match pfiles(s, j, count - 1) {
            Some((mut rest, k)) => {
                let ghost rest_v = rest.deep_view();
                let ghost fv = f.deep_view();
                rest.insert(0, f);
                assert(rest.deep_view() =~= seq![fv] + rest_v);
                Some((rest, k))
            },
            None => None,
        },
        None => None,
    }
}

/// Parse a whole record.
fn parse_post_chars(s: &[char], i: usize) -> (r: Option<(Post, usize)>)
    ensures
        parse_post(s@, i as int) is Some <==> r is Some,
        r matches Some(p) ==> parse_post(s@, i as int) == Some((p.0.deep_view(), p.1 as int)),
{
    let (title_chars, i1) = match pstr(s, i) {
        Some(x) => x,
        None => {
            return None;
        },
    };
    if i1 >= s.len() {
        return None;
    }
    let pc = *vstd::slice::slice_index_get(s, i1);
    let privacy = if pc == 'p' {
        PostPrivacy::Public
    } else if pc == 'h' {
        PostPrivacy::Hidden
    } else if pc == 's' {
        PostPrivacy::Secret
    } else {
        return None;
    };
    let i2 = i1 + 1;
    if i2 >= s.len() {
        return None;
    }
    let nc = *vstd::slice::slice_index_get(s, i2);
    let nsfw = if nc == 't' {
        true
    } else if nc == 'f' {
        false
    } else {
        return None;
    };
    let (count, i3) = match pnum(s, i2 + 1) {
        Some(x) => x,
        None => {
            return None;
        },
    };
    if i3 >= s.len() {
        return None;
    }
    let sc = *vstd::slice::slice_index_get(s, i3);
    if sc != ';' {
        return None;
    }
    let (files, i4) = match pfiles(s, i3 + 1, count) {
        Some(x) => x,
        None => {
            return None;
        },
    };
    let post = Post { title: chars_to_string(title_chars.as_slice()), privacy, nsfw, files };
    Some((post, i4))
}

/// Decode a stored record. Anything that is not exactly one encoded
/// record reads as absent.
pub fn decode_cache(s: &str) -> (r: Option<Cache>)
    ensures
        spec_decode_post(s@) is Some <==> r is Some,
        r matches Some(c) ==> spec_decode_post(s@) == Some(c.post.deep_view()),
{
    let chars = str_chars(s);
    let n = chars.len();
    match parse_post_chars(chars.as_slice(), 0) {
        Some((post, j)) => {
            if j == n {
                Some(Cache { post })
            } else {
                None
            }
        },
        None => None,
    }
}


/// Ten to the `k`.
spec fn pow10(k: nat) -> int
    decreases k,
{
    if k == 0 {
        1
    } else {
        10 * pow10((k - 1) as nat)
    }
}

proof fn lemma_pow10_pos(k: nat)
    ensures
        pow10(k) >= 1,
    decreases k,
{
    if k > 0 {
        lemma_pow10_pos((k - 1) as nat);
        assert(10 * pow10((k - 1) as nat) >= 10 * 1) by (nonlinear_arith)
            requires
                pow10((k - 1) as nat) >= 1,
        ;
    }
}

/// A number's digits: at least one, all decimal, each recovering its
/// value.
proof fn lemma_dec_digits_props(n: int)
    requires
        n >= 0,
    ensures
        dec_digits(n).len() >= 1,
        forall|j: int| 0 <= j < dec_digits(n).len() ==> is_digit(#[trigger] dec_digits(n)[j]),
    decreases (if n < 10 { 0int } else { n }),
{
    if n < 10 {
        assert(is_digit(digit_char(n)));
    } else {
        lemma_dec_digits_props(n / 10);
        assert(is_digit(digit_char(n % 10)));
    }
}

/// Scanning over the digits of `n` accumulates exactly `n` onto what
/// was read so far, and moves past them.
proof fn lemma_parse_digits_continue(s: Seq<char>, i: int, acc: int, n: int)
    requires
        n >= 0,
        acc >= 0,
        0 <= i,
        i + dec_digits(n).len() <= s.len(),
        s.subrange(i, i + dec_digits(n).len() as int) == dec_digits(n),
        acc * pow10(dec_digits(n).len()) + n <= usize::MAX as int,
    ensures
        parse_num_rec(s, i, acc) == parse_num_rec(
            s,
            i + dec_digits(n).len() as int,
            acc * pow10(dec_digits(n).len()) + n,
        ),
    decreases (if n < 10 { 0int } else { n }),
{
    let ds = dec_digits(n);
    let l = ds.len() as int;
    if n < 10 {
        assert(pow10(0) == 1);
        assert(pow10(1) == 10);
        assert(s.subrange(i, i + 1)[0] == s[i]);
        assert(s[i] == digit_char(n));
        assert(is_digit(s[i]));
        assert(digit_val(s[i]) == n);
        assert(acc * pow10(1) == acc * 10);
        assert(parse_num_rec(s, i, acc) == parse_num_rec(s, i + 1, acc * 10 + n));
    } else {
        let m = n / 10;
        let d = n % 10;
        let dsm = dec_digits(m);
        let lm = dsm.len() as int;
        assert(ds == dsm.push(digit_char(d)));
        assert(l == lm + 1);
        assert forall|j: int| 0 <= j < lm implies s.subrange(i, i + lm)[j] == dsm[j] by {
            assert(s.subrange(i, i + l)[j] == ds[j]);
        }
        assert(s.subrange(i, i + lm) =~= dsm);

        let pw = pow10(lm as nat);
        lemma_pow10_pos(lm as nat);
        assert(pow10(l as nat) == 10 * pw);
        vstd::arithmetic::div_mod::lemma_fundamental_div_mod(n, 10);
        assert(n == 10 * m + d);
        let accm = acc * pw + m;
        assert(acc * pow10(l as nat) == 10 * (acc * pw)) by (nonlinear_arith)
            requires
                pow10(l as nat) == 10 * pw,
        ;
        assert(10 * accm + d == acc * pow10(l as nat) + n);
        assert(acc * pw >= 0) by (nonlinear_arith)
            requires
                acc >= 0,
                pw >= 1,
        ;
        assert(accm <= usize::MAX as int);
        lemma_parse_digits_continue(s, i, acc, m);

        assert(s[i + lm] == ds[lm]) by {
            assert(s.subrange(i, i + l)[lm] == ds[lm]);
        }
        assert(s[i + lm] == digit_char(d));
        assert(is_digit(s[i + lm]));
        assert(digit_val(s[i + lm]) == d);
        assert(parse_num_rec(s, i + lm, accm) == parse_num_rec(s, i + lm + 1, accm * 10 + d));
        assert(accm * 10 + d == acc * pow10(l as nat) + n);
    }
}

/// Parsing a number over an encoded one, followed by a non-digit,
/// recovers it.
proof fn lemma_parse_num_of_encoding(s: Seq<char>, i: int, n: int)
    requires
        0 <= n <= usize::MAX as int,
        0 <= i,
        i + dec_digits(n).len() < s.len(),
        s.subrange(i, i + dec_digits(n).len() as int) == dec_digits(n),
        !is_digit(s[i + dec_digits(n).len()]),
    ensures
        parse_num(s, i) == Some((n, i + dec_digits(n).len() as int)),
{
    let l = dec_digits(n).len() as int;
    lemma_dec_digits_props(n);
    assert(s[i] == dec_digits(n)[0]) by {
        assert(s.subrange(i, i + l)[0] == dec_digits(n)[0]);
    }
    assert(is_digit(s[i]));
    lemma_pow10_pos(dec_digits(n).len());
    assert(0 * pow10(dec_digits(n).len()) + n == n) by (nonlinear_arith);
    lemma_parse_digits_continue(s, i, 0, n);
    assert(parse_num_rec(s, i + l, n) == Some((n, i + l)));
}

/// Splitting a known subrange at a concatenation boundary.
proof fn lemma_subrange_split(s: Seq<char>, i: int, a: Seq<char>, b: Seq<char>)
    requires
        0 <= i,
        i + a.len() + b.len() <= s.len(),
        s.subrange(i, i + a.len() + b.len() as int) == a + b,
    ensures
        s.subrange(i, i + a.len() as int) == a,
        s.subrange(i + a.len() as int, i + a.len() + b.len() as int) == b,
{
    let whole = s.subrange(i, i + a.len() + b.len() as int);
    assert forall|j: int| 0 <= j < a.len() implies s.subrange(i, i + a.len() as int)[j] == a[j] by {
        assert(whole[j] == (a + b)[j]);
    }
    assert(s.subrange(i, i + a.len() as int) =~= a);
    assert forall|j: int| 0 <= j < b.len() implies s.subrange(
        i + a.len() as int,
        i + a.len() + b.len() as int,
    )[j] == b[j] by {
        assert(whole[a.len() + j] == (a + b)[a.len() + j]);
    }
    assert(s.subrange(i + a.len() as int, i + a.len() + b.len() as int) =~= b);
}

/// Parsing a string field over an encoded one recovers it.
proof fn lemma_parse_str_of_encoding(s: Seq<char>, i: int, v: Seq<char>)
    requires
        v.len() <= usize::MAX as int,
        0 <= i,
        i + enc_str(v).len() <= s.len(),
        s.subrange(i, i + enc_str(v).len() as int) == enc_str(v),
    ensures
        parse_str(s, i) == Some((v, i + enc_str(v).len() as int)),
{
    let ds = dec_digits(v.len() as int);
    let l = ds.len() as int;
    let e = enc_str(v);
    assert(e =~= ds + (seq![':'] + v));
    lemma_subrange_split(s, i, ds, seq![':'] + v);
    lemma_subrange_split(s, i + l, seq![':'], v);
    assert(s[i + l] == ':') by {
        assert(s.subrange(i + l, i + l + 1)[0] == s[i + l]);
    }
    assert(!is_digit(':'));
    assert(i + l < s.len());
    lemma_parse_num_of_encoding(s, i, v.len() as int);
    assert(s.subrange(i + l + 1, i + l + 1 + v.len() as int) == v);
    assert(parse_str(s, i) == Some((v, i + l + 1 + v.len())));
    assert(e.len() == l + 1 + v.len());
}

/// Parsing an optional field over an encoded one recovers it.
proof fn lemma_parse_opt_of_encoding(s: Seq<char>, i: int, o: Option<Seq<char>>)
    requires
        (o matches Some(v) ==> v.len() <= usize::MAX as int),
        0 <= i,
        i + enc_opt(o).len() <= s.len(),
        s.subrange(i, i + enc_opt(o).len() as int) == enc_opt(o),
    ensures
        parse_opt(s, i) == Some((o, i + enc_opt(o).len() as int)),
{
    match o {
        None => {
            assert(s[i] == '-') by {
                assert(s.subrange(i, i + 1)[0] == s[i]);
            }
        },
        Some(v) => {
            let e = enc_opt(o);
            assert(e =~= seq!['+'] + enc_str(v));
            lemma_subrange_split(s, i, seq!['+'], enc_str(v));
            assert(s[i] == '+') by {
                assert(s.subrange(i, i + 1)[0] == s[i]);
            }
            lemma_parse_str_of_encoding(s, i + 1, v);
        },
    }
}

/// Whether a file's strings fit the platform's lengths; every file an
/// executable snapshot holds does.
pub open spec fn file_view_fits(f: PostFileView) -> bool {
    &&& f.description.len() <= usize::MAX as int
    &&& f.sha256.len() <= usize::MAX as int
    &&& (f.path matches Some(v) ==> v.len() <= usize::MAX as int)
    &&& (f.id matches Some(v) ==> v.len() <= usize::MAX as int)
}

/// Whether a snapshot's strings and counts fit the platform's lengths;
/// every executable snapshot does.
pub open spec fn post_view_fits(p: PostView) -> bool {
    &&& p.title.len() <= usize::MAX as int
    &&& p.files.len() <= usize::MAX as int
    &&& forall|k: int| 0 <= k < p.files.len() ==> file_view_fits(#[trigger] p.files[k])
}

/// Parsing one file over its encoding recovers it.
proof fn lemma_parse_file_of_encoding(s: Seq<char>, i: int, f: PostFileView)
    requires
        file_view_fits(f),
        0 <= i,
        i + enc_file(f).len() <= s.len(),
        s.subrange(i, i + enc_file(f).len() as int) == enc_file(f),
    ensures
        parse_file(s, i) == Some((f, i + enc_file(f).len() as int)),
{
    let a = enc_str(f.description);
    let b = enc_str(f.sha256);
    let c = enc_opt(f.path);
    let d = enc_opt(f.id);
    assert(enc_file(f) =~= a + (b + (c + d)));
    lemma_subrange_split(s, i, a, b + (c + d));
    lemma_parse_str_of_encoding(s, i, f.description);
    assert(s.subrange(i + a.len() as int, i + a.len() + b.len() + (c + d).len() as int) =~= b + (
    c + d));
    lemma_subrange_split(s, i + a.len() as int, b, c + d);
    lemma_parse_str_of_encoding(s, i + a.len() as int, f.sha256);
    lemma_subrange_split(s, i + a.len() + b.len() as int, c, d);
    lemma_parse_opt_of_encoding(s, i + a.len() + b.len() as int, f.path);
    lemma_parse_opt_of_encoding(s, i + a.len() + b.len() + c.len() as int, f.id);
    assert(parse_file(s, i) == Some(
        (
            PostFileView {
                description: f.description,
                sha256: f.sha256,
                path: f.path,
                id: f.id,
            },
            i + enc_file(f).len() as int,
        ),
    ));
    assert(PostFileView {
        description: f.description,
        sha256: f.sha256,
        path: f.path,
        id: f.id,
    } =~= f);
}

/// Parsing a file list over its encoding recovers it.
proof fn lemma_parse_files_of_encoding(s: Seq<char>, i: int, files: Seq<PostFileView>)
    requires
        forall|k: int| 0 <= k < files.len() ==> file_view_fits(#[trigger] files[k]),
        0 <= i,
        i + enc_files(files).len() <= s.len(),
        s.subrange(i, i + enc_files(files).len() as int) == enc_files(files),
    ensures
        parse_files(s, i, files.len() as int) == Some(
            (files, i + enc_files(files).len() as int),
        ),
    decreases files.len(),
{
    if files.len() == 0 {
        assert(files =~= Seq::<PostFileView>::empty());
    } else {
        let a = enc_file(files[0]);
        let rest = enc_files(files.drop_first());
        assert(enc_files(files) == a + rest);
        lemma_subrange_split(s, i, a, rest);
        lemma_parse_file_of_encoding(s, i, files[0]);
        assert(forall|k: int|
            0 <= k < files.drop_first().len() ==> file_view_fits(
                #[trigger] files.drop_first()[k],
            ));
        lemma_parse_files_of_encoding(s, i + a.len() as int, files.drop_first());
        assert(seq![files[0]] + files.drop_first() =~= files);
    }
}

/// Writing a snapshot through the cache codec and reading the result
/// back yields the same snapshot.
#[verifier::rlimit(100)]
pub proof fn lemma_cache_round_trip(p: PostView)
    requires
        post_view_fits(p),
    ensures
        spec_decode_post(spec_encode_post(p)) == Some(p),
{
    let s = spec_encode_post(p);
    let a = enc_str(p.title);
    let tags = seq![privacy_char(p.privacy), nsfw_char(p.nsfw)];
    let cd = dec_digits(p.files.len() as int);
    let semi = seq![';'];
    let ef = enc_files(p.files);

    assert(s =~= a + (tags + (cd + (semi + ef))));
    assert(s.subrange(0, s.len() as int) =~= s);
    lemma_subrange_split(s, 0, a, tags + (cd + (semi + ef)));
    lemma_parse_str_of_encoding(s, 0, p.title);
    let i1 = a.len() as int;
    lemma_subrange_split(s, i1, tags, cd + (semi + ef));
    assert(s[i1] == privacy_char(p.privacy)) by {
        assert(s.subrange(i1, i1 + 2)[0] == s[i1]);
    }
    assert(s[i1 + 1] == nsfw_char(p.nsfw)) by {
        assert(s.subrange(i1, i1 + 2)[1] == s[i1 + 1]);
    }
    let i2 = i1 + 2;
    lemma_subrange_split(s, i2, cd, semi + ef);
    lemma_subrange_split(s, i2 + cd.len() as int, semi, ef);
    let i3 = i2 + cd.len() as int;
    assert(s[i3] == ';') by {
        assert(s.subrange(i3, i3 + 1)[0] == s[i3]);
    }
    assert(!is_digit(';'));
    lemma_parse_num_of_encoding(s, i2, p.files.len() as int);
    lemma_parse_files_of_encoding(s, i3 + 1, p.files);
    let parsed = parse_post(s, 0);
    assert(i3 + 1 + ef.len() == s.len());
    assert(parsed == Some(
        (
            PostView { title: p.title, privacy: p.privacy, nsfw: p.nsfw, files: p.files },
            s.len() as int,
        ),
    ));
    assert(PostView { title: p.title, privacy: p.privacy, nsfw: p.nsfw, files: p.files } =~= p);
}

} // verus!
