//! What the web handlers decide before they touch the blog: canonical
//! addresses of posts and attachments, trailing slashes, where the
//! configuration file is, and which directory entries hold posts.

use vstd::prelude::*;
use vstd::string::StrSliceExecFns;
use crate::text::{ascii_lower, lowercase};
use vstd::utf8::is_ascii_chars;

verus! {

/// What a request for `/posts/<slug>/` is answered with.
#[derive(Debug)]
pub enum PostRequest {
    /// A permanent redirect to the lower-case address.
    Redirect(String),
    /// Show the post with this slug.
    Show(String),
}

/// A slug that is not in lower case is redirected to `/posts/<lower>/`;
/// a lower-case one is looked up.
pub fn post_request(slug: &str) -> (res: PostRequest)
    ensures
        lowercase(slug@) != slug@ ==> (res matches PostRequest::Redirect(url) && url@
            == "/posts/"@ + lowercase(slug@) + "/"@),
        lowercase(slug@) == slug@ ==> (res matches PostRequest::Show(s) && s@ == slug@),
        is_ascii_chars(slug@) ==> lowercase(slug@) == slug@.map_values(|c: char| ascii_lower(c)),
{
    let normalized = slug.to_lowercase();
    if slug.to_owned() != normalized {
        let mut url = String::from_str("/posts/");
        url.append(normalized.as_str());
        url.append("/");
        PostRequest::Redirect(url)
    } else {
        PostRequest::Show(normalized)
    }
}

/// What a request for `/posts/<slug>/<attachment>` is answered with.
#[derive(Debug)]
pub enum AttachmentRequest {
    /// A "see other" redirect to the address with the lower-case slug.
    Redirect(String),
    /// Send the attachment with this name of the post with this slug.
    Fetch { slug: String, name: String },
}

/// A slug that is not in lower case is redirected to
/// `/posts/<lower>/<attachment>`; otherwise the attachment is fetched.
pub fn attachment_request(slug: &str, name: &str) -> (res: AttachmentRequest)
    ensures
        lowercase(slug@) != slug@ ==> (res matches AttachmentRequest::Redirect(url) && url@
            == "/posts/"@ + lowercase(slug@) + "/"@ + name@),
        lowercase(slug@) == slug@ ==> (res matches AttachmentRequest::Fetch { slug: s, name: n }
            && s@ == slug@ && n@ == name@),
        is_ascii_chars(slug@) ==> lowercase(slug@) == slug@.map_values(|c: char| ascii_lower(c)),
{
    let normalized = slug.to_lowercase();
    if slug.to_owned() != normalized {
        let mut url = String::from_str("/posts/");
        url.append(normalized.as_str());
        url.append("/");
        url.append(name);
        AttachmentRequest::Redirect(url)
    } else {
        AttachmentRequest::Fetch { slug: normalized, name: name.to_owned() }
    }
}

/// An ASCII slug lower-cased stays ASCII and is its own lower-case form:
/// the address a post request is redirected to is then shown, not
/// redirected again.
pub proof fn law_ascii_redirect_settles(s: Seq<char>)
    requires
        is_ascii_chars(s),
    ensures
        ({
            let t = s.map_values(|c: char| ascii_lower(c));
            is_ascii_chars(t) && t.map_values(|c: char| ascii_lower(c)) == t
        }),
{
    let t = s.map_values(|c: char| ascii_lower(c));
    assert forall|i: int| 0 <= i < t.len() implies '\0' <= #[trigger] t[i] <= '\u{7f}' by {
        assert(t[i] == ascii_lower(s[i]));
    }
    assert(t.map_values(|c: char| ascii_lower(c)) =~= t);
}

/// The address that a path without a trailing `/` is redirected to ends in
/// `/`, so it is served without another redirect.
pub proof fn law_trailing_slash_settles(path: Seq<char>)
    ensures
        (path + "/"@).len() > 0 && (path + "/"@).last() == '/',
{
    reveal_strlit("/");
}

/// A path that does not end in `/` is redirected to the same path with a
/// `/` added; one that does is served as it is.
pub fn trailing_slash_redirect(path: &str) -> (res: Option<String>)
    ensures
        path@.len() > 0 && path@.last() == '/' ==> res is None,
        !(path@.len() > 0 && path@.last() == '/') ==> (res matches Some(target) && target@
            == path@ + "/"@),
{
    let n = path.unicode_len();
    if n > 0 && path.get_char(n - 1) == '/' {
        None
    } else {
        let mut target = path.to_owned();
        target.append("/");
        Some(target)
    }
}

/// The configuration file named on the command line when it holds exactly
/// one argument after the program's name, else `./blog.conf`.
pub fn conf_path(args: &Vec<String>) -> (res: String)
    ensures
        args@.len() == 2 ==> res@ == args@[1]@,
        args@.len() != 2 ==> res@ == "./blog.conf"@,
{
    if args.len() == 2 {
        args[1].clone()
    } else {
        String::from_str("./blog.conf")
    }
}

/// What an entry of the posts directory holds.
#[derive(Debug, Clone, Copy, PartialEq, Eq, Structural)]
pub enum EntryKind {
    /// A file that is not Markdown: passed over.
    Skip,
    /// A Markdown file: one post.
    PostFile,
    /// A directory: one post with its attachments.
    PostDir,
}

/// A regular file is a post when its extension is `md`; anything else is a
/// post directory. (A regular file without a UTF-8 extension is not
/// accepted, as reading such a posts directory fails.)
pub fn classify_entry(is_file: bool, extension: Option<&str>) -> (res: EntryKind)
    requires
        is_file ==> extension is Some,
    ensures
        !is_file ==> res == EntryKind::PostDir,
        is_file ==> (res == EntryKind::PostFile <==> extension->0@ == "md"@),
        is_file ==> (res == EntryKind::Skip <==> extension->0@ != "md"@),
{
    if !is_file {
        EntryKind::PostDir
    } else {
        match extension {
            Some(ext) => {
                if ext.to_owned() == String::from_str("md") {
                    EntryKind::PostFile
                } else {
                    EntryKind::Skip
                }
            },
            None => EntryKind::Skip,
        }
    }
}

} // verus!
