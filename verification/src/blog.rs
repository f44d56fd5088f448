//! The blog: its configuration, its posts and their attachments, and the
//! listing of posts newest first.

use vstd::prelude::*;
use crate::dates::{friendly_date_of, friendly_text, in_years_0_to_9999, valid_nanos, PostDate};
use crate::keyed::{
    distinct_keys, keyed_map, lemma_keyed_map, lemma_keyed_map_push,
    lemma_keyed_map_update,
};
use crate::markdown::{comrak_html, markdown_to_html, pulldown_html, render_post_html};
use crate::text::{ascii_slug, is_slug, lowercase, slugify, slugify_result, trimmed};
use vstd::utf8::is_ascii_chars;
use vstd::string::StringSliceAdditionalSpecFns;

verus! {

/// The views of a sequence of string slices.
pub open spec fn str_views(v: Seq<&str>) -> Seq<Seq<char>> {
    v.map_values(|s: &str| s@)
}

/// The page size used where the configuration names none.
pub open spec fn effective_page_size(setting: Option<usize>) -> usize {
    match setting {
        Some(n) => n,
        None => 5,
    }
}

/// Page `page` (counted from 1) of a listing with `size` entries a page.
pub open spec fn page_of(listed: Seq<Seq<char>>, page: int, size: int) -> Seq<Seq<char>> {
    let start = (page - 1) * size;
    let n = listed.len();
    if start >= n {
        Seq::empty()
    } else {
        listed.subrange(start, if n - start > size { start + size } else { n as int })
    }
}

/// With a positive page size, entry `i` of the listing is entry
/// `i % size` of page `i / size + 1`, and every page holds at most `size`
/// entries.
pub proof fn law_page_position(listed: Seq<Seq<char>>, size: int, i: int)
    requires
        size > 0,
        0 <= i < listed.len(),
    ensures
        page_of(listed, i / size + 1, size)[i % size] == listed[i],
        i % size < page_of(listed, i / size + 1, size).len() <= size,
{
    vstd::arithmetic::div_mod::lemma_fundamental_div_mod(i, size);
    vstd::arithmetic::div_mod::lemma_mod_bound(i, size);
    let page = i / size + 1;
    assert((page - 1) * size == (i / size) * size);
    assert(size * (i / size) == (i / size) * size) by (nonlinear_arith);
}

/// A configured page size is used as it is, whatever its value; only a
/// configuration without one pages by 5. The first page holds the first
/// `n` entries of the listing, or all of them where there are fewer.
pub proof fn law_page_size_as_configured(n: usize, listed: Seq<Seq<char>>)
    ensures
        effective_page_size(Some(n)) == n,
        effective_page_size(None) == 5,
        n > 0 ==> page_of(listed, 1, effective_page_size(Some(n)) as int) == listed.subrange(
            0,
            if n < listed.len() {
                n as int
            } else {
                listed.len() as int
            },
        ),
{
}

/// The settings of a blog, read from its configuration file.
#[derive(Debug)]
pub struct BlogConf {
    title: String,
    page_size: Option<usize>,
    enable_drafts: Option<bool>,
    posts_dir: Option<String>,
    github: Option<String>,
    twitter: Option<String>,
    disqus: Option<String>,
}

impl BlogConf {
    pub closed spec fn title_view(&self) -> Seq<char> {
        self.title@
    }

    pub closed spec fn page_size_setting(&self) -> Option<usize> {
        self.page_size
    }

    pub closed spec fn enable_drafts_setting(&self) -> Option<bool> {
        self.enable_drafts
    }

    pub closed spec fn posts_dir_view(&self) -> Option<Seq<char>> {
        self.posts_dir.deep_view()
    }

    pub closed spec fn github_view(&self) -> Option<Seq<char>> {
        self.github.deep_view()
    }

    pub closed spec fn twitter_view(&self) -> Option<Seq<char>> {
        self.twitter.deep_view()
    }

    pub closed spec fn disqus_view(&self) -> Option<Seq<char>> {
        self.disqus.deep_view()
    }

    /// A configuration with the given settings.
    pub fn new(
        title: String,
        page_size: Option<usize>,
        enable_drafts: Option<bool>,
        posts_dir: Option<String>,
        github: Option<String>,
        twitter: Option<String>,
        disqus: Option<String>,
    ) -> (res: Self)
        ensures
            res.title_view() == title@,
            res.page_size_setting() == page_size,
            res.enable_drafts_setting() == enable_drafts,
            res.posts_dir_view() == posts_dir.deep_view(),
            res.github_view() == github.deep_view(),
            res.twitter_view() == twitter.deep_view(),
            res.disqus_view() == disqus.deep_view(),
    {
        BlogConf { title, page_size, enable_drafts, posts_dir, github, twitter, disqus }
    }

    /// The configuration as it stands once loaded: where it names no posts
    /// directory, `./posts`.
    pub fn with_default_posts_dir(self) -> (res: Self)
        ensures
            res.posts_dir_view() == match self.posts_dir_view() {
                Some(d) => Some(d),
                None => Some("./posts"@),
            },
            res.title_view() == self.title_view(),
            res.page_size_setting() == self.page_size_setting(),
            res.enable_drafts_setting() == self.enable_drafts_setting(),
            res.github_view() == self.github_view(),
            res.twitter_view() == self.twitter_view(),
            res.disqus_view() == self.disqus_view(),
    {
        let posts_dir = match self.posts_dir {
            Some(d) => Some(d),
            None => Some(String::from_str("./posts")),
        };
        BlogConf { posts_dir, ..self }
    }

    pub fn get_post_dir(&self) -> (res: Option<&str>)
        ensures
            match res {
                Some(d) => self.posts_dir_view() == Some(d@),
                None => self.posts_dir_view() is None,
            },
    {
        match &self.posts_dir {
            Some(d) => Some(d.as_str()),
            None => None,
        }
    }

    /// The number of posts on a page: the configured one, else 5.
    pub fn get_page_size(&self) -> (res: usize)
        ensures
            res == effective_page_size(self.page_size_setting()),
    {
        match self.page_size {
            Some(n) => n,
            None => 5,
        }
    }

    pub fn get_title(&self) -> (res: &str)
        ensures
            res@ == self.title_view(),
    {
        self.title.as_str()
    }

    pub fn get_enable_drafts(&self) -> (res: Option<bool>)
        ensures
            res == self.enable_drafts_setting(),
    {
        self.enable_drafts
    }

    pub fn get_github(&self) -> (res: Option<&str>)
        ensures
            match res {
                Some(d) => self.github_view() == Some(d@),
                None => self.github_view() is None,
            },
    {
        match &self.github {
            Some(d) => Some(d.as_str()),
            None => None,
        }
    }

    pub fn get_twitter(&self) -> (res: Option<&str>)
        ensures
            match res {
                Some(d) => self.twitter_view() == Some(d@),
                None => self.twitter_view() is None,
            },
    {
        match &self.twitter {
            Some(d) => Some(d.as_str()),
            None => None,
        }
    }

    pub fn get_disqus(&self) -> (res: Option<&str>)
        ensures
            match res {
                Some(d) => self.disqus_view() == Some(d@),
                None => self.disqus_view() is None,
            },
    {
        match &self.disqus {
            Some(d) => Some(d.as_str()),
            None => None,
        }
    }
}

/// The front matter of a post.
#[derive(Debug)]
pub struct PostMetadata {
    pub title: String,
    pub subtitle: Option<String>,
    pub slug: Option<String>,
    pub date: Option<PostDate>,
}

impl PostMetadata {
    pub fn get_title(&self) -> (res: &str)
        ensures
            res@ == self.title@,
    {
        self.title.as_str()
    }

    pub fn get_subtitle(&self) -> (res: Option<&str>)
        ensures
            match res {
                Some(s) => self.subtitle.deep_view() == Some(s@),
                None => self.subtitle is None,
            },
    {
        match &self.subtitle {
            Some(s) => Some(s.as_str()),
            None => None,
        }
    }

    pub fn get_slug(&self) -> (res: Option<&str>)
        ensures
            match res {
                Some(s) => self.slug.deep_view() == Some(s@),
                None => self.slug is None,
            },
    {
        match &self.slug {
            Some(s) => Some(s.as_str()),
            None => None,
        }
    }

    pub fn get_date(&self) -> (res: &Option<PostDate>)
        ensures
            *res == self.date,
    {
        &self.date
    }

    /// The date written as ` 5-Jan-2024`, where the post has one.
    pub fn get_friendly_date(&self) -> (res: Option<String>)
        ensures
            match self.date {
                Some(d) => {
                    &&& res.deep_view() == friendly_date_of(d.secs, d.nanos)
                    &&& !valid_nanos(d.secs as int, d.nanos as int) ==> res is None
                    &&& valid_nanos(d.secs as int, d.nanos as int) && in_years_0_to_9999(
                        d.secs as int,
                    ) ==> res.deep_view() == Some(friendly_text(d.secs as int))
                },
                None => res is None,
            },
    {
        match &self.date {
            Some(d) => d.friendly(),
            None => None,
        }
    }
}

/// A file that belongs to a post.
#[derive(Debug)]
pub struct Attachment {
    path: String,
}

impl Attachment {
    pub closed spec fn path_view(&self) -> Seq<char> {
        self.path@
    }

    pub fn new(path: String) -> (res: Self)
        ensures
            res.path_view() == path@,
    {
        Attachment { path }
    }

    pub fn get_path(&self) -> (res: &str)
        ensures
            res@ == self.path_view(),
    {
        self.path.as_str()
    }
}

/// A file found in a post's directory: its name (`None` where the name is
/// not valid UTF-8) and whether it is a regular file.
#[derive(Debug)]
pub struct DirEntryInfo {
    pub name: Option<String>,
    pub is_file: bool,
}

/// The path of `name` inside the directory `dir`, as `std::path::Path::join`
/// forms it on the platform the crate is built for.
pub uninterp spec fn path_joined(dir: Seq<char>, name: Seq<char>) -> Seq<char>;

/// `std::path::Path::join`: the path of `name` inside `dir`, named by
/// `path_joined`. Both are UTF-8, so the joined path is too and the text
/// conversion loses nothing. std documents that reading a directory gives
/// each entry this path: the directory joined with the entry's file name.
#[verifier::external_body]
fn join_path(dir: &str, name: &str) -> (res: String)
    ensures
        res@ == path_joined(dir@, name@),
{
    std::path::Path::new(dir).join(name).to_string_lossy().into_owned()
}

/// A file name as text, where it has one.
pub open spec fn name_view(name: Option<String>) -> Option<Seq<char>> {
    match name {
        Some(s) => Some(s@),
        None => None,
    }
}

/// Whether two file names are the same (two names that are not UTF-8 text
/// count as the same, as their paths' text does).
fn same_name(a: &Option<String>, b: &Option<String>) -> (res: bool)
    ensures
        res == (name_view(*a) == name_view(*b)),
{
    match (a, b) {
        (Some(x), Some(y)) => *x == *y,
        (None, None) => true,
        _ => false,
    }
}

/// The attachments as entries keyed by file name, valued by path.
pub open spec fn attachment_entries(v: Seq<(String, Attachment)>) -> Seq<(Seq<char>, Seq<char>)> {
    v.map_values(|e: (String, Attachment)| (e.0@, e.1.path_view()))
}

/// The slug that a post gets from its front matter: the given one, trimmed
/// and lower-cased, or else the slug of its title.
pub open spec fn normalized_slug(meta: PostMetadata) -> Seq<char> {
    match meta.slug {
        Some(s) => lowercase(trimmed(s@)),
        None => slugify_result(meta.title@),
    }
}

/// The Markdown renderer that a post body goes through: `comrak` with the
/// blog's options, or `pulldown_cmark` as `markdown_to_html` sets it up.
#[derive(Debug, Clone, Copy, PartialEq, Eq, Structural)]
pub enum Renderer {
    Comrak,
    Pulldown,
}

/// The HTML that a renderer makes of a Markdown text.
pub open spec fn rendered_html(renderer: Renderer, markdown: Seq<char>) -> Seq<char> {
    match renderer {
        Renderer::Comrak => comrak_html(markdown),
        Renderer::Pulldown => pulldown_html(markdown),
    }
}

/// A post: its front matter (with a slug), its Markdown body, the body
/// rendered to HTML, and its attachments keyed by file name.
#[derive(Debug)]
pub struct Post {
    metadata: PostMetadata,
    content: String,
    html_content: String,
    attachments: Vec<(String, Attachment)>,
}

impl Post {
    #[verifier::type_invariant]
    spec fn wf(self) -> bool {
        &&& self.metadata.slug is Some
        &&& distinct_keys(attachment_entries(self.attachments@))
    }

    pub closed spec fn meta(&self) -> PostMetadata {
        self.metadata
    }

    pub closed spec fn slug(&self) -> Seq<char> {
        self.metadata.slug->0@
    }

    pub closed spec fn content_view(&self) -> Seq<char> {
        self.content@
    }

    pub closed spec fn html_view(&self) -> Seq<char> {
        self.html_content@
    }

    /// The attachments: file name to path.
    pub closed spec fn attachments_view(&self) -> Map<Seq<char>, Seq<char>> {
        keyed_map(attachment_entries(self.attachments@))
    }

    /// A post from its front matter and the text that follows it.
    ///
    /// The slug is the given one trimmed and lower-cased, or else the slug
    /// of the title; the content is the body trimmed of white space, and the
    /// HTML is that content rendered by `renderer`. A new post has no
    /// attachments.
    pub fn from_parts(metadata: PostMetadata, body: &str, renderer: Renderer) -> (res: Post)
        ensures
            res.meta().title == metadata.title,
            res.meta().subtitle == metadata.subtitle,
            res.meta().date == metadata.date,
            res.meta().slug is Some,
            res.slug() == normalized_slug(metadata),
            metadata.slug is None ==> is_slug(res.slug()),
            metadata.slug is None && is_ascii_chars(metadata.title@) ==> res.slug() == ascii_slug(
                metadata.title@,
            ),
            res.content_view() == trimmed(body@),
            res.html_view() == rendered_html(renderer, trimmed(body@)),
            res.attachments_view() == Map::<Seq<char>, Seq<char>>::empty(),
    {
        let slug = match &metadata.slug {
            Some(s) => s.as_str().trim().to_lowercase(),
            None => slugify(metadata.title.as_str()),
        };
        let content = body.trim();
        let html_content = match renderer {
            Renderer::Comrak => render_post_html(content),
            Renderer::Pulldown => markdown_to_html(content),
        };
        let PostMetadata { title, subtitle, slug: _, date } = metadata;
        let attachments: Vec<(String, Attachment)> = Vec::new();
        proof {
            assert(attachment_entries(attachments@) =~= Seq::empty());
        }
        Post {
            metadata: PostMetadata { title, subtitle, slug: Some(slug), date },
            content: content.to_owned(),
            html_content,
            attachments,
        }
    }

    pub fn get_content(&self) -> (res: &str)
        ensures
            res@ == self.content_view(),
    {
        self.content.as_str()
    }

    pub fn get_html_content(&self) -> (res: &str)
        ensures
            res@ == self.html_view(),
    {
        self.html_content.as_str()
    }

    pub fn get_metadata(&self) -> (res: &PostMetadata)
        ensures
            *res == self.meta(),
    {
        &self.metadata
    }

    /// The post's slug.
    pub fn get_slug(&self) -> (res: &str)
        ensures
            res@ == self.slug(),
    {
        proof {
            use_type_invariant(self);
        }
        match &self.metadata.slug {
            Some(s) => s.as_str(),
            None => "",
        }
    }

    /// The address of the post: `/posts/<slug>/`.
    pub fn get_url(&self) -> (res: String)
        ensures
            res@ == "/posts/"@ + self.slug() + "/"@,
    {
        let mut url = String::from_str("/posts/");
        url.append(self.get_slug());
        url.append("/");
        url
    }

    /// The position of the attachment with this name.
    fn find_attachment(&self, name: &String) -> (res: Option<usize>)
        ensures
            match res {
                Some(i) => i < self.attachments@.len() && self.attachments@[i as int].0@ == name@,
                None => forall|i: int|
                    0 <= i < self.attachments@.len() ==> #[trigger] self.attachments@[i].0@ != name@,
            },
    {
        let n = self.attachments.len();
        for i in 0..n
            invariant
                n == self.attachments@.len(),
                forall|k: int| 0 <= k < i ==> #[trigger] self.attachments@[k].0@ != name@,
        {
            if self.attachments[i].0 == *name {
                return Some(i);
            }
        }
        None
    }

    /// The attachment with this file name, if the post has one.
    pub fn get_attachment(&self, name: &str) -> (res: Option<&Attachment>)
        ensures
            match res {
                Some(a) => self.attachments_view().dom().contains(name@)
                    && self.attachments_view()[name@] == a.path_view(),
                None => !self.attachments_view().dom().contains(name@),
            },
    {
        proof {
            use_type_invariant(self);
        }
        let key = name.to_owned();
        let ghost entries = attachment_entries(self.attachments@);
        proof {
            lemma_keyed_map(entries, name@);
        }
        match self.find_attachment(&key) {
            Some(i) => {
                proof {
                    assert(entries[i as int].0 == name@);
                }
                Some(&self.attachments[i].1)
            },
            None => {
                proof {
                    assert forall|k: int| 0 <= k < entries.len() implies #[trigger] entries[k].0
                        != name@ by {
                        assert(self.attachments@[k].0@ != name@);
                    }
                }
                None
            },
        }
    }

    /// Add an attachment under a file name; one already there under that
    /// name is replaced, as a map insert does.
    pub fn add_attachment(&mut self, name: String, attachment: Attachment)
        ensures
            final(self).attachments_view() == old(self).attachments_view().insert(
                name@,
                attachment.path_view(),
            ),
            final(self).meta() == old(self).meta(),
            final(self).slug() == old(self).slug(),
            final(self).content_view() == old(self).content_view(),
            final(self).html_view() == old(self).html_view(),
    {
        proof {
            use_type_invariant(&*self);
        }
        let ghost entries = attachment_entries(self.attachments@);
        let ghost name_view = name@;
        let ghost path_view = attachment.path_view();
        let found = self.find_attachment(&name);
        let mut items: Vec<(String, Attachment)> = Vec::new();
        proof {
            assert(attachment_entries(items@) =~= Seq::empty());
        }
        std::mem::swap(&mut items, &mut self.attachments);
        match found {
            Some(i) => {
                proof {
                    lemma_keyed_map_update(entries, i as int, path_view);
                    assert(attachment_entries(items@.update(i as int, (name, attachment)))
                        =~= entries.update(i as int, (entries[i as int].0, path_view)));
                }
                items.set(i, (name, attachment));
            },
            None => {
                proof {
                    lemma_keyed_map(entries, name_view);
                    if keyed_map(entries).dom().contains(name_view) {
                        let k = choose|k: int| 0 <= k < entries.len() && #[trigger] entries[k].0 == name_view;
                        assert(items@[k].0@ == name_view);
                    }
                    lemma_keyed_map_push(entries, name_view, path_view);
                    assert(attachment_entries(items@.push((name, attachment)))
                        =~= entries.push((name_view, path_view)));
                }
                items.push((name, attachment));
            },
        }
        self.attachments = items;
    }
}

/// The entry is a regular file other than the post's own file, so it is
/// attached. Entries of one directory are told apart by name: their paths
/// are the directory joined with their names.
pub open spec fn is_attached(e: DirEntryInfo, post_name: Option<Seq<char>>) -> bool {
    e.is_file && name_view(e.name) != post_name
}

/// The attachments after adding, in order, every regular file of `entries`
/// other than the post's own file, under its name, with its path in `dir`.
pub open spec fn with_dir_files(
    m: Map<Seq<char>, Seq<char>>,
    entries: Seq<DirEntryInfo>,
    dir: Seq<char>,
    post_name: Option<Seq<char>>,
) -> Map<Seq<char>, Seq<char>>
    decreases entries.len(),
{
    if entries.len() == 0 {
        m
    } else {
        let e = entries.last();
        let before = with_dir_files(m, entries.drop_last(), dir, post_name);
        if is_attached(e, post_name) {
            before.insert(e.name->Some_0@, path_joined(dir, e.name->Some_0@))
        } else {
            before
        }
    }
}

/// Reading a post's directory attaches only regular files other than the
/// post's own file: every name it adds belongs to such an entry, and it
/// keeps what was attached before, save where an entry of that name
/// replaces it. Every attachment it makes has the path of its name inside
/// the directory, so a post read from a directory (which starts with no
/// attachments) finds each attachment at the directory joined with its
/// name.
pub proof fn law_dir_files_attached(
    m: Map<Seq<char>, Seq<char>>,
    entries: Seq<DirEntryInfo>,
    dir: Seq<char>,
    post_name: Option<Seq<char>>,
    k: Seq<char>,
)
    ensures
        with_dir_files(m, entries, dir, post_name).dom().contains(k) && !m.dom().contains(k)
            ==> exists|i: int|
            0 <= i < entries.len() && #[trigger] is_attached(entries[i], post_name)
                && entries[i].name->Some_0@ == k,
        m.dom().contains(k) ==> with_dir_files(m, entries, dir, post_name).dom().contains(k),
        with_dir_files(m, entries, dir, post_name).dom().contains(k) ==> with_dir_files(
            m,
            entries,
            dir,
            post_name,
        )[k] == path_joined(dir, k) || (m.dom().contains(k) && with_dir_files(
            m,
            entries,
            dir,
            post_name,
        )[k] == m[k]),
        m == Map::<Seq<char>, Seq<char>>::empty() && with_dir_files(
            m,
            entries,
            dir,
            post_name,
        ).dom().contains(k) ==> with_dir_files(m, entries, dir, post_name)[k] == path_joined(
            dir,
            k,
        ),
    decreases entries.len(),
{
    if entries.len() > 0 {
        let t = entries.drop_last();
        law_dir_files_attached(m, t, dir, post_name, k);
        let before = with_dir_files(m, t, dir, post_name);
        if before.dom().contains(k) && !m.dom().contains(k) {
            let i = choose|i: int|
                0 <= i < t.len() && #[trigger] is_attached(t[i], post_name) && t[i].name->Some_0@
                    == k;
            assert(entries[i] == t[i]);
        }
    }
}

/// Every regular file of the directory other than the post's own file is
/// attached: whatever was attached before, the result holds its name with
/// the path of that name inside the directory.
pub proof fn law_every_dir_file_attached(
    m: Map<Seq<char>, Seq<char>>,
    entries: Seq<DirEntryInfo>,
    dir: Seq<char>,
    post_name: Option<Seq<char>>,
    i: int,
)
    requires
        0 <= i < entries.len(),
        entries[i].is_file,
        entries[i].name is Some,
        post_name != Some(entries[i].name->Some_0@),
    ensures
        with_dir_files(m, entries, dir, post_name).dom().contains(entries[i].name->Some_0@),
        with_dir_files(m, entries, dir, post_name)[entries[i].name->Some_0@] == path_joined(
            dir,
            entries[i].name->Some_0@,
        ),
    decreases entries.len(),
{
    if i < entries.len() - 1 {
        law_every_dir_file_attached(m, entries.drop_last(), dir, post_name, i);
        assert(entries.drop_last()[i] == entries[i]);
    }
}

impl Post {
    /// Attach the files of a post's directory `dir`: every regular file
    /// other than the post's own Markdown file (named `post_name`) becomes
    /// an attachment under its file name, which it must have as UTF-8 text,
    /// with its path inside `dir`.
    pub fn attach_dir_files(
        &mut self,
        dir: &str,
        entries: Vec<DirEntryInfo>,
        post_name: Option<String>,
    )
        requires
            forall|i: int|
                0 <= i < entries@.len() && #[trigger] is_attached(entries@[i], name_view(post_name))
                    ==> entries@[i].name is Some,
        ensures
            final(self).attachments_view() == with_dir_files(
                old(self).attachments_view(),
                entries@,
                dir@,
                name_view(post_name),
            ),
            final(self).meta() == old(self).meta(),
            final(self).slug() == old(self).slug(),
            final(self).content_view() == old(self).content_view(),
            final(self).html_view() == old(self).html_view(),
    {
        let ghost start = self.attachments_view();
        let ghost pn = name_view(post_name);
        let n = entries.len();
        proof {
            assert(entries@.subrange(0, 0) =~= Seq::<DirEntryInfo>::empty());
        }
        for i in 0..n
            invariant
                n == entries@.len(),
                pn == name_view(post_name),
                forall|j: int|
                    0 <= j < entries@.len() && #[trigger] is_attached(entries@[j], pn)
                        ==> entries@[j].name is Some,
                self.attachments_view() == with_dir_files(
                    start,
                    entries@.subrange(0, i as int),
                    dir@,
                    pn,
                ),
                self.meta() == old(self).meta(),
                self.slug() == old(self).slug(),
                self.content_view() == old(self).content_view(),
                self.html_view() == old(self).html_view(),
        {
            let e = &entries[i];
            proof {
                assert(entries@.subrange(0, i + 1).drop_last() =~= entries@.subrange(0, i as int));
                assert(entries@.subrange(0, i + 1).last() == *e);
            }
            if e.is_file && !same_name(&e.name, &post_name) {
                proof {
                    assert(is_attached(entries@[i as int], pn));
                }
                if let Some(name) = &e.name {
                    let path = join_path(dir, name.as_str());
                    self.add_attachment(name.clone(), Attachment::new(path));
                }
            }
        }
        proof {
            assert(entries@.subrange(0, n as int) =~= entries@);
        }
    }
}

/// Lexicographic order of byte strings, as `OsStr` and `Path` compare the
/// names of files.
pub open spec fn bytes_lt(a: Seq<u8>, b: Seq<u8>) -> bool
    decreases a.len(),
{
    if a.len() == 0 {
        b.len() > 0
    } else if b.len() == 0 {
        false
    } else if a[0] != b[0] {
        a[0] < b[0]
    } else {
        bytes_lt(a.drop_first(), b.drop_first())
    }
}

proof fn lemma_bytes_lt_skip(a: Seq<u8>, b: Seq<u8>, i: int)
    requires
        0 <= i < a.len(),
        i < b.len(),
        a[i] == b[i],
    ensures
        bytes_lt(a.skip(i), b.skip(i)) == bytes_lt(a.skip(i + 1), b.skip(i + 1)),
{
    assert(a.skip(i).drop_first() =~= a.skip(i + 1));
    assert(b.skip(i).drop_first() =~= b.skip(i + 1));
}

proof fn lemma_bytes_lt_transitive(a: Seq<u8>, b: Seq<u8>, c: Seq<u8>)
    requires
        bytes_lt(a, b),
        bytes_lt(b, c),
    ensures
        bytes_lt(a, c),
    decreases a.len(),
{
    if a.len() > 0 && b.len() > 0 && c.len() > 0 && a[0] == b[0] && b[0] == c[0] {
        lemma_bytes_lt_transitive(a.drop_first(), b.drop_first(), c.drop_first());
    }
}

proof fn lemma_bytes_lt_irreflexive(a: Seq<u8>)
    ensures
        !bytes_lt(a, a),
    decreases a.len(),
{
    if a.len() > 0 {
        lemma_bytes_lt_irreflexive(a.drop_first());
    }
}

/// Names sort byte by byte, whatever their lengths: where two names first
/// differ at a position inside both, the one with the smaller byte there
/// sorts first; a proper prefix sorts before the longer name; no name sorts
/// before itself, and of two different names one sorts first.
pub proof fn law_bytes_order(a: Seq<u8>, b: Seq<u8>, i: int)
    ensures
        0 <= i < a.len() && i < b.len() && a.subrange(0, i) == b.subrange(0, i) && a[i] < b[i]
            ==> bytes_lt(a, b) && !bytes_lt(b, a),
        a.len() < b.len() && a == b.subrange(0, a.len() as int) ==> bytes_lt(a, b) && !bytes_lt(
            b,
            a,
        ),
        !bytes_lt(a, a),
        a != b ==> bytes_lt(a, b) || bytes_lt(b, a),
    decreases a.len(),
{
    lemma_bytes_lt_irreflexive(a);
    if a.len() > 0 && b.len() > 0 {
        if a[0] == b[0] {
            law_bytes_order(a.drop_first(), b.drop_first(), i - 1);
            if 0 < i < a.len() && i < b.len() && a.subrange(0, i) == b.subrange(0, i) {
                assert(a.drop_first().subrange(0, i - 1) =~= a.subrange(0, i).drop_first());
                assert(b.drop_first().subrange(0, i - 1) =~= b.subrange(0, i).drop_first());
            }
            if a.len() < b.len() && a == b.subrange(0, a.len() as int) {
                assert(a.drop_first() =~= b.drop_first().subrange(0, a.len() - 1));
            }
            if a != b {
                if a.drop_first() == b.drop_first() {
                    assert(a =~= seq![a[0]] + a.drop_first());
                    assert(b =~= seq![b[0]] + b.drop_first());
                }
            }
        } else {
            if 0 < i < a.len() && i < b.len() && a.subrange(0, i) == b.subrange(0, i) {
                assert(a.subrange(0, i)[0] == b.subrange(0, i)[0]);
            }
            if a.len() < b.len() && a == b.subrange(0, a.len() as int) {
                assert(a[0] == b.subrange(0, a.len() as int)[0]);
            }
        }
    } else if a.len() == 0 && b.len() == 0 {
        assert(a =~= b);
    }
}

/// Whether file name `a` sorts before file name `b`.
fn name_lt(a: &Vec<u8>, b: &Vec<u8>) -> (res: bool)
    ensures
        res == bytes_lt(a@, b@),
{
    let ghost sa = a@;
    let ghost sb = b@;
    proof {
        assert(sa.skip(0) =~= sa);
        assert(sb.skip(0) =~= sb);
    }
    let mut i: usize = 0;
    while i < a.len() && i < b.len()
        invariant
            a@ == sa,
            b@ == sb,
            i <= sa.len(),
            i <= sb.len(),
            bytes_lt(sa, sb) == bytes_lt(sa.skip(i as int), sb.skip(i as int)),
        decreases sa.len() - i,
    {
        if a[i] != b[i] {
            proof {
                let ta = sa.skip(i as int);
                let tb = sb.skip(i as int);
                assert(ta.len() > 0 && tb.len() > 0);
                assert(ta[0] == sa[i as int]);
                assert(tb[0] == sb[i as int]);
                assert(bytes_lt(ta, tb) == (ta[0] < tb[0]));
            }
            return a[i] < b[i];
        }
        proof {
            lemma_bytes_lt_skip(sa, sb, i as int);
        }
        i = i + 1;
    }
    proof {
        assert(sa.skip(i as int).len() == sa.len() - i);
        assert(sb.skip(i as int).len() == sb.len() - i);
    }
    i == a.len() && i < b.len()
}

/// The position of a file that sorts first by name (byte by byte, as
/// paths in one directory compare): the Markdown file that a post
/// directory is read from.
pub fn first_in_path_order(names: &Vec<Vec<u8>>) -> (res: usize)
    requires
        names@.len() > 0,
    ensures
        res < names@.len(),
        forall|k: int| 0 <= k < names@.len() ==> !bytes_lt(#[trigger] names@[k]@, names@[res as int]@),
{
    let mut best: usize = 0;
    let n = names.len();
    proof {
        lemma_bytes_lt_irreflexive(names@[0]@);
    }
    for i in 1..n
        invariant
            n == names@.len(),
            best < i,
            forall|k: int| 0 <= k < i ==> !bytes_lt(#[trigger] names@[k]@, names@[best as int]@),
    {
        if name_lt(&names[i], &names[best]) {
            proof {
                let bi = names@[i as int]@;
                let bb = names@[best as int]@;
                assert forall|k: int| 0 <= k < i implies !bytes_lt(#[trigger] names@[k]@, bi) by {
                    if bytes_lt(names@[k]@, bi) {
                        lemma_bytes_lt_transitive(names@[k]@, bi, bb);
                    }
                }
                lemma_bytes_lt_irreflexive(bi);
            }
            best = i;
        }
    }
    best
}

/// A post whose slug is already taken.
#[derive(Debug)]
pub struct DuplicatePost {
    pub slug: String,
}

/// The posts as entries keyed by slug.
pub open spec fn post_entries(v: Seq<Post>) -> Seq<(Seq<char>, Post)> {
    v.map_values(|p: Post| (p.slug(), p))
}

/// The posts of a blog, keyed by slug: no two share a slug.
#[derive(Debug)]
pub struct Posts {
    items: Vec<Post>,
}

impl View for Posts {
    type V = Map<Seq<char>, Post>;

    closed spec fn view(&self) -> Map<Seq<char>, Post> {
        keyed_map(post_entries(self.items@))
    }
}

impl Posts {
    #[verifier::type_invariant]
    spec fn wf(self) -> bool {
        distinct_keys(post_entries(self.items@))
    }

    /// The posts in the order they were inserted.
    pub closed spec fn entries(&self) -> Seq<Post> {
        self.items@
    }

    /// No posts.
    pub fn new() -> (res: Self)
        ensures
            res@ == Map::<Seq<char>, Post>::empty(),
            res.entries() == Seq::<Post>::empty(),
            distinct_keys(post_entries(res.entries())),
    {
        let items: Vec<Post> = Vec::new();
        proof {
            assert(post_entries(items@) =~= Seq::empty());
        }
        Posts { items }
    }

    /// The number of posts; their slugs are distinct.
    pub fn len(&self) -> (res: usize)
        ensures
            res == self.entries().len(),
            distinct_keys(post_entries(self.entries())),
    {
        proof {
            use_type_invariant(self);
        }
        self.items.len()
    }

    /// The position of the post with this slug.
    fn find(&self, key: &String) -> (res: Option<usize>)
        ensures
            match res {
                Some(i) => i < self.items@.len() && self.items@[i as int].slug() == key@,
                None => forall|i: int|
                    0 <= i < self.items@.len() ==> #[trigger] self.items@[i].slug() != key@,
            },
    {
        let n = self.items.len();
        for i in 0..n
            invariant
                n == self.items@.len(),
                forall|k: int| 0 <= k < i ==> #[trigger] self.items@[k].slug() != key@,
        {
            let slug = self.items[i].get_slug();
            if slug.to_owned() == *key {
                return Some(i);
            }
        }
        None
    }

    /// The post with this slug, if there is one.
    pub fn get(&self, key: &str) -> (res: Option<&Post>)
        ensures
            match res {
                Some(p) => self@.dom().contains(key@) && self@[key@] == *p,
                None => !self@.dom().contains(key@),
            },
    {
        proof {
            use_type_invariant(self);
        }
        let ghost entries = post_entries(self.items@);
        proof {
            lemma_keyed_map(entries, key@);
        }
        let k = key.to_owned();
        match self.find(&k) {
            Some(i) => {
                proof {
                    assert(entries[i as int].0 == key@);
                }
                Some(&self.items[i])
            },
            None => {
                proof {
                    assert forall|j: int| 0 <= j < entries.len() implies #[trigger] entries[j].0
                        != key@ by {
                        assert(self.items@[j].slug() != key@);
                    }
                }
                None
            },
        }
    }

    /// Add a post under its slug; a slug that is already taken is refused
    /// and the posts are left as they were.
    pub fn insert(&mut self, post: Post) -> (res: Result<(), DuplicatePost>)
        ensures
            old(self)@.dom().contains(post.slug()) ==> {
                &&& res matches Err(e) && e.slug@ == post.slug()
                &&& final(self)@ == old(self)@
                &&& final(self).entries() == old(self).entries()
            },
            !old(self)@.dom().contains(post.slug()) ==> {
                &&& res is Ok
                &&& final(self)@ == old(self)@.insert(post.slug(), post)
                &&& final(self).entries() == old(self).entries().push(post)
            },
            distinct_keys(post_entries(final(self).entries())),
    {
        proof {
            use_type_invariant(&*self);
        }
        let ghost entries = post_entries(self.items@);
        let ghost slug = post.slug();
        proof {
            lemma_keyed_map(entries, slug);
        }
        let key = post.get_slug().to_owned();
        match self.find(&key) {
            Some(i) => {
                proof {
                    assert(entries[i as int].0 == slug);
                }
                Err(DuplicatePost { slug: key })
            },
            None => {
                proof {
                    assert forall|j: int| 0 <= j < entries.len() implies #[trigger] entries[j].0
                        != slug by {
                        assert(self.items@[j].slug() != slug);
                    }
                    lemma_keyed_map_push(entries, slug, post);
                    assert(post_entries(self.items@.push(post)) =~= entries.push((slug, post)));
                }
                let mut items: Vec<Post> = Vec::new();
                proof {
                    assert(post_entries(items@) =~= Seq::empty());
                }
                std::mem::swap(&mut items, &mut self.items);
                items.push(post);
                self.items = items;
                Ok(())
            },
        }
    }
}

/// An entry of the posts directory, once read: passed over, or a post.
#[derive(Debug)]
pub enum PostEntry {
    Skipped,
    Loaded(Post),
}

/// The posts after adding, in order, the posts of `entries` to `m`, or
/// `None` where a post's slug is already taken.
pub open spec fn load_entries(m: Map<Seq<char>, Post>, entries: Seq<PostEntry>) -> Option<
    Map<Seq<char>, Post>,
>
    decreases entries.len(),
{
    if entries.len() == 0 {
        Some(m)
    } else {
        match entries[0] {
            PostEntry::Skipped => load_entries(m, entries.drop_first()),
            PostEntry::Loaded(p) => if m.dom().contains(p.slug()) {
                None
            } else {
                load_entries(m.insert(p.slug(), p), entries.drop_first())
            },
        }
    }
}

/// Entries that are passed over (files that are not Markdown) change
/// nothing: loading with or without one gives the same posts, or the same
/// refusal.
pub proof fn law_skipped_entries_change_nothing(
    m: Map<Seq<char>, Post>,
    before: Seq<PostEntry>,
    after: Seq<PostEntry>,
)
    ensures
        load_entries(m, before + seq![PostEntry::Skipped] + after) == load_entries(m, before + after),
    decreases before.len(),
{
    let with = before + seq![PostEntry::Skipped] + after;
    let without = before + after;
    if before.len() == 0 {
        assert(with.drop_first() =~= after);
        assert(without =~= after);
    } else {
        assert(with[0] == before[0]);
        assert(without[0] == before[0]);
        assert(with.drop_first() =~= before.drop_first() + seq![PostEntry::Skipped] + after);
        assert(without.drop_first() =~= before.drop_first() + after);
        match before[0] {
            PostEntry::Skipped => {
                law_skipped_entries_change_nothing(m, before.drop_first(), after);
            },
            PostEntry::Loaded(p) => {
                if !m.dom().contains(p.slug()) {
                    law_skipped_entries_change_nothing(
                        m.insert(p.slug(), p),
                        before.drop_first(),
                        after,
                    );
                }
            },
        }
    }
}

/// Loading entries in two steps, the second from the posts that the first
/// gave, is loading them all at once; a refusal in the first step stands.
/// So adding the entries of a directory one by one with `add_entry` loads
/// the whole directory.
pub proof fn law_load_entries_in_steps(
    m: Map<Seq<char>, Post>,
    first: Seq<PostEntry>,
    rest: Seq<PostEntry>,
)
    ensures
        load_entries(m, first + rest) == match load_entries(m, first) {
            Some(m2) => load_entries(m2, rest),
            None => None,
        },
    decreases first.len(),
{
    if first.len() == 0 {
        assert(first + rest =~= rest);
    } else {
        assert((first + rest)[0] == first[0]);
        assert((first + rest).drop_first() =~= first.drop_first() + rest);
        match first[0] {
            PostEntry::Skipped => {
                law_load_entries_in_steps(m, first.drop_first(), rest);
            },
            PostEntry::Loaded(p) => {
                if !m.dom().contains(p.slug()) {
                    law_load_entries_in_steps(m.insert(p.slug(), p), first.drop_first(), rest);
                }
            },
        }
    }
}

impl Posts {
    /// Add an entry of the posts directory: one passed over changes
    /// nothing; a post is inserted as `insert` does.
    pub fn add_entry(&mut self, entry: PostEntry) -> (res: Result<(), DuplicatePost>)
        ensures
            load_entries(old(self)@, seq![entry]) == if res is Ok {
                Some(final(self)@)
            } else {
                None::<Map<Seq<char>, Post>>
            },
            res is Err ==> final(self)@ == old(self)@ && final(self).entries() == old(self).entries(),
            entry is Skipped ==> res is Ok && final(self).entries() == old(self).entries(),
            (entry is Loaded && res is Ok) ==> final(self).entries() == old(self).entries().push(
                entry->Loaded_0,
            ),
            distinct_keys(post_entries(final(self).entries())),
    {
        proof {
            use_type_invariant(&*self);
        }
        let ghost e = entry;
        proof {
            assert(seq![e].drop_first() =~= Seq::<PostEntry>::empty());
        }
        let ghost m = self@;
        proof {
            assert(load_entries(m, seq![e].drop_first()) == Some(m));
            if let PostEntry::Loaded(p) = e {
                assert(load_entries(m.insert(p.slug(), p), seq![e].drop_first()) == Some(
                    m.insert(p.slug(), p),
                ));
            }
        }
        match entry {
            PostEntry::Skipped => Ok(()),
            PostEntry::Loaded(post) => self.insert(post),
        }
    }
}

/// The posts map and the posts in insertion order describe the same
/// posts: each post is found under its slug, each key of the map is the
/// slug of a post, and no slug occurs twice. (`Posts::len` states the
/// distinct slugs that this asks for, of any posts.)
pub proof fn lemma_posts_lookup(p: Posts)
    requires
        distinct_keys(post_entries(p.entries())),
    ensures
        forall|i: int|
            0 <= i < p.entries().len() ==> #[trigger] p@.dom().contains(p.entries()[i].slug())
                && p@[p.entries()[i].slug()] == p.entries()[i],
        forall|k: Seq<char>|
            #[trigger] p@.dom().contains(k) ==> exists|i: int|
                0 <= i < p.entries().len() && #[trigger] p.entries()[i].slug() == k,
        forall|i: int, j: int|
            0 <= i < j < p.entries().len() ==> #[trigger] p.entries()[i].slug()
                != #[trigger] p.entries()[j].slug(),
{
    let e = post_entries(p.items@);
    assert forall|i: int| 0 <= i < p.entries().len() implies #[trigger] p@.dom().contains(
        p.entries()[i].slug(),
    ) && p@[p.entries()[i].slug()] == p.entries()[i] by {
        lemma_keyed_map(e, p.entries()[i].slug());
        assert(e[i].0 == p.entries()[i].slug());
    }
    assert forall|k: Seq<char>| #[trigger] p@.dom().contains(k) implies exists|i: int|
        0 <= i < p.entries().len() && #[trigger] p.entries()[i].slug() == k by {
        lemma_keyed_map(e, k);
        let i = choose|i: int| 0 <= i < e.len() && #[trigger] e[i].0 == k;
        assert(p.entries()[i].slug() == k);
    }
    assert forall|i: int, j: int| 0 <= i < j < p.entries().len() implies #[trigger] p.entries()[i].slug()
        != #[trigger] p.entries()[j].slug() by {
        assert(e[i].0 == p.entries()[i].slug() && e[j].0 == p.entries()[j].slug());
    }
}

/// `listed` lists the dated posts of the map `m` by their slugs, each once,
/// newest first: each listed slug is a key of a dated post, no slug is
/// listed twice, every dated post is listed, and no post is newer than one
/// listed before it.
pub open spec fn is_date_listing(m: Map<Seq<char>, Post>, listed: Seq<Seq<char>>) -> bool {
    &&& forall|i: int|
        0 <= i < listed.len() ==> #[trigger] m.dom().contains(listed[i]) && m[listed[i]].meta().date is Some
    &&& forall|i: int, j: int| 0 <= i < j < listed.len() ==> #[trigger] listed[i] != #[trigger] listed[j]
    &&& forall|k: Seq<char>|
        #[trigger] m.dom().contains(k) && m[k].meta().date is Some ==> listed.contains(k)
    &&& forall|i: int, j: int|
        0 <= i < j < listed.len() ==> !(#[trigger] m[listed[j]].meta().date->0).is_after(
            #[trigger] m[listed[i]].meta().date->0,
        )
}

/// A listing of the posts in insertion order is a listing of the posts map.
#[verifier::spinoff_prover]
proof fn lemma_listing_of_map(p: Posts, ord: Seq<usize>)
    requires
        distinct_keys(post_entries(p.entries())),
        is_listing(p.entries(), ord),
        p.entries().len() <= usize::MAX,
    ensures
        is_date_listing(p@, listed_slugs(p.entries(), ord)),
{
    lemma_posts_lookup(p);
    let ps = p.entries();
    let l = listed_slugs(ps, ord);
    assert forall|i: int| 0 <= i < l.len() implies #[trigger] p@.dom().contains(l[i])
        && p@[l[i]].meta().date is Some by {
        assert(ord[i] < ps.len() && dated(ps, ord[i] as int));
        assert(l[i] == ps[ord[i] as int].slug());
        assert(p@.dom().contains(ps[ord[i] as int].slug()));
        assert(p@[ps[ord[i] as int].slug()] == ps[ord[i] as int]);
    }
    assert forall|i: int, j: int| 0 <= i < j < l.len() implies #[trigger] l[i] != #[trigger] l[j] by {
        assert(precedes(ps, ord[i] as int, ord[j] as int));
        assert(ord[i] < ps.len() && ord[j] < ps.len());
        assert(ps[ord[i] as int].slug() != ps[ord[j] as int].slug()) by {
            if ord[i] < ord[j] {
                assert(ps[ord[i] as int].slug() != ps[ord[j] as int].slug());
            } else {
                assert(ps[ord[j] as int].slug() != ps[ord[i] as int].slug());
            }
        }
    }
    assert forall|k: Seq<char>| #[trigger] p@.dom().contains(k) && p@[k].meta().date is Some implies l.contains(k) by {
        let j = choose|j: int| 0 <= j < ps.len() && #[trigger] ps[j].slug() == k;
        assert(p@[ps[j].slug()] == ps[j]);
        assert(dated(ps, j));
        assert(ord.contains(j as usize));
        let a = choose|a: int| 0 <= a < ord.len() && ord[a] == j as usize;
        assert(l[a] == ps[ord[a] as int].slug());
        assert(ord[a] as int == j);
        assert(l[a] == k);
    }
    assert forall|i: int, j: int| 0 <= i < j < l.len() implies !(#[trigger] p@[l[j]].meta().date->0).is_after(
        #[trigger] p@[l[i]].meta().date->0,
    ) by {
        assert(precedes(ps, ord[i] as int, ord[j] as int));
        assert(ord[i] < ps.len() && ord[j] < ps.len());
        assert(l[i] == ps[ord[i] as int].slug());
        assert(l[j] == ps[ord[j] as int].slug());
        assert(p@.dom().contains(ps[ord[i] as int].slug()));
        assert(p@.dom().contains(ps[ord[j] as int].slug()));
        assert(p@[l[i]] == ps[ord[i] as int]);
        assert(p@[l[j]] == ps[ord[j] as int]);
    }
}

/// Post `i` has a date.
pub open spec fn dated(ps: Seq<Post>, i: int) -> bool {
    ps[i].meta().date is Some
}

/// In the listing, post `i` comes before post `j`: it is newer, or as new
/// and was inserted first.
pub open spec fn precedes(ps: Seq<Post>, i: int, j: int) -> bool {
    let a = ps[i].meta().date->0;
    let b = ps[j].meta().date->0;
    a.is_after(b) || (a == b && i < j)
}

/// `ord` lists the dated posts of `ps`, each once, newest first (posts of
/// the same date in the order they were inserted), and nothing else.
pub open spec fn is_listing(ps: Seq<Post>, ord: Seq<usize>) -> bool {
    &&& forall|a: int| 0 <= a < ord.len() ==> #[trigger] ord[a] < ps.len() && dated(ps, ord[a] as int)
    &&& forall|a: int, b: int|
        0 <= a < b < ord.len() ==> precedes(ps, #[trigger] ord[a] as int, #[trigger] ord[b] as int)
    &&& forall|j: int| 0 <= j < ps.len() && dated(ps, j) ==> #[trigger] ord.contains(j as usize)
}

/// The slugs of the listed posts, in listing order.
pub open spec fn listed_slugs(ps: Seq<Post>, ord: Seq<usize>) -> Seq<Seq<char>> {
    ord.map_values(|i: usize| ps[i as int].slug())
}

/// The listing of a set of posts is unique: two sequences that both list
/// the dated posts newest first (ties in insertion order) are the same.
pub proof fn law_listing_unique(ps: Seq<Post>, o1: Seq<usize>, o2: Seq<usize>)
    requires
        is_listing(ps, o1),
        is_listing(ps, o2),
    ensures
        o1 == o2,
{
    assert forall|x: usize| o1.contains(x) <==> o2.contains(x) by {
        if o1.contains(x) {
            let a = choose|a: int| 0 <= a < o1.len() && o1[a] == x;
            assert(o1[a] < ps.len() && dated(ps, o1[a] as int));
            let j = x as int;
            assert(o2.contains(j as usize));
        }
        if o2.contains(x) {
            let a = choose|a: int| 0 <= a < o2.len() && o2[a] == x;
            assert(o2[a] < ps.len() && dated(ps, o2[a] as int));
            let j = x as int;
            assert(o1.contains(j as usize));
        }
    }
    lemma_sorted_unique(ps, o1, o2);
}

/// Two sequences ordered by `precedes`, with the same elements, are equal.
proof fn lemma_sorted_unique(ps: Seq<Post>, o1: Seq<usize>, o2: Seq<usize>)
    requires
        forall|a: int, b: int|
            0 <= a < b < o1.len() ==> precedes(ps, #[trigger] o1[a] as int, #[trigger] o1[b] as int),
        forall|a: int, b: int|
            0 <= a < b < o2.len() ==> precedes(ps, #[trigger] o2[a] as int, #[trigger] o2[b] as int),
        forall|x: usize| o1.contains(x) <==> o2.contains(x),
    ensures
        o1 == o2,
    decreases o1.len(),
{
    if o1.len() == 0 {
        if o2.len() > 0 {
            assert(o2.contains(o2[0]));
        }
        assert(o1 =~= o2);
    } else {
        assert(o1.contains(o1[0]));
        assert(o2.len() > 0);
        assert(o2.contains(o2[0]));
        let b = choose|b: int| 0 <= b < o2.len() && o2[b] == o1[0];
        let a = choose|a: int| 0 <= a < o1.len() && o1[a] == o2[0];
        if a > 0 && b > 0 {
            assert(precedes(ps, o1[0] as int, o1[a] as int));
            assert(precedes(ps, o2[0] as int, o2[b] as int));
        }
        if a > 0 && b == 0 {
            assert(o1[0] == o2[0]);
        }
        assert(o1[0] == o2[0]) by {
            if a > 0 && b > 0 {
                assert(precedes(ps, o1[0] as int, o2[0] as int));
                assert(precedes(ps, o2[0] as int, o1[0] as int));
            }
        }
        let t1 = o1.drop_first();
        let t2 = o2.drop_first();
        assert forall|x: usize| t1.contains(x) <==> t2.contains(x) by {
            if t1.contains(x) {
                let k = choose|k: int| 0 <= k < t1.len() && t1[k] == x;
                assert(o1.contains(x) && o1[k + 1] == x);
                assert(precedes(ps, o1[0] as int, o1[k + 1] as int));
                let m = choose|m: int| 0 <= m < o2.len() && o2[m] == x;
                if m == 0 {
                    assert(o2[0] == o1[0]);
                    assert(false);
                }
                assert(t2[m - 1] == x);
            }
            if t2.contains(x) {
                let k = choose|k: int| 0 <= k < t2.len() && t2[k] == x;
                assert(o2.contains(x) && o2[k + 1] == x);
                assert(precedes(ps, o2[0] as int, o2[k + 1] as int));
                let m = choose|m: int| 0 <= m < o1.len() && o1[m] == x;
                if m == 0 {
                    assert(o2[0] == o1[0]);
                    assert(false);
                }
                assert(t1[m - 1] == x);
            }
        }
        assert forall|a: int, b: int| 0 <= a < b < t1.len() implies precedes(
            ps,
            #[trigger] t1[a] as int,
            #[trigger] t1[b] as int,
        ) by {
            assert(t1[a] == o1[a + 1] && t1[b] == o1[b + 1]);
        }
        assert forall|a: int, b: int| 0 <= a < b < t2.len() implies precedes(
            ps,
            #[trigger] t2[a] as int,
            #[trigger] t2[b] as int,
        ) by {
            assert(t2[a] == o2[a + 1] && t2[b] == o2[b + 1]);
        }
        lemma_sorted_unique(ps, t1, t2);
        assert(o1 =~= o2) by {
            assert forall|k: int| 0 <= k < o1.len() implies o1[k] == o2[k] by {
                if k > 0 {
                    assert(o1[k] == t1[k - 1] && o2[k] == t2[k - 1]);
                }
            }
        }
    }
}

/// In a listing no post is newer than one listed before it.
pub proof fn law_listing_newest_first(ps: Seq<Post>, ord: Seq<usize>)
    requires
        is_listing(ps, ord),
    ensures
        forall|a: int, b: int|
            0 <= a < b < ord.len() ==> !(#[trigger] ps[ord[b] as int].meta().date->0).is_after(
                #[trigger] ps[ord[a] as int].meta().date->0,
            ),
{
    assert forall|a: int, b: int| 0 <= a < b < ord.len() implies !(
    #[trigger] ps[ord[b] as int].meta().date->0).is_after(
        #[trigger] ps[ord[a] as int].meta().date->0,
    ) by {
        assert(precedes(ps, ord[a] as int, ord[b] as int));
    }
}

/// The dated posts of `items`, newest first.
fn listing_order(items: &Vec<Post>) -> (ord: Vec<usize>)
    ensures
        is_listing(items@, ord@),
        items@.len() <= usize::MAX,
{
    let ghost ps = items@;
    let mut ord: Vec<usize> = Vec::new();
    let n = items.len();
    for j in 0..n
        invariant
            n == items@.len(),
            ps == items@,
            forall|a: int| 0 <= a < ord@.len() ==> #[trigger] ord@[a] < j && dated(ps, ord@[a] as int),
            forall|a: int, b: int|
                0 <= a < b < ord@.len() ==> precedes(
                    ps,
                    #[trigger] ord@[a] as int,
                    #[trigger] ord@[b] as int,
                ),
            forall|k: int| 0 <= k < j && dated(ps, k) ==> #[trigger] ord@.contains(k as usize),
    {
        match items[j].get_metadata().get_date() {
            Some(d) => {
                let d = *d;
                let len = ord.len();
                let mut p: usize = 0;
                while p < len
                    invariant
                        len == ord@.len(),
                        p <= len,
                        ps == items@,
                        n == items@.len(),
                        j < n,
                        ps[j as int].meta().date == Some(d),
                        forall|a: int| 0 <= a < ord@.len() ==> #[trigger] ord@[a] < j && dated(ps, ord@[a] as int),
                        forall|a: int| 0 <= a < p ==> !d.is_after(#[trigger] ps[ord@[a] as int].meta().date->0),
                    ensures
                        p <= len,
                        forall|a: int| 0 <= a < p ==> !d.is_after(#[trigger] ps[ord@[a] as int].meta().date->0),
                        p < len ==> d.is_after(ps[ord@[p as int] as int].meta().date->0),
                    decreases len - p,
                {
                    let k = ord[p];
                    let dk = match items[k].get_metadata().get_date() {
                        Some(x) => *x,
                        None => d,
                    };
                    if d.after(&dk) {
                        break;
                    }
                    p = p + 1;
                }
                let ghost old_ord = ord@;
                ord.insert(p, j);
                proof {
                    assert(ord@ =~= old_ord.insert(p as int, j));
                    assert forall|a: int, b: int| 0 <= a < b < ord@.len() implies precedes(
                        ps,
                        #[trigger] ord@[a] as int,
                        #[trigger] ord@[b] as int,
                    ) by {
                        if b < p {
                            assert(ord@[a] == old_ord[a] && ord@[b] == old_ord[b]);
                        } else if b == p {
                            assert(ord@[a] == old_ord[a]);
                        } else if a == p {
                            assert(ord@[b] == old_ord[b - 1]);
                            if b - 1 > p {
                                assert(precedes(ps, old_ord[p as int] as int, old_ord[b - 1] as int));
                            }
                        } else if a < p {
                            assert(ord@[a] == old_ord[a] && ord@[b] == old_ord[b - 1]);
                        } else {
                            assert(ord@[a] == old_ord[a - 1] && ord@[b] == old_ord[b - 1]);
                        }
                    }
                    assert forall|k: int| 0 <= k < j + 1 && dated(ps, k) implies #[trigger] ord@.contains(
                        k as usize,
                    ) by {
                        if k == j {
                            assert(ord@[p as int] == j);
                        } else {
                            assert(old_ord.contains(k as usize));
                            let a = choose|a: int| 0 <= a < old_ord.len() && old_ord[a] == k as usize;
                            if a < p {
                                assert(ord@[a] == k as usize);
                            } else {
                                assert(ord@[a + 1] == k as usize);
                            }
                        }
                    }
                    assert forall|a: int| 0 <= a < ord@.len() implies #[trigger] ord@[a] < j + 1 && dated(
                        ps,
                        ord@[a] as int,
                    ) by {
                        if a < p {
                            assert(ord@[a] == old_ord[a]);
                        } else if a > p {
                            assert(ord@[a] == old_ord[a - 1]);
                        }
                    }
                }
            },
            None => {},
        }
    }
    ord
}

/// The slugs of the listed posts from position `start` up to `end`.
fn listed_slice<'a>(posts: &'a Posts, ord: &Vec<usize>, start: usize, end: usize) -> (res: Vec<
    &'a str,
>)
    requires
        is_listing(posts.entries(), ord@),
        start <= end <= ord@.len(),
    ensures
        str_views(res@) == listed_slugs(posts.entries(), ord@).subrange(start as int, end as int),
{
    let ghost listed = listed_slugs(posts.entries(), ord@);
    let mut res: Vec<&str> = Vec::new();
    let mut i = start;
    while i < end
        invariant
            start <= i <= end,
            end <= ord@.len(),
            is_listing(posts.entries(), ord@),
            listed == listed_slugs(posts.entries(), ord@),
            str_views(res@) == listed.subrange(start as int, i as int),
        decreases end - i,
    {
        let k = ord[i];
        let slug = posts.items[k].get_slug();
        let ghost before = res@;
        res.push(slug);
        proof {
            assert(str_views(res@) =~= str_views(before).push(slug@));
            assert(listed.subrange(start as int, i + 1) =~= listed.subrange(start as int, i as int).push(
                listed[i as int],
            ));
        }
        i = i + 1;
    }
    res
}

/// The listed posts themselves, in the order of the listing.
fn listed_posts<'a>(posts: &'a Posts, ord: &Vec<usize>) -> (res: Vec<&'a Post>)
    requires
        is_listing(posts.entries(), ord@),
    ensures
        res@.len() == ord@.len(),
        forall|i: int|
            0 <= i < res@.len() ==> posts@.dom().contains(
                #[trigger] listed_slugs(posts.entries(), ord@)[i],
            ) && posts@[listed_slugs(posts.entries(), ord@)[i]] == *res@[i],
{
    proof {
        use_type_invariant(posts);
        lemma_posts_lookup(*posts);
    }
    let ghost listed = listed_slugs(posts.entries(), ord@);
    let mut res: Vec<&Post> = Vec::new();
    let n = ord.len();
    for i in 0..n
        invariant
            n == ord@.len(),
            is_listing(posts.entries(), ord@),
            listed == listed_slugs(posts.entries(), ord@),
            res@.len() == i,
            forall|k: int|
                0 <= k < posts.entries().len() ==> #[trigger] posts@.dom().contains(
                    posts.entries()[k].slug(),
                ) && posts@[posts.entries()[k].slug()] == posts.entries()[k],
            forall|a: int|
                0 <= a < i ==> posts@.dom().contains(#[trigger] listed[a]) && posts@[listed[a]]
                    == *res@[a],
    {
        let k = ord[i];
        proof {
            assert(ord@[i as int] < posts.entries().len());
        }
        let ghost before = res@;
        res.push(&posts.items[k]);
        proof {
            assert(listed[i as int] == posts.entries()[k as int].slug());
            assert(posts@.dom().contains(posts.entries()[k as int].slug()));
            assert forall|a: int| 0 <= a < i + 1 implies posts@.dom().contains(#[trigger] listed[a])
                && posts@[listed[a]] == *res@[a] by {
                if a < i {
                    assert(res@[a] == before[a]);
                }
            }
        }
    }
    res
}

/// A blog: its configuration, its posts keyed by slug, and the listing of
/// its dated posts newest first.
#[derive(Debug)]
pub struct Blog {
    conf: BlogConf,
    posts: Posts,
    ordered_posts: Vec<usize>,
}

impl Blog {
    #[verifier::type_invariant]
    spec fn wf(self) -> bool {
        &&& is_listing(self.posts.entries(), self.ordered_posts@)
        &&& self.posts.entries().len() <= usize::MAX
    }

    pub closed spec fn conf(&self) -> BlogConf {
        self.conf
    }

    pub closed spec fn posts(&self) -> Posts {
        self.posts
    }

    /// The slugs of the dated posts, newest first.
    pub closed spec fn listed(&self) -> Seq<Seq<char>> {
        listed_slugs(self.posts.entries(), self.ordered_posts@)
    }

    /// A blog from its configuration and its posts: the posts that have a
    /// date are listed newest first.
    pub fn from_conf(conf: BlogConf, posts: Posts) -> (res: Blog)
        ensures
            res.conf() == conf,
            res.posts() == posts,
            exists|ord: Seq<usize>|
                is_listing(posts.entries(), ord) && res.listed() == listed_slugs(posts.entries(), ord),
            is_date_listing(posts@, res.listed()),
    {
        proof {
            use_type_invariant(&posts);
        }
        let ordered_posts = listing_order(&posts.items);
        proof {
            lemma_listing_of_map(posts, ordered_posts@);
        }
        Blog { conf, posts, ordered_posts }
    }

    pub fn get_blog_conf(&self) -> (res: &BlogConf)
        ensures
            *res == self.conf(),
    {
        &self.conf
    }

    /// The post with this slug, if there is one.
    pub fn get_post(&self, key: &str) -> (res: Option<&Post>)
        ensures
            match res {
                Some(p) => self.posts()@.dom().contains(key@) && self.posts()@[key@] == *p,
                None => !self.posts()@.dom().contains(key@),
            },
    {
        self.posts.get(key)
    }

    /// The slugs of all listed posts, newest first: each is the slug of a
    /// dated post, none twice, and every dated post is there.
    pub fn get_all_posts(&self) -> (res: Vec<&str>)
        ensures
            str_views(res@) == self.listed(),
            forall|i: int| 0 <= i < res@.len() ==> #[trigger] res@[i]@ == self.listed()[i],
            is_date_listing(self.posts()@, str_views(res@)),
    {
        proof {
            use_type_invariant(self);
            use_type_invariant(&self.posts);
        }
        proof {
            lemma_listing_of_map(self.posts, self.ordered_posts@);
        }
        let n = self.ordered_posts.len();
        let res = listed_slice(&self.posts, &self.ordered_posts, 0, n);
        proof {
            assert(self.listed().subrange(0, n as int) =~= self.listed());
        }
        res
    }

    /// The slugs on page `page` (counted from 1): the listing with the
    /// first `(page - 1) * page_size` slugs skipped, at most `page_size` of
    /// them.
    pub fn get_paged_posts(&self, page: usize) -> (res: Vec<&str>)
        requires
            page >= 1,
            (page - 1) * effective_page_size(self.conf().page_size_setting()) <= usize::MAX,
        ensures
            str_views(res@) == page_of(
                self.listed(),
                page as int,
                effective_page_size(self.conf().page_size_setting()) as int,
            ),
    {
        proof {
            use_type_invariant(self);
        }
        let size = self.conf.get_page_size();
        let start = (page - 1) * size;
        let n = self.ordered_posts.len();
        if start >= n {
            let res: Vec<&str> = Vec::new();
            proof {
                assert(str_views(res@) =~= Seq::empty());
            }
            res
        } else {
            let end = if n - start > size {
                start + size
            } else {
                n
            };
            listed_slice(&self.posts, &self.ordered_posts, start, end)
        }
    }

    /// The listed posts themselves, newest first: every listed slug names a
    /// post of the blog.
    pub fn posts_in_order(&self) -> (res: Vec<&Post>)
        ensures
            res@.len() == self.listed().len(),
            forall|i: int|
                0 <= i < res@.len() ==> self.posts()@.dom().contains(#[trigger] self.listed()[i])
                    && self.posts()@[self.listed()[i]] == *res@[i],
    {
        proof {
            use_type_invariant(self);
        }
        listed_posts(&self.posts, &self.ordered_posts)
    }
}

/// The posts of the blog with their listing, as the web application holds
/// them.
#[derive(Debug)]
pub struct BlogService {
    posts: Posts,
    ordered_posts: Vec<usize>,
}

impl BlogService {
    #[verifier::type_invariant]
    spec fn wf(self) -> bool {
        &&& is_listing(self.posts.entries(), self.ordered_posts@)
        &&& self.posts.entries().len() <= usize::MAX
    }

    pub closed spec fn posts(&self) -> Posts {
        self.posts
    }

    /// The slugs of the dated posts, newest first.
    pub closed spec fn listed(&self) -> Seq<Seq<char>> {
        listed_slugs(self.posts.entries(), self.ordered_posts@)
    }

    /// The service over these posts: the dated ones are listed newest first.
    pub fn new(posts: Posts) -> (res: BlogService)
        ensures
            res.posts() == posts,
            exists|ord: Seq<usize>|
                is_listing(posts.entries(), ord) && res.listed() == listed_slugs(posts.entries(), ord),
            is_date_listing(posts@, res.listed()),
    {
        proof {
            use_type_invariant(&posts);
        }
        let ordered_posts = listing_order(&posts.items);
        proof {
            lemma_listing_of_map(posts, ordered_posts@);
        }
        BlogService { posts, ordered_posts }
    }

    /// The slugs of all listed posts, newest first: each is the slug of a
    /// dated post, none twice, and every dated post is there.
    pub fn get_all_posts(&self) -> (res: Vec<&str>)
        ensures
            str_views(res@) == self.listed(),
            forall|i: int| 0 <= i < res@.len() ==> #[trigger] res@[i]@ == self.listed()[i],
            is_date_listing(self.posts()@, str_views(res@)),
    {
        proof {
            use_type_invariant(self);
            use_type_invariant(&self.posts);
            lemma_listing_of_map(self.posts, self.ordered_posts@);
        }
        let n = self.ordered_posts.len();
        let res = listed_slice(&self.posts, &self.ordered_posts, 0, n);
        proof {
            assert(listed_slugs(self.posts.entries(), self.ordered_posts@).subrange(0, n as int)
                =~= self.listed());
        }
        res
    }

    /// The listed posts themselves, newest first: every listed slug names a
    /// post of the blog.
    pub fn posts_in_order(&self) -> (res: Vec<&Post>)
        ensures
            res@.len() == self.listed().len(),
            forall|i: int|
                0 <= i < res@.len() ==> self.posts()@.dom().contains(#[trigger] self.listed()[i])
                    && self.posts()@[self.listed()[i]] == *res@[i],
    {
        proof {
            use_type_invariant(self);
        }
        listed_posts(&self.posts, &self.ordered_posts)
    }
    /// The post with this slug, if there is one.
    pub fn get_post(&self, key: &str) -> (res: Option<&Post>)
        ensures
            match res {
                Some(p) => self.posts()@.dom().contains(key@) && self.posts()@[key@] == *p,
                None => !self.posts()@.dom().contains(key@),
            },
    {
        self.posts.get(key)
    }
}

} // verus!
