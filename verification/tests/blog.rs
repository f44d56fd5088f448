use rblog::blog::{
    first_in_path_order, Attachment, Blog, BlogConf, BlogService, DirEntryInfo, Post,
    PostEntry, PostMetadata, Posts, Renderer,
};
use rblog::dates::PostDate;

fn meta(title: &str, slug: Option<&str>, date: Option<i64>) -> PostMetadata {
    PostMetadata {
        title: title.to_string(),
        subtitle: None,
        slug: slug.map(|s| s.to_string()),
        date: date.map(|secs| PostDate { secs, nanos: 0 }),
    }
}

fn conf(page_size: Option<usize>) -> BlogConf {
    BlogConf::new("My Blog".to_string(), page_size, None, None, None, None, None)
}

fn posts(list: Vec<(&str, Option<i64>)>) -> Posts {
    let mut posts = Posts::new();
    for (slug, date) in list {
        posts
            .insert(Post::from_parts(meta(slug, Some(slug), date), "body", Renderer::Comrak))
            .unwrap();
    }
    posts
}

#[test]
fn slug_from_title_when_none_given() {
    let post = Post::from_parts(meta("My Test String!!!1!1", None, None), "x", Renderer::Comrak);
    assert_eq!(post.get_slug(), "my-test-string-1-1");
    assert_eq!(post.get_url(), "/posts/my-test-string-1-1/");
    let post = Post::from_parts(meta("  --test_-_cool", None, None), "x", Renderer::Comrak);
    assert_eq!(post.get_slug(), "test-cool");
}

#[test]
fn given_slug_is_trimmed_and_lower_cased() {
    let post = Post::from_parts(meta("Title", Some("  Hello-World \n"), None), "x", Renderer::Comrak);
    assert_eq!(post.get_slug(), "hello-world");
    assert_eq!(post.get_metadata().get_slug(), Some("hello-world"));
    assert_eq!(post.get_metadata().get_title(), "Title");
}

#[test]
fn content_is_trimmed_and_rendered() {
    let post = Post::from_parts(meta("T", Some("t"), None), "\n\n# Hi\n\nSome *text*.\n  ", Renderer::Comrak);
    assert_eq!(post.get_content(), "# Hi\n\nSome *text*.");
    let html = post.get_html_content();
    assert!(html.contains("<h1"));
    assert!(html.contains("<em>text</em>"));
    assert!(!html.contains("# Hi"));
}

#[test]
fn pulldown_rendering_of_a_post() {
    let post = Post::from_parts(meta("T", Some("t"), None), "# Hi {#top}
", Renderer::Pulldown);
    assert_eq!(post.get_html_content(), "<h1 id=\"top\">Hi</h1>\n");
    assert_eq!(post.get_content(), "# Hi {#top}");
}

#[test]
fn friendly_date() {
    let m = meta("T", None, Some(1704412800));
    assert_eq!(m.get_friendly_date(), Some(" 5-Jan-2024".to_string()));
    assert_eq!(meta("T", None, None).get_friendly_date(), None);
}

#[test]
fn friendly_dates_across_the_calendar() {
    let text = |secs: i64, nanos: u32| PostDate { secs, nanos }.friendly();
    let some = |s: &str| Some(s.to_string());
    assert_eq!(text(-1, 0), some("31-Dec-1969"));
    assert_eq!(text(-62167219200, 0), some(" 1-Jan-0000"));
    assert_eq!(text(253402300799, 0), some("31-Dec-9999"));
    assert_eq!(text(1709164800, 0), some("29-Feb-2024"));
    assert_eq!(text(-2203891200, 0), some(" 1-Mar-1900"));
    assert_eq!(text(951782400, 0), some("29-Feb-2000"));
    // a leap second keeps its date; nanoseconds out of range give none
    assert_eq!(text(1704412859, 1_500_000_000), some(" 5-Jan-2024"));
    assert_eq!(text(1704412800, 1_500_000_000), None);
    assert_eq!(text(0, 2_000_000_000), None);
}

#[test]
fn duplicate_slugs_are_refused() {
    let mut p = posts(vec![("a", None)]);
    let err = p
        .insert(Post::from_parts(meta("A", Some("A"), None), "other", Renderer::Comrak))
        .unwrap_err();
    assert_eq!(err.slug, "a");
    assert_eq!(p.len(), 1);
    assert_eq!(p.get("a").unwrap().get_content(), "body");
    assert!(p.get("b").is_none());
}

#[test]
fn skipped_entries_leave_the_posts_as_they_were() {
    let mut p = posts(vec![("a", Some(1))]);
    assert!(p.add_entry(PostEntry::Skipped).is_ok());
    assert_eq!(p.len(), 1);
    assert!(p
        .add_entry(PostEntry::Loaded(Post::from_parts(meta("B", Some("b"), None), "", Renderer::Comrak)))
        .is_ok());
    assert_eq!(p.len(), 2);
    assert!(p.add_entry(PostEntry::Skipped).is_ok());
    let err = p
        .add_entry(PostEntry::Loaded(Post::from_parts(meta("B2", Some("B"), None), "x", Renderer::Comrak)))
        .unwrap_err();
    assert_eq!(err.slug, "b");
    assert_eq!(p.len(), 2);
    assert_eq!(p.get("b").unwrap().get_metadata().get_title(), "B");
}

#[test]
fn service_lists_posts_it_can_find() {
    let service = BlogService::new(posts(vec![
        ("old", Some(100)),
        ("draft", None),
        ("new", Some(300)),
    ]));
    let keys = service.get_all_posts();
    assert_eq!(keys, vec!["new", "old"]);
    let listed: Vec<&str> = service.posts_in_order().iter().map(|p| p.get_slug()).collect();
    assert_eq!(listed, keys);
    for k in keys {
        assert!(service.get_post(k).unwrap().get_metadata().get_date().is_some());
    }
    assert!(service.get_post("draft").is_some());
}

#[test]
fn listing_is_newest_first_and_skips_undated() {
    let blog = Blog::from_conf(
        conf(None),
        posts(vec![
            ("old", Some(100)),
            ("draft", None),
            ("new", Some(300)),
            ("mid", Some(200)),
            ("mid2", Some(200)),
        ]),
    );
    assert_eq!(blog.get_all_posts(), vec!["new", "mid", "mid2", "old"]);
    let listed: Vec<&str> = blog.posts_in_order().iter().map(|p| p.get_slug()).collect();
    assert_eq!(listed, vec!["new", "mid", "mid2", "old"]);
    assert!(blog.get_post("draft").is_some());
}

#[test]
fn nanoseconds_break_ties() {
    let mut p = Posts::new();
    let mut m = meta("a", Some("a"), Some(10));
    m.date = Some(PostDate { secs: 10, nanos: 5 });
    p.insert(Post::from_parts(m, "", Renderer::Comrak)).unwrap();
    p.insert(Post::from_parts(meta("b", Some("b"), Some(10)), "", Renderer::Comrak)).unwrap();
    let service = BlogService::new(p);
    assert_eq!(service.get_all_posts(), vec!["a", "b"]);
    assert!(service.get_post("b").is_some());
}

#[test]
fn pages_of_the_listing() {
    let blog = Blog::from_conf(
        conf(Some(2)),
        posts(vec![
            ("p1", Some(5)),
            ("p2", Some(4)),
            ("p3", Some(3)),
            ("p4", Some(2)),
            ("p5", Some(1)),
        ]),
    );
    assert_eq!(blog.get_paged_posts(1), vec!["p1", "p2"]);
    assert_eq!(blog.get_paged_posts(2), vec!["p3", "p4"]);
    assert_eq!(blog.get_paged_posts(3), vec!["p5"]);
    assert!(blog.get_paged_posts(4).is_empty());
    // the law: entry i is entry i % size of page i / size + 1
    let all = blog.get_all_posts();
    for (i, slug) in all.iter().enumerate() {
        assert_eq!(blog.get_paged_posts(i / 2 + 1)[i % 2], *slug);
    }
}

#[test]
fn default_page_size_is_five() {
    assert_eq!(conf(None).get_page_size(), 5);
    assert_eq!(conf(Some(3)).get_page_size(), 3);
    let blog = Blog::from_conf(
        conf(None),
        posts((0..7).map(|i| (["a", "b", "c", "d", "e", "f", "g"][i], Some(i as i64))).collect()),
    );
    assert_eq!(blog.get_paged_posts(1).len(), 5);
    assert_eq!(blog.get_paged_posts(2).len(), 2);
    assert_eq!(blog.get_blog_conf().get_title(), "My Blog");
}

#[test]
fn conf_getters_and_default_posts_dir() {
    let c = BlogConf::new(
        "T".to_string(),
        None,
        Some(true),
        None,
        Some("gh".to_string()),
        Some("tw".to_string()),
        None,
    );
    assert_eq!(c.get_post_dir(), None);
    assert_eq!(c.get_github(), Some("gh"));
    assert_eq!(c.get_twitter(), Some("tw"));
    assert_eq!(c.get_disqus(), None);
    let c = c.with_default_posts_dir();
    assert_eq!(c.get_post_dir(), Some("./posts"));
    let c = BlogConf::new("T".into(), None, None, Some("/srv".into()), None, None, None)
        .with_default_posts_dir();
    assert_eq!(c.get_post_dir(), Some("/srv"));
}

#[test]
fn attachments_of_a_post_directory() {
    let mut post = Post::from_parts(meta("T", Some("t"), None), "", Renderer::Comrak);
    let entry = |name: &str, is_file: bool| DirEntryInfo {
        name: Some(name.to_string()),
        is_file,
    };
    post.attach_dir_files(
        "/posts/t",
        vec![
            entry("index.md", true),
            entry("photo.png", true),
            entry("sub", false),
            entry("notes.txt", true),
        ],
        Some("index.md".to_string()),
    );
    assert!(post.get_attachment("index.md").is_none());
    assert!(post.get_attachment("sub").is_none());
    assert_eq!(post.get_attachment("photo.png").unwrap().get_path(), "/posts/t/photo.png");
    assert_eq!(post.get_attachment("notes.txt").unwrap().get_path(), "/posts/t/notes.txt");
    // a second attachment of the same name replaces the first
    post.add_attachment("photo.png".to_string(), Attachment::new("/elsewhere".to_string()));
    assert_eq!(post.get_attachment("photo.png").unwrap().get_path(), "/elsewhere");
}

#[test]
fn attachment_paths_are_joined_to_the_directory() {
    let mut post = Post::from_parts(meta("T", Some("t"), None), "", Renderer::Comrak);
    post.attach_dir_files(
        "posts/t/",
        vec![DirEntryInfo { name: Some("a.png".to_string()), is_file: true }],
        Some("t.md".to_string()),
    );
    assert_eq!(post.get_attachment("a.png").unwrap().get_path(), "posts/t/a.png");
    // where the post's own name is not text, only names that are text differ
    // from it; a name that is not text is not attached
    let mut post = Post::from_parts(meta("T", Some("t"), None), "", Renderer::Comrak);
    post.attach_dir_files(
        "d",
        vec![
            DirEntryInfo { name: None, is_file: true },
            DirEntryInfo { name: Some("b.txt".to_string()), is_file: true },
        ],
        None,
    );
    assert_eq!(post.get_attachment("b.txt").unwrap().get_path(), "d/b.txt");
}

#[test]
fn first_markdown_file_in_path_order() {
    let bytes = |names: &[&str]| names.iter().map(|n| n.as_bytes().to_vec()).collect::<Vec<_>>();
    assert_eq!(first_in_path_order(&bytes(&["b.md", "a.md", "ab.md"])), 1);
    assert_eq!(first_in_path_order(&bytes(&["Z.md", "a.md"])), 0);
    assert_eq!(first_in_path_order(&bytes(&["é.md", "z.md"])), 1);
    // "." sorts before letters; names that are not UTF-8 compare by their bytes
    assert_eq!(first_in_path_order(&bytes(&["ab.md", "a.md"])), 1);
    let names = vec![vec![0xffu8, b'.', b'm', b'd'], b"z.md".to_vec()];
    assert_eq!(first_in_path_order(&names), 1);
}
