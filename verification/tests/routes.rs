use rblog::appstate::AppState;
use rblog::blog::{Blog, BlogConf, Posts};
use rblog::routes::{
    attachment_request, classify_entry, conf_path, post_request, trailing_slash_redirect,
    AttachmentRequest, EntryKind, PostRequest,
};

#[test]
fn upper_case_slugs_redirect() {
    match post_request("Hello-World") {
        PostRequest::Redirect(url) => {
            assert_eq!(url, "/posts/hello-world/");
            // the law: the target is shown, not redirected again
            match post_request("hello-world") {
                PostRequest::Show(slug) => assert_eq!(slug, "hello-world"),
                other => panic!("{:?}", other),
            }
        }
        other => panic!("{:?}", other),
    }
}

#[test]
fn lower_case_slugs_are_shown() {
    match post_request("welcome") {
        PostRequest::Show(slug) => assert_eq!(slug, "welcome"),
        other => panic!("{:?}", other),
    }
}

#[test]
fn attachments_redirect_and_fetch() {
    match attachment_request("Welcome", "attachment.txt") {
        AttachmentRequest::Redirect(url) => assert_eq!(url, "/posts/welcome/attachment.txt"),
        other => panic!("{:?}", other),
    }
    match attachment_request("welcome", "attachment.txt") {
        AttachmentRequest::Fetch { slug, name } => {
            assert_eq!(slug, "welcome");
            assert_eq!(name, "attachment.txt");
        }
        other => panic!("{:?}", other),
    }
}

#[test]
fn trailing_slash() {
    assert_eq!(trailing_slash_redirect("/posts/welcome"), Some("/posts/welcome/".to_string()));
    assert_eq!(trailing_slash_redirect("/posts/welcome/"), None);
    assert_eq!(trailing_slash_redirect(""), Some("/".to_string()));
    // the law: the target is not redirected again
    let target = trailing_slash_redirect("/a").unwrap();
    assert_eq!(trailing_slash_redirect(&target), None);
}

#[test]
fn configuration_path_from_arguments() {
    let args = vec!["rblog".to_string(), "my.conf".to_string()];
    assert_eq!(conf_path(&args), "my.conf");
    assert_eq!(conf_path(&vec!["rblog".to_string()]), "./blog.conf");
    let args = vec!["rblog".to_string(), "a".to_string(), "b".to_string()];
    assert_eq!(conf_path(&args), "./blog.conf");
}

#[test]
fn directory_entries() {
    assert_eq!(classify_entry(true, Some("md")), EntryKind::PostFile);
    assert_eq!(classify_entry(true, Some("txt")), EntryKind::Skip);
    assert_eq!(classify_entry(false, None), EntryKind::PostDir);
    assert_eq!(classify_entry(false, Some("md")), EntryKind::PostDir);
}

#[test]
fn shared_state_holds_the_blog() {
    let blog = Blog::from_conf(
        BlogConf::new("T".into(), None, None, None, None, None, None),
        Posts::new(),
    );
    let state = AppState::new(blog);
    let cloned = state.clone();
    assert!(cloned.get_blog().get_all_posts().is_empty());
}
