//! Rendering Markdown to HTML, through `pulldown_cmark` and `comrak`.

use vstd::prelude::*;

verus! {

/// What `pulldown_cmark` renders from a Markdown text, with tables,
/// footnotes, task lists, strikethrough and heading attributes enabled.
pub uninterp spec fn pulldown_html(markdown: Seq<char>) -> Seq<char>;

/// Render Markdown to HTML with `pulldown_cmark` (its parser
/// `Parser::new_ext` and `html::push_html`). Heading attributes such as
/// `{#id}` become HTML attributes. The result is named by `pulldown_html`.
#[verifier::external_body]
pub fn markdown_to_html(markdown_input: &str) -> (res: String)
    ensures
        res@ == pulldown_html(markdown_input@),
{
    let options = pulldown_cmark::Options::ENABLE_TABLES | pulldown_cmark::Options::ENABLE_FOOTNOTES | pulldown_cmark::Options::ENABLE_TASKLISTS
        | pulldown_cmark::Options::ENABLE_STRIKETHROUGH | pulldown_cmark::Options::ENABLE_HEADING_ATTRIBUTES;
    let parser = pulldown_cmark::Parser::new_ext(markdown_input, options);
    let mut html_output = String::new();
    pulldown_cmark::html::push_html(&mut html_output, parser);
    html_output
}

/// What `comrak::markdown_to_html` renders from a Markdown text with the
/// blog's options: smart punctuation, `lang` on fenced code, tables,
/// autolinks, superscript, strikethrough, task lists, and heading ids
/// prefixed by `--`.
pub uninterp spec fn comrak_html(markdown: Seq<char>) -> Seq<char>;

/// Render a post body with `comrak::markdown_to_html` and the blog's
/// options. The result is named by `comrak_html`.
#[verifier::external_body]
pub(crate) fn render_post_html(markdown: &str) -> (res: String)
    ensures
        res@ == comrak_html(markdown@),
{
    let mut options = comrak::Options::default();
    options.parse.smart = true;
    options.render.github_pre_lang = true;
    options.extension.table = true;
    options.extension.autolink = true;
    options.extension.superscript = true;
    options.extension.strikethrough = true;
    options.extension.tasklist = true;
    options.extension.header_id_prefix = Some("--".to_string());
    comrak::markdown_to_html(markdown, &options)
}

} // verus!
