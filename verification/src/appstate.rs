//! The state shared by the request handlers: the loaded blog.

use std::sync::Arc;
use vstd::prelude::*;
use crate::blog::Blog;

verus! {

/// The loaded blog, shared between handlers.
#[derive(Debug, Clone)]
pub struct AppState {
    blog: Arc<Blog>,
}

impl AppState {
    pub closed spec fn blog(&self) -> Blog {
        *self.blog
    }

    pub fn new(blog: Blog) -> (res: Self)
        ensures
            res.blog() == blog,
    {
        AppState { blog: Arc::new(blog) }
    }

    pub fn get_blog(&self) -> (res: &Blog)
        ensures
            *res == self.blog(),
    {
        &self.blog
    }
}

} // verus!
