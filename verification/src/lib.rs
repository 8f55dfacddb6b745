//! Link expansion for a go-link redirector.
//!
//! A short code such as `nyt` stands for a destination: a URL, or a pattern
//! that is expanded into one for each request. This library computes, for a
//! request, where it leads:
//!
//! - [`model::normalized_id`] gives the key under which a short code is
//!   stored;
//! - [`render::Renderer::path_remainder`] gives what the request adds to the
//!   short code;
//! - [`template`], [`syntax`] and [`eval`] read a destination pattern and
//!   render it, calling the helpers of [`helpers`];
//! - [`query`] folds the request's query parameters into the result and
//!   reads it as a URL;
//! - [`render::Renderer::resolve_redirect`] puts these together.
//!
//! Every function comes with a contract that says what it returns, stated
//! over sequences of characters, and the contracts are machine-checked.
//! What other crates compute (percent-encoding, case folding, regular
//! expressions, calendar dates, URL parsing) is called through small
//! functions whose contracts are taken on trust; each says so.

use vstd::prelude::*;

pub mod clock;
pub mod db;
pub mod escape;
pub mod eval;
pub mod handlers;
pub mod helpers;
pub mod model;
pub mod query;
pub mod render;
pub mod routes;
pub mod syntax;
pub mod template;
pub mod text;

verus! {

/// What a visitor sends to make or change a link.
#[derive(Clone, Debug)]
pub struct CreateUpdateRequest {
    /// The short name, as in `go/short`.
    pub short: String,
    /// The destination: a URL or a pattern that expands to one.
    pub target: String,
}

} // verus!
