//! A small, tree-structured router for building REST APIs.
//!
//! An API is described as a tree of [`MakeRoute`](router::MakeRoute) nodes. Each node
//! declares, on the [`Router`](router::Router) it is given, the middleware, routes and
//! leaves available at that point in the URL path. The router walks the tree one path
//! segment at a time, evaluating declarations in three phases (middleware, then routes
//! while segments remain, then leaves once the path is exhausted), taking the first
//! match in each phase.
//!
//! Declarations name the handlers and conditions of a node by labels.
//! [`RouterHandler::do_handle`](router::RouterHandler::do_handle) decides what is to be
//! done for a request that stands at a node; whoever runs the tree does it, most often
//! asynchronously, and hands what came of it to a [`Walk`](router::walk::Walk), which
//! keeps the middleware that waits for the response.
//!
//! - [`RouterDerived`](router::RouterDerived): paths, path parameters and method leaves.
//! - [`RouterAuthExt`](router::auth::RouterAuthExt): `Authorization` header handling.
//! - [`RouterExt`](router::ext::RouterExt): request bodies, attribute endpoints and
//!   transactional middleware.
//! - [`server`]: what lies between HTTP messages and handlers.
//! - [`echo`], [`files`] and [`todos`]: three small servers.
pub mod buffers;
pub mod echo;
pub mod fields;
pub mod files;
pub mod handler;
pub mod http;
pub mod ids;
pub mod json;
pub mod router;
pub mod server;
pub mod text;
pub mod todos;
pub mod uri_subject;
