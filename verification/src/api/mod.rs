//! The management API: request and response values, and what each request
//! does to the user store and the domain router.

pub mod handlers;
