pub mod scan;
pub mod highlight;
pub mod text;
pub mod keys;
pub mod creds;
pub mod session;
pub mod auth;
