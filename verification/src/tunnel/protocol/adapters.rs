//! What each protocol needs to know about its URLs.

pub mod fakehttp;
