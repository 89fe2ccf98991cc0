pub mod baseconv;
pub mod digests;
pub mod hasher;
pub mod hexstr;
pub mod organizer;
pub mod password;
pub mod shortener;
pub mod text;
