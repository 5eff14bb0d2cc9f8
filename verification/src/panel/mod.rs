pub mod common;
pub mod fe;
pub mod groups;
pub mod re;
pub mod layout;
pub mod properties;
