pub mod dates;
pub mod num;
pub mod output;
pub mod text;
pub mod tree;
pub mod value;
pub mod plist_buddy;
pub mod plutil;
