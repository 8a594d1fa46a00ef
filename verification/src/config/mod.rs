pub mod bookmarks;
