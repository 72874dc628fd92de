//! Settings of the application.

use std::path::PathBuf;
use vstd::prelude::*;

verus! {

/// Declares `std::path::PathBuf` so that a path can be held; nothing is
/// assumed of it.
#[verifier::external_type_specification]
#[verifier::external_body]
pub struct ExPathBuf(std::path::PathBuf);

/// Where the word list and the results database are, and how many of the
/// best words the starting word is drawn from.
pub struct Config {
    pub word_list_path: String,
    pub starting_word_limit: u32,
    pub app_db: PathBuf,
}

impl Config {
    pub fn new(word_list_path: String, starting_word_limit: u32, app_db: PathBuf) -> (r: Self)
        ensures
            r == (Config { word_list_path, starting_word_limit, app_db }),
    {
        Config { word_list_path, starting_word_limit, app_db }
    }

    /// Points the configuration at another results database.
    pub fn update_app_db(&mut self, app_db: PathBuf)
        ensures
            *final(self) == (Config { app_db, ..*old(self) }),
    {
        self.app_db = app_db;
    }
}

} // verus!
