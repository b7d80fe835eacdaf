//! What the program remembers from one run to the next.

use vstd::prelude::*;

verus! {

/// The settings kept between runs.
#[derive(Debug, PartialEq, Eq)]
pub struct State {
    /// The root directory of the store.
    pub data_dir: String,
    pub background_image_path: Option<String>,
    /// The key of the file that was open last.
    pub last_open_file: Option<String>,
    pub theme: String,
}

impl State {
    /// The settings of a first run: the directory `cache`, the theme
    /// `Default`, no background image and no open file.
    pub fn new() -> (state: State)
        ensures
            state.data_dir@ == "cache"@,
            state.background_image_path is None,
            state.last_open_file is None,
            state.theme@ == "Default"@,
    {
        State {
            data_dir: String::from_str("cache"),
            background_image_path: None,
            last_open_file: None,
            theme: String::from_str("Default"),
        }
    }
}

} // verus!
