use vstd::prelude::*;

verus! {

/// A named list of track paths.
pub struct Playlist {
    pub name: String,
    pub tracks: Vec<String>,
}

impl Playlist {
    /// An empty playlist named `name`.
    pub fn new(name: &str) -> (p: Playlist)
        ensures
            p.name@ == name@,
            p.tracks@.len() == 0,
    {
        Playlist { name: name.to_owned(), tracks: Vec::new() }
    }
}

} // verus!
