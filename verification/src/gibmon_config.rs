//! Static configuration handed to the core by the configuration loader:
//! the credentials the now-playing metadata fetcher needs.

use vstd::prelude::*;

verus! {

#[allow(non_snake_case)]
pub struct SpotifyConfig {
    pub ClientId: String,
    pub ClientSecret: String,
}

#[allow(non_snake_case)]
pub struct Config {
    pub Spotify: SpotifyConfig,
}

impl Config {
    pub fn get_spotify_config(&self) -> (r: &SpotifyConfig)
        ensures
            *r == self.Spotify,
    {
        &self.Spotify
    }
}

} // verus!
