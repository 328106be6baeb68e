//! Plain data returned by the now-playing metadata service; the core uses
//! it only to pick what to draw. The network calls live outside the
//! library and hand these values in.

use vstd::prelude::*;

verus! {

pub struct SpotifyTokenResponse {
    pub access_token: String,
    pub token_type: String,
    pub expires_in: u64,
    pub refresh_token: String,
}

pub struct ExternalUrls {
    pub spotify: String,
}

pub struct Image {
    pub url: String,
    pub height: Option<u32>,
    pub width: Option<u32>,
}

pub struct Artist {
    pub name: String,
    pub external_urls: ExternalUrls,
}

pub struct Album {
    pub name: String,
    pub images: Vec<Image>,
    pub external_urls: ExternalUrls,
}

pub struct Track {
    pub name: String,
    pub duration_ms: u64,
    pub artists: Vec<Artist>,
    pub album: Album,
    pub external_urls: ExternalUrls,
}

pub struct SpotifyCurrentlyPlaying {
    pub item: Option<Track>,
    pub is_playing: bool,
    pub progress_ms: Option<u64>,
}

} // verus!
