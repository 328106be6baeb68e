use gibmon::gibmon_config::{Config, SpotifyConfig};
use gibmon::spotify::{Album, Artist, ExternalUrls, SpotifyCurrentlyPlaying, Track};

#[test]
fn config_hands_out_its_credentials() {
    let config = Config {
        Spotify: SpotifyConfig {
            ClientId: String::from("id"),
            ClientSecret: String::from("secret"),
        },
    };
    let spotify = config.get_spotify_config();
    assert_eq!(spotify.ClientId, "id");
    assert_eq!(spotify.ClientSecret, "secret");
}

#[test]
fn currently_playing_carries_track_data() {
    let playing = SpotifyCurrentlyPlaying {
        item: Some(Track {
            name: String::from("song"),
            duration_ms: 180000,
            artists: vec![Artist {
                name: String::from("artist"),
                external_urls: ExternalUrls { spotify: String::from("url") },
            }],
            album: Album {
                name: String::from("album"),
                images: Vec::new(),
                external_urls: ExternalUrls { spotify: String::from("url") },
            },
            external_urls: ExternalUrls { spotify: String::from("url") },
        }),
        is_playing: true,
        progress_ms: Some(1000),
    };
    assert!(playing.is_playing);
    let track = playing.item.unwrap();
    assert_eq!(track.name, "song");
    assert_eq!(track.artists.len(), 1);
    assert_eq!(track.album.name, "album");
}
