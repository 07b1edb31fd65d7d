use sptfydl::catalog::{
    classify_spotify_url, collect_present, enrich_album_tracks, match_artists, release_year,
    AlbumInfo, Extraction, ExternalIds, Image, Metadata, SimplifiedArtist, SpotifyArtist,
    SpotifyTrack, SpotifyUrlKind, Track, UrlError,
};

fn artist(name: &str, genres: &[&str]) -> SpotifyArtist {
    SpotifyArtist {
        name: name.to_string(),
        genres: genres.iter().map(ToString::to_string).collect(),
    }
}

fn simplified(name: &str) -> SimplifiedArtist {
    SimplifiedArtist { name: name.to_string(), id: format!("id-{name}") }
}

fn album() -> AlbumInfo {
    AlbumInfo {
        name: "The Album".to_string(),
        images: vec![Image { url: "https://img/0".to_string() }, Image {
            url: "https://img/1".to_string(),
        }],
        release_date: "1999-10-02".to_string(),
        total_tracks: 12,
    }
}

fn track(name: &str) -> SpotifyTrack {
    SpotifyTrack {
        name: name.to_string(),
        id: format!("sid-{name}"),
        album: Some(album()),
        artists: vec![simplified("A")],
        disc_number: 1,
        explicit: false,
        external_ids: Some(ExternalIds { isrc: format!("isrc-{name}") }),
        track_number: 3,
    }
}

#[test]
fn tag_values_join_names_and_genres() {
    let artists = vec![artist("Ana", &["pop", "rock"]), artist("Bo", &["jazz"])];
    let (names, genres) = Metadata::to_tag_values(artists, "\u{0}");
    assert_eq!(names, "Ana\u{0}Bo");
    assert_eq!(genres, "pop; rock; jazz");
}

#[test]
fn extract_album_reads_the_first_image() {
    let got = SpotifyTrack::extract_album(Some(album())).expect("album present");
    assert_eq!(got.0, "The Album");
    assert_eq!(got.1, "https://img/0");
    assert_eq!(got.2, "1999-10-02");
    assert_eq!(got.3, 12);
    assert!(SpotifyTrack::extract_album(None).is_none());
}

#[test]
fn into_metadata_carries_the_fields() {
    let m = track("Song").into_metadata(vec![artist("Ana", &["pop"])]);
    assert_eq!(m.name, "Song");
    assert_eq!(m.spotify_id, "sid-Song");
    assert_eq!(m.album_name.as_deref(), Some("The Album"));
    assert_eq!(m.cover_url.as_deref(), Some("https://img/0"));
    assert_eq!(m.release_date.as_deref(), Some("1999-10-02"));
    assert_eq!(m.album_tracks, Some(12));
    assert_eq!(m.external_ids.isrc, "isrc-Song");
    assert_eq!(m.track_number, 3);
}

#[test]
fn artists_match_by_name_in_order() {
    let wanted = vec![simplified("Bo"), simplified("Ana")];
    let pool = vec![artist("Ana", &["pop"]), artist("Bo", &["jazz"])];
    let list = match_artists(&wanted, &pool).expect("all present");
    assert_eq!(list.len(), 2);
    assert_eq!(list[0].name, "Bo");
    assert_eq!(list[0].genres, vec!["jazz".to_string()]);
    assert_eq!(list[1].name, "Ana");

    let missing = vec![simplified("Cyn")];
    assert!(match_artists(&missing, &pool).is_none());
}

#[test]
fn enrichment_stamps_album_and_ids() {
    let t = vec![
        SpotifyTrack { album: None, external_ids: None, ..track("a") },
        SpotifyTrack { album: None, external_ids: None, ..track("b") },
    ];
    let full = vec![track("a"), track("b")];
    let out = enrich_album_tracks(t, full, album());
    assert_eq!(out.len(), 2);
    for (got, name) in out.iter().zip(["a", "b"]) {
        assert_eq!(got.name, name);
        assert_eq!(got.album.as_ref().unwrap().name, "The Album");
        assert_eq!(got.external_ids.as_ref().unwrap().isrc, format!("isrc-{name}"));
    }
}

#[test]
fn present_tracks_are_kept_in_order() {
    let items = vec![Some(1u32), None, Some(3), None, Some(5)];
    assert_eq!(collect_present(items), vec![1, 3, 5]);
    let none: Vec<Option<u32>> = vec![None, None];
    assert_eq!(collect_present(none), Vec::<u32>::new());
}

#[test]
fn url_classification() {
    match classify_spotify_url("https://open.spotify.com/track/3n3Ppam7vgaVa1iaRUc9Lp") {
        Ok(SpotifyUrlKind::Track(id)) => assert_eq!(id, "3n3Ppam7vgaVa1iaRUc9Lp"),
        other => panic!("unexpected: {other:?}"),
    }
    match classify_spotify_url("https://open.spotify.com/playlist/37i9dQZF1DXcBWIGoYBM5M") {
        Ok(SpotifyUrlKind::Playlist(id)) => assert_eq!(id, "37i9dQZF1DXcBWIGoYBM5M"),
        other => panic!("unexpected: {other:?}"),
    }
    match classify_spotify_url("https://open.spotify.com/album/6dVIqQ8qmQ5GBnJ9shOYGE") {
        Ok(SpotifyUrlKind::Album(id)) => assert_eq!(id, "6dVIqQ8qmQ5GBnJ9shOYGE"),
        other => panic!("unexpected: {other:?}"),
    }
    assert_eq!(
        classify_spotify_url("https://example.com/track/x").unwrap_err(),
        UrlError::NotSpotify
    );
    assert_eq!(classify_spotify_url("not a url").unwrap_err(), UrlError::Invalid);
    assert_eq!(
        classify_spotify_url("https://open.spotify.com/track").unwrap_err(),
        UrlError::NoId
    );
    assert_eq!(
        classify_spotify_url("https://open.spotify.com/artist/xyz").unwrap_err(),
        UrlError::UnsupportedKind
    );
}

#[test]
fn release_years() {
    assert_eq!(release_year("1999-10-02"), Some(1999));
    assert_eq!(release_year("2024"), Some(2024));
    assert_eq!(release_year("0"), Some(0));
    assert_eq!(release_year(""), None);
    assert_eq!(release_year("-10-02"), None);
    assert_eq!(release_year("19x9-10-02"), None);
    assert_eq!(release_year("99999999999-01-01"), None);
}

#[test]
fn promotion_keeps_every_metadata_field() {
    let urls = vec![
        (4usize, ("https://u/4".to_string(), track("x"))),
        (7usize, ("https://u/7".to_string(), track("y"))),
    ];
    let artists = vec![vec![artist("Ana", &["pop"])], vec![artist("Bo", &["jazz"])]];
    let out = sptfydl::catalog::promote(urls, artists);
    assert_eq!(out.len(), 2);
    assert_eq!(out[0].0, 4);
    assert_eq!(out[0].1.url, "https://u/4");
    let m = &out[1].1.metadata;
    assert_eq!(out[1].0, 7);
    assert_eq!(m.name, "y");
    assert_eq!(m.spotify_id, "sid-y");
    assert_eq!(m.disc_number, 1);
    assert!(!m.explicit);
    assert_eq!(m.track_number, 3);
    assert_eq!(m.external_ids.isrc, "isrc-y");
    assert_eq!(m.album_name.as_deref(), Some("The Album"));
    assert_eq!(m.cover_url.as_deref(), Some("https://img/0"));
    assert_eq!(m.release_date.as_deref(), Some("1999-10-02"));
    assert_eq!(m.album_tracks, Some(12));
    assert_eq!(m.artists.len(), 1);
    assert_eq!(m.artists[0].name, "Bo");
}

#[test]
fn extraction_warnings_point_at_tracks() {
    let t = |name: &str| Track::new(format!("url-{name}"), track(name).into_metadata(vec![]));
    let e = Extraction {
        tracks: vec![(0, t("a")), (1, t("b")), (2, t("c"))],
        name: Some("mix".to_string()),
        warnings: vec![2, 0],
        failures: 0,
    };
    let w = e.warnings();
    assert_eq!(w.len(), 2);
    assert_eq!(w[0].0, 2);
    assert_eq!(w[1].0, 0);
    assert_eq!(w[0].1.url, "url-c");
}

#[test]
fn extraction_assembles_only_with_tracks() {
    let t = Track::new("u".to_string(), track("a").into_metadata(vec![]));
    let some = Extraction::assemble(vec![(0, t)], None, vec![], 2).expect("non-empty");
    assert_eq!(some.failures, 2);
    assert!(Extraction::assemble(vec![], None, vec![], 0).is_none());
}

#[test]
fn artist_into_tuple() {
    let (name, genres) = artist("Ana", &["pop"]).into_tuple();
    assert_eq!(name, "Ana");
    assert_eq!(genres, vec!["pop".to_string()]);
}
