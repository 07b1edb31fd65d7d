//! The catalog-side data model: tracks, artists, albums and track metadata,
//! with the pure logic that shapes them — album extraction, artist matching,
//! tag-value building, URL classification and release-year parsing.

use vstd::prelude::*;

use crate::strscan::{has_prefix, has_suffix, split_of, split_str, str_ends_with, str_starts_with};
use crate::textutil::{join, join_of};

verus! {

/// One cover image of an album.
pub struct Image {
    pub url: String,
}

/// External identifiers of a track.
pub struct ExternalIds {
    pub isrc: String,
}

/// An artist as the catalog lists it on a track: name and id only.
pub struct SimplifiedArtist {
    pub name: String,
    pub id: String,
}

/// A full artist record: display name and genres.
pub struct SpotifyArtist {
    pub name: String,
    pub genres: Vec<String>,
}

/// The album fields a track's metadata draws on.
pub struct AlbumInfo {
    pub name: String,
    pub images: Vec<Image>,
    pub release_date: String,
    pub total_tracks: u32,
}

/// A catalog track, with the fields this tool reads.
pub struct SpotifyTrack {
    pub name: String,
    pub id: String,
    pub album: Option<AlbumInfo>,
    pub artists: Vec<SimplifiedArtist>,
    pub disc_number: u32,
    pub explicit: bool,
    pub external_ids: Option<ExternalIds>,
    pub track_number: u32,
}

/// The tag metadata of one fetched track.
pub struct Metadata {
    pub cover_url: Option<String>,
    pub disc_number: u32,
    /// Genres are found here.
    pub artists: Vec<SpotifyArtist>,
    pub spotify_id: String,
    pub name: String,
    pub explicit: bool,
    pub external_ids: ExternalIds,
    pub track_number: u32,
    pub album_name: Option<String>,
    pub album_tracks: Option<u32>,
    /// Year-month-day.
    pub release_date: Option<String>,
}

/// A resolved track: its resource url and its tag metadata.
pub struct Track {
    pub url: String,
    pub metadata: Metadata,
}

impl Track {
    /// Pair a resource url with its metadata.
    pub fn new(url: String, metadata: Metadata) -> (r: Self)
        ensures
            r.url == url,
            r.metadata == metadata,
    {
        Track { url, metadata }
    }
}

/// The outcome of the resolution stage, as the fetch stage consumes it.
pub struct Extraction {
    /// Resolved tracks with their original indices.
    pub tracks: Vec<(usize, Track)>,
    /// The collection's display name, if the source was a collection.
    pub name: Option<String>,
    /// Positions into `tracks` whose match used a fallback candidate.
    pub warnings: Vec<usize>,
    /// How many tracks failed to resolve.
    pub failures: usize,
}

impl Extraction {
    /// The tracks the warnings point at.
    pub fn warnings(&self) -> (r: Vec<&(usize, Track)>)
        requires
            forall|j: int|
                0 <= j < self.warnings@.len() ==> (#[trigger] self.warnings@[j])
                    < self.tracks@.len(),
        ensures
            r@.len() == self.warnings@.len(),
            forall|j: int|
                0 <= j < r@.len() ==> #[trigger] r@[j] == self.tracks@[self.warnings@[j] as int],
    {
        let mut r: Vec<&(usize, Track)> = Vec::new();
        let mut j: usize = 0;
        while j < self.warnings.len()
            invariant
                j <= self.warnings@.len(),
                r@.len() == j,
                forall|q: int|
                    0 <= q < self.warnings@.len() ==> (#[trigger] self.warnings@[q])
                        < self.tracks@.len(),
                forall|q: int|
                    0 <= q < j ==> #[trigger] r@[q] == self.tracks@[self.warnings@[q] as int],
            decreases self.warnings@.len() - j,
        {
            r.push(&self.tracks[self.warnings[j]]);
            j = j + 1;
        }
        r
    }
}

impl SpotifyArtist {
    /// This artist as the pair of its tag values.
    pub fn into_tuple(self) -> (r: (String, Vec<String>))
        ensures
            r.0 == self.name,
            r.1 == self.genres,
    {
        (self.name, self.genres)
    }

    /// A field-equal copy.
    pub fn duplicate(&self) -> (r: SpotifyArtist)
        ensures
            r.name == self.name,
            r.genres@ == self.genres@,
    {
        let mut genres: Vec<String> = Vec::new();
        let mut j: usize = 0;
        while j < self.genres.len()
            invariant
                j <= self.genres@.len(),
                genres@.len() == j,
                forall|q: int| 0 <= q < j ==> #[trigger] genres@[q] == self.genres@[q],
            decreases self.genres@.len() - j,
        {
            genres.push(self.genres[j].clone());
            j = j + 1;
        }
        proof {
            assert(genres@ =~= self.genres@);
        }
        SpotifyArtist { name: self.name.clone(), genres }
    }
}

/// The names of the artists, in order.
pub open spec fn artist_names_of(s: Seq<SpotifyArtist>) -> Seq<Seq<char>> {
    s.map_values(|a: SpotifyArtist| a.name@)
}

/// All genres of the artists, flattened in order.
pub open spec fn all_genres_of(s: Seq<SpotifyArtist>) -> Seq<Seq<char>>
    decreases s.len(),
{
    if s.len() == 0 {
        Seq::empty()
    } else {
        all_genres_of(s.drop_last()) + s.last().genres.deep_view()
    }
}

impl Metadata {
    /// Turn the artists into the two tag values: the names joined by
    /// `separator`, and every genre joined by a semicolon.
    pub fn to_tag_values(artists: Vec<SpotifyArtist>, separator: &str) -> (r: (String, String))
        ensures
            r.0@ == join_of(artist_names_of(artists@), separator@),
            r.1@ == join_of(all_genres_of(artists@), "; "@),
    {
        let mut names: Vec<String> = Vec::new();
        let mut genres: Vec<String> = Vec::new();
        let mut i: usize = 0;
        while i < artists.len()
            invariant
                i <= artists@.len(),
                names.deep_view() == artist_names_of(artists@.subrange(0, i as int)),
                genres.deep_view() == all_genres_of(artists@.subrange(0, i as int)),
            decreases artists@.len() - i,
        {
            let ghost pre_names = names.deep_view();
            names.push(artists[i].name.clone());
            proof {
                assert(names.deep_view() =~= pre_names.push(artists@[i as int].name@));
                assert(artist_names_of(artists@.subrange(0, i as int + 1)) =~= pre_names.push(
                    artists@[i as int].name@,
                ));
            }
            let ghost base = genres.deep_view();
            let mut j: usize = 0;
            while j < artists[i].genres.len()
                invariant
                    i < artists@.len(),
                    j <= artists@[i as int].genres@.len(),
                    genres.deep_view() == base + artists@[i as int].genres.deep_view().subrange(
                        0,
                        j as int,
                    ),
                decreases artists@[i as int].genres@.len() - j,
            {
                let ghost gv = artists@[i as int].genres.deep_view();
                genres.push(artists[i].genres[j].clone());
                proof {
                    assert(genres.deep_view() =~= (base + gv.subrange(0, j as int)).push(
                        gv[j as int],
                    ));
                    assert(base + gv.subrange(0, j as int + 1) =~= (base + gv.subrange(
                        0,
                        j as int,
                    )).push(gv[j as int]));
                }
                j = j + 1;
            }
            proof {
                let gv = artists@[i as int].genres.deep_view();
                assert(gv.subrange(0, gv.len() as int) =~= gv);
                assert(artists@.subrange(0, i as int + 1).drop_last() =~= artists@.subrange(
                    0,
                    i as int,
                ));
                assert(artists@.subrange(0, i as int + 1).last() == artists@[i as int]);
            }
            i = i + 1;
        }
        proof {
            assert(artists@.subrange(0, artists@.len() as int) =~= artists@);
        }
        (join(&names, separator), join(&genres, "; "))
    }
}

impl SpotifyTrack {
    /// The album fields a tag draws on: name, cover url, release date and
    /// track total. `None` when the track carries no album.
    pub fn extract_album(album: Option<AlbumInfo>) -> (r: Option<(String, String, String, u32)>)
        requires
            album matches Some(a) ==> a.images@.len() >= 1,
        ensures
            match album {
                None => r is None,
                Some(a) => (r matches Some(t) && t.0 == a.name && t.1 == a.images@[0].url && t.2
                    == a.release_date && t.3 == a.total_tracks),
            },
    {
        match album {
            None => None,
            Some(a) => {
                let AlbumInfo { name, mut images, release_date, total_tracks } = a;
                let cover = images.swap_remove(0);
                Some((name, cover.url, release_date, total_tracks))
            },
        }
    }

    /// Turn this track into tag metadata, with the given full artists.
    pub fn into_metadata(self, artists: Vec<SpotifyArtist>) -> (r: Metadata)
        requires
            self.external_ids is Some,
            self.album matches Some(a) ==> a.images@.len() >= 1,
        ensures
            r.artists == artists,
            r.disc_number == self.disc_number,
            r.name == self.name,
            r.spotify_id == self.id,
            r.explicit == self.explicit,
            self.external_ids matches Some(e) ==> r.external_ids == e,
            r.track_number == self.track_number,
            match self.album {
                None => (r.album_name is None && r.cover_url is None && r.release_date is None
                    && r.album_tracks is None),
                Some(a) => (r.album_name == Some(a.name) && r.cover_url == Some(
                    a.images@[0].url,
                ) && r.release_date == Some(a.release_date) && r.album_tracks == Some(
                    a.total_tracks,
                )),
            },
    {
        let SpotifyTrack {
            name,
            id,
            album,
            artists: _,
            disc_number,
            explicit,
            external_ids,
            track_number,
        } = self;
        let (album_name, cover_url, release_date, album_tracks) =
            match SpotifyTrack::extract_album(album) {
            Some(a) => (Some(a.0), Some(a.1), Some(a.2), Some(a.3)),
            None => (None, None, None, None),
        };
        let ids = external_ids.unwrap();
        Metadata {
            artists,
            disc_number,
            name,
            spotify_id: id,
            explicit,
            external_ids: ids,
            track_number,
            album_name,
            cover_url,
            release_date,
            album_tracks,
        }
    }
}

/// The first artist in `pool` carrying `name`.
pub open spec fn first_with_name(pool: Seq<SpotifyArtist>, name: Seq<char>) -> Option<
    SpotifyArtist,
>
    decreases pool.len(),
{
    if pool.len() == 0 {
        None
    } else if pool.first().name@ == name {
        Some(pool.first())
    } else {
        first_with_name(pool.drop_first(), name)
    }
}

/// Position `j` of `list` holds a field-equal copy of the first artist in
/// `pool` named like the wanted artist at `j`.
pub open spec fn matched_at(
    list: Seq<SpotifyArtist>,
    pool: Seq<SpotifyArtist>,
    wanted: Seq<SimplifiedArtist>,
    j: int,
) -> bool {
    match first_with_name(pool, wanted[j].name@) {
        Some(a) => list[j].name@ == a.name@ && list[j].genres@.len() == a.genres@.len()
            && list[j].genres.deep_view() == a.genres.deep_view(),
        None => false,
    }
}

/// Match each wanted artist to the first fetched artist of the same name.
/// `None` when some wanted artist was not fetched at all.
pub fn match_artists(wanted: &Vec<SimplifiedArtist>, pool: &Vec<SpotifyArtist>) -> (r: Option<
    Vec<SpotifyArtist>,
>)
    ensures
        match r {
            Some(list) => {
                &&& list@.len() == wanted@.len()
                &&& forall|j: int|
                    0 <= j < wanted@.len() ==> #[trigger] matched_at(list@, pool@, wanted@, j)
            },
            None => exists|j: int|
                0 <= j < wanted@.len() && first_with_name(
                    pool@,
                    (#[trigger] wanted@[j]).name@,
                ) is None,
        },
{
    let mut list: Vec<SpotifyArtist> = Vec::new();
    let mut j: usize = 0;
    while j < wanted.len()
        invariant
            j <= wanted@.len(),
            list@.len() == j,
            forall|q: int| 0 <= q < j ==> #[trigger] matched_at(list@, pool@, wanted@, q),
        decreases wanted@.len() - j,
    {
        let mut i: usize = 0;
        let mut found: Option<&SpotifyArtist> = None;
        proof {
            assert(pool@.skip(0) =~= pool@);
        }
        while i < pool.len()
            invariant_except_break
                found is None,
                first_with_name(pool@, wanted@[j as int].name@) == first_with_name(
                    pool@.skip(i as int),
                    wanted@[j as int].name@,
                ),
            invariant
                i <= pool@.len(),
                j < wanted@.len(),
            ensures
                match found {
                    Some(a) => first_with_name(pool@, wanted@[j as int].name@) == Some(*a),
                    None => first_with_name(pool@, wanted@[j as int].name@) is None,
                },
            decreases pool@.len() - i,
        {
            proof {
                assert(pool@.skip(i as int).first() == pool@[i as int]);
                assert(pool@.skip(i as int).drop_first() =~= pool@.skip(i as int + 1));
            }
            if pool[i].name == wanted[j].name {
                found = Some(&pool[i]);
                proof {
                    assert(first_with_name(pool@.skip(i as int), wanted@[j as int].name@)
                        == Some(pool@[i as int]));
                }
                break;
            }
            i = i + 1;
        }
        match found {
            Some(a) => {
                let ghost pre_list = list@;
                let copy = a.duplicate();
                proof {
                    assert(copy.genres.deep_view() =~= a.genres.deep_view());
                }
                list.push(copy);
                proof {
                    assert(matched_at(list@, pool@, wanted@, j as int));
                    assert forall|q: int| 0 <= q < j + 1 implies #[trigger] matched_at(
                        list@,
                        pool@,
                        wanted@,
                        q,
                    ) by {
                        if q < j {
                            assert(list@[q] == pre_list[q]);
                            assert(matched_at(pre_list, pool@, wanted@, q));
                        }
                    }
                }
            },
            None => {
                return None;
            },
        }
        j = j + 1;
    }
    Some(list)
}

impl AlbumInfo {
    /// A field-equal copy, for stamping the same album onto many tracks.
    pub fn duplicate(&self) -> (r: AlbumInfo)
        ensures
            album_like(r, *self),
    {
        let mut images: Vec<Image> = Vec::new();
        let mut j: usize = 0;
        while j < self.images.len()
            invariant
                j <= self.images@.len(),
                images@.len() == j,
                forall|q: int|
                    0 <= q < j ==> (#[trigger] images@[q]).url == self.images@[q].url,
            decreases self.images@.len() - j,
        {
            images.push(Image { url: self.images[j].url.clone() });
            j = j + 1;
        }
        AlbumInfo {
            name: self.name.clone(),
            images,
            release_date: self.release_date.clone(),
            total_tracks: self.total_tracks,
        }
    }
}

/// The two albums agree in every field a tag draws on.
pub open spec fn album_like(a: AlbumInfo, b: AlbumInfo) -> bool {
    &&& a.name == b.name
    &&& a.release_date == b.release_date
    &&& a.total_tracks == b.total_tracks
    &&& a.images@.len() == b.images@.len()
    &&& forall|q: int| 0 <= q < a.images@.len() ==> (#[trigger] a.images@[q]).url == b.images@[q].url
}

/// The enriched track keeps its own fields, takes the external ids of its
/// full record, and carries the album.
pub open spec fn enriched_at(
    r: SpotifyTrack,
    t: SpotifyTrack,
    f: SpotifyTrack,
    album: AlbumInfo,
) -> bool {
    &&& r.name == t.name
    &&& r.id == t.id
    &&& r.artists == t.artists
    &&& r.disc_number == t.disc_number
    &&& r.explicit == t.explicit
    &&& r.track_number == t.track_number
    &&& r.external_ids == f.external_ids
    &&& (r.album matches Some(al) && album_like(al, album))
}

/// Stamp the album onto its tracks and copy each track's external ids over
/// from the corresponding full record.
pub fn enrich_album_tracks(
    tracks: Vec<SpotifyTrack>,
    full: Vec<SpotifyTrack>,
    album: AlbumInfo,
) -> (r: Vec<SpotifyTrack>)
    requires
        tracks@.len() == full@.len(),
    ensures
        r@.len() == tracks@.len(),
        forall|j: int|
            0 <= j < r@.len() ==> enriched_at(#[trigger] r@[j], tracks@[j], full@[j], album),
{
    let ghost tracks_v = tracks@;
    let ghost full_v = full@;
    let mut rest_t = tracks;
    let mut rest_f = full;
    let mut out: Vec<SpotifyTrack> = Vec::new();
    proof {
        assert(rest_t@ =~= tracks_v.subrange(0, tracks_v.len() as int));
        assert(rest_f@ =~= full_v.subrange(0, full_v.len() as int));
    }
    while rest_t.len() > 0
        invariant
            out@.len() + rest_t@.len() == tracks_v.len(),
            rest_f@.len() == rest_t@.len(),
            full_v.len() == tracks_v.len(),
            rest_t@ == tracks_v.subrange(out@.len() as int, tracks_v.len() as int),
            rest_f@ == full_v.subrange(out@.len() as int, full_v.len() as int),
            forall|q: int|
                0 <= q < out@.len() ==> enriched_at(
                    #[trigger] out@[q],
                    tracks_v[q],
                    full_v[q],
                    album,
                ),
        decreases rest_t@.len(),
    {
        let ghost done = out@.len() as int;
        let ghost pre_t = rest_t@;
        let ghost pre_f = rest_f@;
        let t = rest_t.remove(0);
        let f = rest_f.remove(0);
        proof {
            assert(t == tracks_v[done]);
            assert(f == full_v[done]);
            assert(pre_t.remove(0) =~= tracks_v.subrange(done + 1, tracks_v.len() as int));
            assert(pre_f.remove(0) =~= full_v.subrange(done + 1, full_v.len() as int));
        }
        let al = album.duplicate();
        out.push(
            SpotifyTrack {
                name: t.name,
                id: t.id,
                album: Some(al),
                artists: t.artists,
                disc_number: t.disc_number,
                explicit: t.explicit,
                external_ids: f.external_ids,
                track_number: t.track_number,
            },
        );
        proof {
            assert(enriched_at(out@[done], tracks_v[done], full_v[done], album));
        }
    }
    out
}

/// The present values, in order.
pub open spec fn present_of<T>(s: Seq<Option<T>>) -> Seq<T>
    decreases s.len(),
{
    if s.len() == 0 {
        Seq::empty()
    } else {
        present_of(s.drop_last()) + match s.last() {
            Some(t) => seq![t],
            None => Seq::empty(),
        }
    }
}

/// Keep the present values: a collection listing may hold empty slots for
/// items that are gone.
pub fn collect_present<T>(items: Vec<Option<T>>) -> (r: Vec<T>)
    ensures
        r@ == present_of(items@),
{
    let ghost items_v = items@;
    let mut rest = items;
    let mut out: Vec<T> = Vec::new();
    proof {
        assert(rest@ =~= items_v.subrange(0, items_v.len() as int));
        assert(items_v.subrange(0, 0) =~= Seq::<Option<T>>::empty());
    }
    while rest.len() > 0
        invariant
            exists|t: int|
                0 <= t <= items_v.len() && rest@ == items_v.subrange(t, items_v.len() as int)
                    && #[trigger] out@ == present_of(items_v.subrange(0, t)),
        decreases rest@.len(),
    {
        let ghost t = choose|t: int|
            0 <= t <= items_v.len() && rest@ == items_v.subrange(t, items_v.len() as int)
                && #[trigger] out@ == present_of(items_v.subrange(0, t));
        let ghost pre = rest@;
        let item = rest.remove(0);
        proof {
            assert(item == items_v[t]);
            assert(pre.remove(0) =~= items_v.subrange(t + 1, items_v.len() as int));
            assert(items_v.subrange(0, t + 1).drop_last() =~= items_v.subrange(0, t));
            assert(items_v.subrange(0, t + 1).last() == items_v[t]);
        }
        match item {
            Some(v) => {
                out.push(v);
                proof {
                    assert(out@ =~= present_of(items_v.subrange(0, t + 1)));
                }
            },
            None => {
                proof {
                    assert(out@ =~= present_of(items_v.subrange(0, t + 1)));
                }
            },
        }
    }
    proof {
        let t = choose|t: int|
            0 <= t <= items_v.len() && rest@ == items_v.subrange(t, items_v.len() as int)
                && #[trigger] out@ == present_of(items_v.subrange(0, t));
        assert(t == items_v.len());
        assert(items_v.subrange(0, items_v.len() as int) =~= items_v);
    }
    out
}

/// The names of the simplified artists, in order.
pub open spec fn simplified_names_of(s: Seq<SimplifiedArtist>) -> Seq<Seq<char>> {
    s.map_values(|a: SimplifiedArtist| a.name@)
}

/// The display name of an album: its title, then its artists.
pub fn album_display_name(name: &str, artists: &Vec<SimplifiedArtist>) -> (r: String)
    ensures
        r@ == name@ + " - "@ + join_of(simplified_names_of(artists@), ", "@),
{
    let mut names: Vec<String> = Vec::new();
    let mut i: usize = 0;
    while i < artists.len()
        invariant
            i <= artists@.len(),
            names.deep_view() == simplified_names_of(artists@.subrange(0, i as int)),
        decreases artists@.len() - i,
    {
        let ghost pre = names.deep_view();
        names.push(artists[i].name.clone());
        proof {
            assert(names.deep_view() =~= pre.push(artists@[i as int].name@));
            assert(simplified_names_of(artists@.subrange(0, i as int + 1)) =~= pre.push(
                artists@[i as int].name@,
            ));
        }
        i = i + 1;
    }
    proof {
        assert(artists@.subrange(0, artists@.len() as int) =~= artists@);
    }
    let joined = join(&names, ", ");
    let mut r = String::new();
    r.append(name);
    r.append(" - ");
    r.append(joined.as_str());
    r
}

/// The display name of a playlist: its title, then its owner or a stand-in.
pub fn playlist_display_name(name: &str, owner: Option<&str>) -> (r: String)
    ensures
        r@ == name@ + " - "@ + match owner {
            Some(o) => o@,
            None => "NO OWNER"@,
        },
{
    let mut r = String::new();
    r.append(name);
    r.append(" - ");
    match owner {
        Some(o) => r.append(o),
        None => r.append("NO OWNER"),
    }
    r
}

/// What kind of catalog resource a source url names, with its id.
#[derive(Debug)]
pub enum SpotifyUrlKind {
    Track(String),
    Playlist(String),
    Album(String),
}

/// Why a source url was rejected.
#[derive(Clone, Copy, Debug, PartialEq, Eq, Structural)]
pub enum UrlError {
    /// Not an absolute url at all.
    Invalid,
    /// Not a catalog domain.
    NotSpotify,
    /// No id segment in the path.
    NoId,
    /// A catalog url, but not a track, album or playlist.
    UnsupportedKind,
}

/// Named result of url parsing: domain and path depend on the text alone.
pub uninterp spec fn url_parts_of(s: Seq<char>) -> Option<(Option<Seq<char>>, Seq<char>)>;

/// Relies on url::Url::parse (reqwest re-exports it), Url::domain and
/// Url::path: `None` when the text is no absolute url; otherwise its domain
/// (absent for urls without one) and its path, functions of the text alone.
#[verifier::external_body]
fn url_domain_and_path(s: &str) -> (r: Option<(Option<String>, String)>)
    ensures
        match r {
            Some(p) => url_parts_of(s@) == Some(
                (
                    match p.0 {
                        Some(d) => Some(d@),
                        None => None,
                    },
                    p.1@,
                ),
            ),
            None => url_parts_of(s@) is None,
        },
{
    match reqwest::Url::parse(s) {
        Err(_) => None,
        Ok(u) => Some((u.domain().map(|d| d.to_string()), u.path().to_string())),
    }
}

/// Classify a source url: which kind of catalog resource it names, and the
/// resource id (the third `/`-separated piece of the path).
pub fn classify_spotify_url(url: &str) -> (r: Result<SpotifyUrlKind, UrlError>)
    ensures
        match url_parts_of(url@) {
            None => r == Err::<SpotifyUrlKind, UrlError>(UrlError::Invalid),
            Some(parts) => match parts.0 {
                None => r == Err::<SpotifyUrlKind, UrlError>(UrlError::NotSpotify),
                Some(domain) => {
                    let path = parts.1;
                    let segs = split_of(path, '/');
                    if !has_suffix(domain, "spotify.com"@) {
                        r == Err::<SpotifyUrlKind, UrlError>(UrlError::NotSpotify)
                    } else if segs.len() <= 2 {
                        r == Err::<SpotifyUrlKind, UrlError>(UrlError::NoId)
                    } else if has_prefix(path, "/track"@) {
                        r matches Ok(SpotifyUrlKind::Track(id)) && id@ == segs[2]
                    } else if has_prefix(path, "/playlist"@) {
                        r matches Ok(SpotifyUrlKind::Playlist(id)) && id@ == segs[2]
                    } else if has_prefix(path, "/album"@) {
                        r matches Ok(SpotifyUrlKind::Album(id)) && id@ == segs[2]
                    } else {
                        r == Err::<SpotifyUrlKind, UrlError>(UrlError::UnsupportedKind)
                    }
                },
            },
        },
{
    let parts = match url_domain_and_path(url) {
        None => {
            return Err(UrlError::Invalid);
        },
        Some(p) => p,
    };
    let domain = match parts.0 {
        None => {
            return Err(UrlError::NotSpotify);
        },
        Some(d) => d,
    };
    let path = parts.1;
    if !str_ends_with(domain.as_str(), "spotify.com") {
        return Err(UrlError::NotSpotify);
    }
    let segs = split_str(path.as_str(), '/');
    if segs.len() <= 2 {
        return Err(UrlError::NoId);
    }
    proof {
        assert(segs@[2]@ == segs.deep_view()[2]);
    }
    let id = segs[2].to_owned();
    if str_starts_with(path.as_str(), "/track") {
        Ok(SpotifyUrlKind::Track(id))
    } else if str_starts_with(path.as_str(), "/playlist") {
        Ok(SpotifyUrlKind::Playlist(id))
    } else if str_starts_with(path.as_str(), "/album") {
        Ok(SpotifyUrlKind::Album(id))
    } else {
        Err(UrlError::UnsupportedKind)
    }
}

/// Whether `c` is a decimal digit.
pub open spec fn is_digit(c: char) -> bool {
    '0' as int <= c as int <= '9' as int
}

/// The numeric value of a digit character.
pub open spec fn digit_val(c: char) -> int {
    c as int - '0' as int
}

/// Whether every character is a decimal digit.
pub open spec fn all_digits(s: Seq<char>) -> bool {
    forall|j: int| 0 <= j < s.len() ==> is_digit(#[trigger] s[j])
}

/// The number the digit characters spell, most significant first.
pub open spec fn digits_value(s: Seq<char>) -> int
    decreases s.len(),
{
    if s.len() == 0 {
        0
    } else {
        digits_value(s.drop_last()) * 10 + digit_val(s.last())
    }
}

proof fn lemma_digits_value_nonneg(s: Seq<char>)
    requires
        all_digits(s),
    ensures
        digits_value(s) >= 0,
    decreases s.len(),
{
    if s.len() > 0 {
        assert(all_digits(s.drop_last()));
        lemma_digits_value_nonneg(s.drop_last());
    }
}

/// With pure digits, a longer prefix never spells a smaller number.
proof fn lemma_digits_prefix_monotone(s: Seq<char>, k: int)
    requires
        all_digits(s),
        0 <= k <= s.len(),
    ensures
        digits_value(s.take(k)) <= digits_value(s),
    decreases s.len(),
{
    if k < s.len() {
        assert(all_digits(s.drop_last()));
        assert(s.take(k) =~= s.drop_last().take(k));
        lemma_digits_prefix_monotone(s.drop_last(), k);
        lemma_digits_value_nonneg(s.drop_last());
    } else {
        assert(s.take(k) =~= s);
    }
}

/// The part of a release date before the first dash: its year.
pub open spec fn year_prefix(s: Seq<char>) -> Seq<char> {
    match crate::strscan::find_sep(s, '-') {
        None => s,
        Some(i) => s.take(i),
    }
}

/// Parse the year out of a year-month-day release date: the digits before
/// the first dash. `None` when that part is empty, holds a non-digit, or
/// does not fit the tag's year field.
pub fn release_year(date: &str) -> (r: Option<u32>)
    ensures
        ({
            let p = year_prefix(date@);
            match r {
                Some(y) => p.len() > 0 && all_digits(p) && digits_value(p) <= u32::MAX && y
                    == digits_value(p),
                None => p.len() == 0 || !all_digits(p) || digits_value(p) > u32::MAX,
            }
        }),
{
    let n = date.unicode_len();
    let end = match crate::strscan::find_char_from(date, '-', 0) {
        Some(i) => {
            proof {
                crate::strscan::lemma_find_sep_at(date@, '-', i as int);
            }
            i
        },
        None => {
            proof {
                crate::strscan::lemma_find_sep_none(date@, '-');
            }
            n
        },
    };
    let ghost p = year_prefix(date@);
    proof {
        assert(p =~= date@.subrange(0, end as int));
    }
    if end == 0 {
        return None;
    }
    let mut acc: u32 = 0;
    let mut i: usize = 0;
    while i < end
        invariant
            i <= end,
            end <= date@.len(),
            p == year_prefix(date@),
            p == date@.subrange(0, end as int),
            p.len() == end,
            forall|q: int| 0 <= q < i ==> is_digit(#[trigger] p[q]),
            acc == digits_value(p.take(i as int)),
        decreases end - i,
    {
        let c = date.get_char(i);
        let code = c as u32;
        proof {
            assert(p[i as int] == c);
        }
        if code < 48 || code > 57 {
            proof {
                assert(!is_digit(p[i as int]));
                assert(!all_digits(p));
            }
            return None;
        }
        let d = code - 48;
        let next: u64 = (acc as u64) * 10 + (d as u64);
        proof {
            assert(p.take(i as int + 1).drop_last() =~= p.take(i as int));
            assert(p.take(i as int + 1).last() == p[i as int]);
            assert(digit_val(p[i as int]) == d as int);
            assert(digits_value(p.take(i as int + 1)) == (acc as int) * 10 + d);
        }
        if next > (u32::MAX as u64) {
            proof {
                if all_digits(p) {
                    lemma_digits_prefix_monotone(p, i as int + 1);
                    assert(digits_value(p) > u32::MAX);
                }
            }
            return None;
        }
        acc = next as u32;
        i = i + 1;
    }
    proof {
        assert(p.take(end as int) =~= p);
    }
    Some(acc)
}

impl Extraction {
    /// Assemble the resolution stage's outcome. The run cannot continue
    /// with nothing resolved, so an empty track list yields nothing.
    pub fn assemble(
        tracks: Vec<(usize, Track)>,
        name: Option<String>,
        warnings: Vec<usize>,
        failures: usize,
    ) -> (r: Option<Extraction>)
        ensures
            match r {
                None => tracks@.len() == 0,
                Some(e) => tracks@.len() > 0 && e.tracks == tracks && e.name == name
                    && e.warnings == warnings && e.failures == failures,
            },
    {
        if tracks.len() == 0 {
            None
        } else {
            Some(Extraction { tracks, name, warnings, failures })
        }
    }
}

/// The promoted record keeps its index and url and carries exactly the
/// metadata the track and its full artists produce: every track field, the
/// external ids, and the album-derived fields.
pub open spec fn promoted_at(
    r: (usize, Track),
    u: (usize, (String, SpotifyTrack)),
    artists: Seq<SpotifyArtist>,
) -> bool {
    &&& r.0 == u.0
    &&& r.1.url == u.1.0
    &&& r.1.metadata.name == u.1.1.name
    &&& r.1.metadata.spotify_id == u.1.1.id
    &&& r.1.metadata.artists@ == artists
    &&& (u.1.1.external_ids matches Some(e) && r.1.metadata.external_ids == e)
    &&& r.1.metadata.disc_number == u.1.1.disc_number
    &&& r.1.metadata.explicit == u.1.1.explicit
    &&& r.1.metadata.track_number == u.1.1.track_number
    &&& match u.1.1.album {
        None => r.1.metadata.album_name is None && r.1.metadata.cover_url is None
            && r.1.metadata.release_date is None && r.1.metadata.album_tracks is None,
        Some(a) => r.1.metadata.album_name == Some(a.name) && r.1.metadata.cover_url == Some(
            a.images@[0].url,
        ) && r.1.metadata.release_date == Some(a.release_date) && r.1.metadata.album_tracks
            == Some(a.total_tracks),
    }
}

/// Promote resolved records to full tracks: pair each resolved url with the
/// metadata built from its track and its full artists, fetched in bulk and
/// handed over in the same order.
pub fn promote(
    urls: Vec<(usize, (String, SpotifyTrack))>,
    artists: Vec<Vec<SpotifyArtist>>,
) -> (r: Vec<(usize, Track)>)
    requires
        urls@.len() == artists@.len(),
        forall|j: int|
            0 <= j < urls@.len() ==> (#[trigger] urls@[j]).1.1.external_ids is Some && (
            urls@[j].1.1.album matches Some(a) ==> a.images@.len() >= 1),
    ensures
        r@.len() == urls@.len(),
        forall|j: int|
            0 <= j < r@.len() ==> promoted_at(#[trigger] r@[j], urls@[j], artists@[j]@),
{
    let ghost urls_v = urls@;
    let ghost artists_v = artists@;
    let mut rest_u = urls;
    let mut rest_a = artists;
    let mut out: Vec<(usize, Track)> = Vec::new();
    proof {
        assert(rest_u@ =~= urls_v.subrange(0, urls_v.len() as int));
        assert(rest_a@ =~= artists_v.subrange(0, artists_v.len() as int));
    }
    while rest_u.len() > 0
        invariant
            out@.len() + rest_u@.len() == urls_v.len(),
            rest_a@.len() == rest_u@.len(),
            artists_v.len() == urls_v.len(),
            rest_u@ == urls_v.subrange(out@.len() as int, urls_v.len() as int),
            rest_a@ == artists_v.subrange(out@.len() as int, artists_v.len() as int),
            forall|j: int|
                0 <= j < urls_v.len() ==> (#[trigger] urls_v[j]).1.1.external_ids is Some && (
                urls_v[j].1.1.album matches Some(a) ==> a.images@.len() >= 1),
            forall|q: int|
                0 <= q < out@.len() ==> promoted_at(#[trigger] out@[q], urls_v[q], artists_v[q]@),
        decreases rest_u@.len(),
    {
        let ghost done = out@.len() as int;
        let ghost pre_u = rest_u@;
        let ghost pre_a = rest_a@;
        let entry = rest_u.remove(0);
        let full = rest_a.remove(0);
        proof {
            assert(entry == urls_v[done]);
            assert(full == artists_v[done]);
            assert(pre_u.remove(0) =~= urls_v.subrange(done + 1, urls_v.len() as int));
            assert(pre_a.remove(0) =~= artists_v.subrange(done + 1, artists_v.len() as int));
        }
        let (index, resolved) = entry;
        let (url, track) = resolved;
        let metadata = track.into_metadata(full);
        out.push((index, Track::new(url, metadata)));
        proof {
            assert(promoted_at(out@[done], urls_v[done], artists_v[done]@));
        }
    }
    out
}

} // verus!
