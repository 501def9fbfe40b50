//! A lecture recording: its playlist, where its segments live, and how a
//! resumable download names and decides on them.

use crate::hls::{
    decrypt_result, key_of_ref, next_active_key, playlist_parse_result, HlsError, MediaPlaylist,
    MediaSegment,
};
use crate::qs::{query_entries_of, query_get_of, Query};
use crate::text::{chars_of, concat, string_of_chars};
use vstd::prelude::*;

verus! {

/// The serialization of the absolute URL that `s` parses to, if it parses.
pub uninterp spec fn url_parsed(s: Seq<char>) -> Option<Seq<char>>;

/// Relies on url::Url::parse: the URL's serialization where `s` is an absolute URL.
#[verifier::external_body]
fn parse_url(s: &str) -> (r: Option<String>)
    ensures
        match r {
            Some(u) => url_parsed(s@) == Some(u@),
            None => url_parsed(s@) is None,
        },
{
    url::Url::parse(s).ok().map(String::from)
}

/// The serialization of `rel` resolved against the absolute URL `base`.
pub uninterp spec fn url_joined(base: Seq<char>, rel: Seq<char>) -> Option<Seq<char>>;

/// Relies on url::Url::join: resolves `rel` against `base`, both as the URL
/// standard defines it.
#[verifier::external_body]
fn join_url(base: &str, rel: &str) -> (r: Option<String>)
    ensures
        match r {
            Some(u) => url_joined(base@, rel@) == Some(u@),
            None => url_joined(base@, rel@) is None,
        },
{
    url::Url::parse(base).ok()?.join(rel).ok().map(String::from)
}

/// Why the playlist of a recording could not be located.
#[derive(Debug, Clone, Copy, PartialEq, Eq, Structural)]
pub enum ResolveError {
    /// The redirect location is not a URI.
    InvalidLocation,
    MissingCourseId,
    MissingSubId,
    MissingAppId,
    MissingAuthData,
    /// The authorization data does not point at an HLS playlist.
    NotM3u8,
}

/// The parameters of the authorization request, read from the query of the
/// location that a recording's embedded player redirects to.
pub struct SubInfoParams {
    pub course_id: String,
    pub sub_id: String,
    pub app_id: String,
    pub auth_data: String,
}

/// The value of `key` in the query of `loc`, as `Query::get` finds it.
pub open spec fn loc_param(loc: Seq<char>, key: Seq<char>) -> Option<Seq<char>> {
    match query_entries_of(loc) {
        Some(e) => query_get_of(e, key),
        None => None,
    }
}

/// Reads the authorization parameters from the player's redirect location;
/// each missing one is reported, in the order course, sub, app, auth data.
pub fn sub_info_params(loc: &str) -> (r: Result<SubInfoParams, ResolveError>)
    ensures
        query_entries_of(loc@) is None <==> r == Err::<SubInfoParams, _>(
            ResolveError::InvalidLocation,
        ),
        query_entries_of(loc@) is Some && loc_param(loc@, "course_id"@) is Some && loc_param(
            loc@,
            "sub_id"@,
        ) is Some && loc_param(loc@, "app_id"@) is Some && loc_param(loc@, "auth_data"@) is Some
            ==> r is Ok,
        r matches Ok(p) ==> {
            &&& loc_param(loc@, "course_id"@) == Some(p.course_id@)
            &&& loc_param(loc@, "sub_id"@) == Some(p.sub_id@)
            &&& loc_param(loc@, "app_id"@) == Some(p.app_id@)
            &&& loc_param(loc@, "auth_data"@) == Some(p.auth_data@)
        },
        query_entries_of(loc@) is Some ==> {
            &&& (loc_param(loc@, "course_id"@) is None <==> r == Err::<SubInfoParams, _>(
                ResolveError::MissingCourseId,
            ))
            &&& (r == Err::<SubInfoParams, _>(ResolveError::MissingSubId) <==> (loc_param(
                loc@,
                "course_id"@,
            ) is Some && loc_param(loc@, "sub_id"@) is None))
            &&& (r == Err::<SubInfoParams, _>(ResolveError::MissingAppId) <==> (loc_param(
                loc@,
                "course_id"@,
            ) is Some && loc_param(loc@, "sub_id"@) is Some && loc_param(loc@, "app_id"@) is None))
            &&& (r == Err::<SubInfoParams, _>(ResolveError::MissingAuthData) <==> (loc_param(
                loc@,
                "course_id"@,
            ) is Some && loc_param(loc@, "sub_id"@) is Some && loc_param(loc@, "app_id"@) is Some
                && loc_param(loc@, "auth_data"@) is None))
        },
{
    let q = match Query::parse(loc) {
        Ok(q) => q,
        Err(_) => return Err(ResolveError::InvalidLocation),
    };
    let course_id = match q.get("course_id") {
        Some(v) => concat(v, ""),
        None => return Err(ResolveError::MissingCourseId),
    };
    let sub_id = match q.get("sub_id") {
        Some(v) => concat(v, ""),
        None => return Err(ResolveError::MissingSubId),
    };
    let app_id = match q.get("app_id") {
        Some(v) => concat(v, ""),
        None => return Err(ResolveError::MissingAppId),
    };
    let auth_data = match q.get("auth_data") {
        Some(v) => concat(v, ""),
        None => return Err(ResolveError::MissingAuthData),
    };
    proof {
        reveal_strlit("");
        assert(course_id@ =~= loc_param(loc@, "course_id"@)->0);
        assert(sub_id@ =~= loc_param(loc@, "sub_id"@)->0);
        assert(app_id@ =~= loc_param(loc@, "app_id"@)->0);
        assert(auth_data@ =~= loc_param(loc@, "auth_data"@)->0);
    }
    Ok(SubInfoParams { course_id, sub_id, app_id, auth_data })
}

/// The playlist URL from the playback entry of the authorization data: only
/// an entry whose `is_m3u8` flag is `yes` names a playlist.
pub fn playlist_url_of(is_m3u8: &str, contents: &str) -> (r: Result<String, ResolveError>)
    ensures
        is_m3u8@ == "yes"@ ==> (r matches Ok(u) && u@ == contents@),
        is_m3u8@ != "yes"@ ==> r == Err::<String, ResolveError>(ResolveError::NotM3u8),
{
    if crate::text::str_eq(is_m3u8, "yes") {
        proof {
            reveal_strlit("");
        }
        let u = concat(contents, "");
        assert(u@ =~= contents@);
        Ok(u)
    } else {
        Err(ResolveError::NotM3u8)
    }
}

/// The identifier shown for a recording of course `course_id`: the hash of the
/// course id, the recording's title and its time, in hexadecimal.
pub fn video_id(course_id: &str, title: &str, time: &str) -> (r: String)
    ensures
        r@ == crate::cache::hex_lower(crate::cache::triple_hash(course_id@, title@, time@) as nat),
{
    crate::cache::hex_string(crate::cache::hash_triple(course_id, title, time))
}

/// Title, time and page URL of a recording, as a course's video list shows it.
pub struct CourseVideoMeta {
    pub title: String,
    pub time: String,
    pub url: String,
}

impl CourseVideoMeta {
    pub fn new(title: String, time: String, url: String) -> (r: CourseVideoMeta)
        ensures
            r.title@ == title@,
            r.time@ == time@,
            r.url@ == url@,
    {
        CourseVideoMeta { title, time, url }
    }

    pub fn title(&self) -> (r: &str)
        ensures
            r@ == self.title@,
    {
        self.title.as_str()
    }

    pub fn time(&self) -> (r: &str)
        ensures
            r@ == self.time@,
    {
        self.time.as_str()
    }

    pub fn url(&self) -> (r: &str)
        ensures
            r@ == self.url@,
    {
        self.url.as_str()
    }
}

/// A recording whose media playlist has been fetched and parsed.
pub struct CourseVideo {
    pub course_name: String,
    pub meta: CourseVideoMeta,
    pub pl_raw: Vec<u8>,
    pub pl_url: String,
    pub pl: MediaPlaylist,
}

/// The cache name under which the data at segment URL `url` is kept.
pub open spec fn segment_cache_name_of(url: Seq<char>) -> Seq<char> {
    "CourseVideo::download_segment_"@ + url
}

/// The cache name under which the key material at `uri` is kept.
pub open spec fn key_cache_name_of(uri: Seq<char>) -> Seq<char> {
    "CourseVideo::get_aes128_uri_"@ + uri
}

/// `path` with the extension of its last component replaced by `ext` (or added,
/// where it has none). A leading dot of the last component starts no extension.
pub open spec fn with_extension_of(path: Seq<char>, ext: Seq<char>) -> Seq<char> {
    let name_start = last_index_of(path, '/') + 1;
    let dot = last_index_of(path, '.');
    let stem_end = if dot > name_start {
        dot
    } else {
        path.len() as int
    };
    path.subrange(0, stem_end) + seq!['.'] + ext
}

/// The index of the last `c` in `s`, or -1.
pub open spec fn last_index_of(s: Seq<char>, c: char) -> int
    decreases s.len(),
{
    if s.len() == 0 {
        -1
    } else if s.last() == c {
        s.len() - 1
    } else {
        last_index_of(s.drop_last(), c)
    }
}

proof fn lemma_last_index_of(s: Seq<char>, c: char)
    ensures
        -1 <= last_index_of(s, c) < s.len(),
        last_index_of(s, c) >= 0 ==> s[last_index_of(s, c)] == c,
        forall|i: int| last_index_of(s, c) < i < s.len() ==> s[i] != c,
    decreases s.len(),
{
    if s.len() > 0 && s.last() != c {
        lemma_last_index_of(s.drop_last(), c);
        assert forall|i: int| last_index_of(s, c) < i < s.len() implies s[i] != c by {
            if i < s.len() - 1 {
                assert(s.drop_last()[i] == s[i]);
            }
        }
    }
}

/// The index of the last `c` in `v`, or -1.
fn find_last(v: &Vec<char>, c: char) -> (r: i64)
    requires
        v@.len() < i64::MAX,
    ensures
        r == last_index_of(v@, c),
{
    let mut i: usize = v.len();
    assert(v@.subrange(0, i as int) == v@);
    while i > 0
        invariant
            i <= v@.len() < i64::MAX,
            last_index_of(v@, c) == last_index_of(v@.subrange(0, i as int), c),
        decreases i,
    {
        assert(v@.subrange(0, i - 1) == v@.subrange(0, i as int).drop_last());
        if v[i - 1] == c {
            return (i - 1) as i64;
        }
        i -= 1;
    }
    -1
}

/// `path` with the extension of its last component replaced by `ext`.
pub fn with_extension(path: &str, ext: &str) -> (r: String)
    requires
        path@.len() < i64::MAX,
    ensures
        r@ == with_extension_of(path@, ext@),
{
    let v = chars_of(path);
    proof {
        lemma_last_index_of(path@, '.');
        lemma_last_index_of(path@, '/');
    }
    let name_start = find_last(&v, '/') + 1;
    let dot = find_last(&v, '.');
    let stem_end: usize = if dot > name_start {
        dot as usize
    } else {
        v.len()
    };
    let mut out: Vec<char> = Vec::new();
    let mut i: usize = 0;
    while i < stem_end
        invariant
            stem_end <= v@.len(),
            v@ == path@,
            i <= stem_end,
            out@ == v@.subrange(0, i as int),
            stem_end == (if last_index_of(path@, '.') > last_index_of(path@, '/') + 1 {
                last_index_of(path@, '.')
            } else {
                path@.len() as int
            }),
        decreases stem_end - i,
    {
        out.push(v[i]);
        i += 1;
    }
    out.push('.');
    assert(out@ == path@.subrange(0, stem_end as int) + seq!['.']);
    let stem = string_of_chars(&out);
    concat(stem.as_str(), ext)
}

impl CourseVideo {
    /// Builds a recording from its fetched playlist: `pl_raw` must parse as a
    /// media playlist and `pl_url` as an absolute URL.
    pub fn new(course_name: String, meta: CourseVideoMeta, pl_url: &str, pl_raw: Vec<u8>) -> (r:
        Result<CourseVideo, HlsError>)
        ensures
            match r {
                Ok(v) => {
                    &&& playlist_parse_result(pl_raw@) == Ok::<_, HlsError>(v.pl@)
                    &&& url_parsed(pl_url@) == Some(v.pl_url@)
                    &&& v.pl_raw@ == pl_raw@
                    &&& v.course_name@ == course_name@
                },
                Err(e) => {
                    ||| (e == HlsError::MalformedPlaylist || e == HlsError::MasterPlaylist)
                        && playlist_parse_result(pl_raw@) is Err && playlist_parse_result(pl_raw@)
                        == Err::<(u64, Seq<(Seq<char>, Option<m3u8_rs::Key>)>), _>(e)
                    ||| e == HlsError::InvalidUrl && playlist_parse_result(pl_raw@) is Ok
                        && url_parsed(pl_url@) is None
                },
            },
    {
        let pl = match MediaPlaylist::parse(pl_raw.as_slice()) {
            Ok(pl) => pl,
            Err(e) => return Err(e),
        };
        let pl_url = match parse_url(pl_url) {
            Some(u) => u,
            None => return Err(HlsError::InvalidUrl),
        };
        Ok(CourseVideo { course_name, meta, pl_raw, pl_url, pl })
    }

    pub fn course_name(&self) -> (r: &str)
        ensures
            r@ == self.course_name@,
    {
        self.course_name.as_str()
    }

    pub fn meta(&self) -> (r: &CourseVideoMeta)
        ensures
            *r == self.meta,
    {
        &self.meta
    }

    /// The playlist bytes as they were fetched.
    pub fn m3u8_raw(&self) -> (r: &[u8])
        ensures
            r@ == self.pl_raw@,
    {
        self.pl_raw.as_slice()
    }

    pub fn len_segments(&self) -> (r: usize)
        ensures
            r == self.pl.segments@.len(),
    {
        self.pl.segments.len()
    }

    pub fn segment(&self, index: usize) -> (r: &MediaSegment)
        requires
            index < self.pl.segments@.len(),
        ensures
            *r == self.pl.segments@[index as int],
    {
        &self.pl.segments[index]
    }

    /// The key active for segment `index` when `key` was active before it; see
    /// `MediaPlaylist::refresh_key`.
    pub fn refresh_key<'a>(&'a self, index: usize, key: Option<&'a m3u8_rs::Key>) -> (r: Option<
        &'a m3u8_rs::Key,
    >)
        requires
            index < self.pl.segments@.len(),
        ensures
            key_of_ref(r) == next_active_key(self.pl.segments@[index as int].key, key_of_ref(key)),
    {
        self.pl.refresh_key(index, key)
    }

    /// The absolute URL of segment `index`: its URI resolved against the playlist URL.
    pub fn segment_url(&self, index: usize) -> (r: Result<String, HlsError>)
        requires
            index < self.pl.segments@.len(),
        ensures
            match url_joined(self.pl_url@, self.pl.segments@[index as int].uri@) {
                Some(u) => r matches Ok(s) && s@ == u,
                None => r == Err::<String, HlsError>(HlsError::InvalidUrl),
            },
    {
        match join_url(self.pl_url.as_str(), self.pl.segments[index].uri.as_str()) {
            Some(u) => Ok(u),
            None => Err(HlsError::InvalidUrl),
        }
    }

    /// The cache name of the data at segment URL `url`.
    pub fn segment_cache_name(url: &str) -> (r: String)
        ensures
            r@ == segment_cache_name_of(url@),
    {
        concat("CourseVideo::download_segment_", url)
    }

    /// The cache name of the key material at `uri`.
    pub fn key_cache_name(uri: &str) -> (r: String)
        ensures
            r@ == key_cache_name_of(uri@),
    {
        concat("CourseVideo::get_aes128_uri_", uri)
    }

    /// Decodes the fetched data of segment `index` under the active key `key`;
    /// see `MediaPlaylist::decode_segment`.
    pub fn get_segment_data(
        &self,
        index: usize,
        key: Option<&m3u8_rs::Key>,
        key_material: &[u8],
        data: Vec<u8>,
    ) -> (r: Result<Vec<u8>, HlsError>)
        ensures
            match key {
                None => r matches Ok(p) && p@ == data@,
                Some(k) => match r {
                    Ok(p) => decrypt_result(
                        *k,
                        (self.pl.media_sequence + index) as u128,
                        key_material@,
                        data@,
                    ) == Ok::<Seq<u8>, HlsError>(p@),
                    Err(e) => decrypt_result(
                        *k,
                        (self.pl.media_sequence + index) as u128,
                        key_material@,
                        data@,
                    ) == Err::<Seq<u8>, HlsError>(e),
                },
            },
    {
        self.pl.decode_segment(index, key, key_material, data)
    }

    /// The file name under which segment `index` is kept once downloaded: its
    /// URI with the extension `ts`.
    pub fn segment_file_name(&self, index: usize) -> (r: String)
        requires
            index < self.pl.segments@.len(),
            self.pl.segments@[index as int].uri@.len() < i64::MAX,
        ensures
            r@ == with_extension_of(self.pl.segments@[index as int].uri@, "ts"@),
    {
        with_extension(self.pl.segments[index].uri.as_str(), "ts")
    }
}

/// The name of the temporary file that a segment file is written to before it
/// is renamed into place.
pub fn temp_file_name(file_name: &str) -> (r: String)
    requires
        file_name@.len() < i64::MAX,
    ensures
        r@ == with_extension_of(file_name@, "tmp"@),
{
    with_extension(file_name, "tmp")
}

/// Whether a segment must still be fetched: only where no file stands under its
/// final name. A leftover temporary file does not count as downloaded.
pub fn segment_needs_fetch(final_exists: bool, temp_exists: bool) -> (r: bool)
    ensures
        r == !final_exists,
{
    !final_exists
}

} // verus!
