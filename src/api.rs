use vstd::prelude::*;
use vstd::slice::slice_to_vec;

use crate::sanitize_path::{
    skip_white_space, skip_white_space_exec, string_from_chars, trim_end, trim_end_exec,
};

verus! {

/// What can go wrong on the way from a page URL to an assembled video.
#[derive(Debug)]
pub enum VideoError {
    /// The page URL is not a RaiPlay video page.
    InvalidUrl(String),
    /// The metadata document could not be fetched or decoded.
    MetadataFetchFailed(String),
    /// A master or media playlist could not be parsed.
    ManifestInvalid,
    /// Fetching or writing the segment at this index failed.
    SegmentDownloadFailed(usize, String),
    /// A local file could not be written.
    IoError(String),
}

// ---------------------------------------------------------------------------
// Page URLs
// ---------------------------------------------------------------------------

/// `lit` stands in `s` from index `i` on.
pub open spec fn lit_at(s: Seq<char>, i: int, lit: Seq<char>) -> bool {
    0 <= i && i + lit.len() <= s.len() && s.subrange(i, i + lit.len()) == lit
}

pub open spec fn http_lit() -> Seq<char> {
    seq!['h', 't', 't', 'p', ':', '/', '/']
}

pub open spec fn https_lit() -> Seq<char> {
    seq!['h', 't', 't', 'p', 's', ':', '/', '/']
}

pub open spec fn www_lit() -> Seq<char> {
    seq!['w', 'w', 'w', '.']
}

pub open spec fn host_lit() -> Seq<char> {
    seq!['r', 'a', 'i', 'p', 'l', 'a', 'y', '.', 'i', 't', '/', 'v', 'i', 'd', 'e', 'o', '/']
}

pub open spec fn html_lit() -> Seq<char> {
    seq!['.', 'h', 't', 'm', 'l']
}

pub open spec fn json_lit() -> Seq<char> {
    seq!['.', 'j', 's', 'o', 'n']
}

pub open spec fn is_ascii_digit(c: char) -> bool {
    '0' <= c && c <= '9'
}

/// From index `k` on, `s` reads `YYYY/MM/<slug>.html` with a slug of one or more
/// characters none of which is a dot.
pub open spec fn is_date_and_slug(s: Seq<char>, k: int) -> bool {
    &&& 0 <= k
    &&& k + 14 <= s.len()
    &&& forall|m: int| k <= m < k + 4 ==> is_ascii_digit(#[trigger] s[m])
    &&& s[k + 4] == '/'
    &&& is_ascii_digit(s[k + 5]) && is_ascii_digit(s[k + 6])
    &&& s[k + 7] == '/'
    &&& forall|m: int| k + 8 <= m < s.len() - 5 ==> #[trigger] s[m] != '.'
    &&& lit_at(s, s.len() - 5, html_lit())
}

/// From index `i` on, `s` reads `[www.]raiplay.it/video/YYYY/MM/<slug>.html`.
pub open spec fn is_page_path(s: Seq<char>, i: int) -> bool {
    let j = if lit_at(s, i, www_lit()) {
        i + 4
    } else {
        i
    };
    lit_at(s, j, host_lit()) && is_date_and_slug(s, j + 17)
}

/// `s` is a RaiPlay video page URL:
/// `^http(s)?://(www\.)?raiplay\.it/video/\d{4}/\d{2}/[^.]+\.html$`.
pub open spec fn is_page_url(s: Seq<char>) -> bool {
    if lit_at(s, 0, https_lit()) {
        is_page_path(s, 8)
    } else if lit_at(s, 0, http_lit()) {
        is_page_path(s, 7)
    } else {
        false
    }
}

/// The page URL over HTTPS: an `s` goes in after `http` where it is missing.
pub open spec fn https_page_url(s: Seq<char>) -> Seq<char> {
    if lit_at(s, 0, https_lit()) {
        s
    } else {
        s.insert(4, 's')
    }
}

/// The metadata document's URL: the page URL with `.json` for its final `.html`.
pub open spec fn metadata_url_of(page: Seq<char>) -> Seq<char> {
    page.take(page.len() - 5) + json_lit()
}

/// The two URLs derived from an accepted page URL.
pub struct PageUrls {
    /// The page URL, over HTTPS.
    pub page_url: String,
    /// Where the page's metadata document is served.
    pub metadata_url: String,
}

fn chars_of(s: &str) -> (r: Vec<char>)
    ensures
        r@ == s@,
{
    let n = s.unicode_len();
    let mut out: Vec<char> = Vec::new();
    let mut i: usize = 0;
    while i < n
        invariant
            n == s@.len(),
            i <= n,
            out@ == s@.take(i as int),
        decreases n - i,
    {
        out.push(s.get_char(i));
        i = i + 1;
        assert(out@ =~= s@.take(i as int));
    }
    assert(out@ =~= s@);
    out
}

fn lit_at_exec(s: &Vec<char>, i: usize, lit: &Vec<char>) -> (r: bool)
    ensures
        r == lit_at(s@, i as int, lit@),
{
    if i > s.len() || lit.len() > s.len() - i {
        return false;
    }
    let mut k: usize = 0;
    while k < lit.len()
        invariant
            i + lit.len() <= s.len(),
            k <= lit.len(),
            forall|m: int| 0 <= m < k ==> s@[i + m] == #[trigger] lit@[m],
        decreases lit.len() - k,
    {
        if s[i + k] != lit[k] {
            assert(s@.subrange(i as int, i + lit.len())[k as int] != lit@[k as int]);
            return false;
        }
        k = k + 1;
    }
    assert(s@.subrange(i as int, i + lit.len()) =~= lit@);
    true
}

fn is_date_and_slug_exec(s: &Vec<char>, k: usize) -> (r: bool)
    ensures
        r == is_date_and_slug(s@, k as int),
{
    let len = s.len();
    if k > len || len - k < 14 {
        return false;
    }
    let mut m: usize = k;
    while m < k + 4
        invariant
            k + 14 <= len == s.len(),
            k <= m <= k + 4,
            forall|x: int| k <= x < m ==> is_ascii_digit(#[trigger] s@[x]),
        decreases k + 4 - m,
    {
        if !('0' <= s[m] && s[m] <= '9') {
            return false;
        }
        m = m + 1;
    }
    if s[k + 4] != '/' || !('0' <= s[k + 5] && s[k + 5] <= '9') || !('0' <= s[k + 6] && s[k
        + 6] <= '9') || s[k + 7] != '/' {
        return false;
    }
    let mut m: usize = k + 8;
    while m < len - 5
        invariant
            k + 14 <= len == s.len(),
            k + 8 <= m,
            forall|x: int| k + 8 <= x < m ==> #[trigger] s@[x] != '.',
        decreases len - m,
    {
        if s[m] == '.' {
            return false;
        }
        m = m + 1;
    }
    let html = vec!['.', 'h', 't', 'm', 'l'];
    assert(html@ == html_lit());
    lit_at_exec(s, len - 5, &html)
}

fn is_page_path_exec(s: &Vec<char>, i: usize) -> (r: bool)
    requires
        i <= s.len(),
    ensures
        r == is_page_path(s@, i as int),
{
    let www = vec!['w', 'w', 'w', '.'];
    assert(www@ == www_lit());
    let j = if lit_at_exec(s, i, &www) {
        i + 4
    } else {
        i
    };
    let host = vec![
        'r', 'a', 'i', 'p', 'l', 'a', 'y', '.', 'i', 't', '/', 'v', 'i', 'd', 'e', 'o', '/'
    ];
    assert(host@ == host_lit());
    if !lit_at_exec(s, j, &host) {
        return false;
    }
    is_date_and_slug_exec(s, j + 17)
}

/// Checks that `url` is a RaiPlay video page and derives the HTTPS page URL and
/// the metadata document's URL from it.
pub fn resolve_page_url(url: &str) -> (r: Result<PageUrls, VideoError>)
    ensures
        match r {
            Ok(urls) => {
                &&& is_page_url(url@)
                &&& urls.page_url@ == https_page_url(url@)
                &&& urls.metadata_url@ == metadata_url_of(https_page_url(url@))
            },
            Err(e) => !is_page_url(url@) && (e matches VideoError::InvalidUrl(u) && u@ == url@),
        },
{
    let mut s = chars_of(url);
    let https = vec!['h', 't', 't', 'p', 's', ':', '/', '/'];
    let http = vec!['h', 't', 't', 'p', ':', '/', '/'];
    assert(https@ == https_lit());
    assert(http@ == http_lit());
    let ok = if lit_at_exec(&s, 0, &https) {
        is_page_path_exec(&s, 8)
    } else if lit_at_exec(&s, 0, &http) {
        let ok = is_page_path_exec(&s, 7);
        if ok {
            s.insert(4, 's');
        }
        ok
    } else {
        false
    };
    if !ok {
        return Err(VideoError::InvalidUrl(string_from_chars(&s)));
    }
    assert(s@ == https_page_url(url@));
    let mut meta: Vec<char> = Vec::new();
    let stem = s.len() - 5;
    let mut i: usize = 0;
    while i < stem
        invariant
            stem + 5 == s.len(),
            i <= stem,
            meta@ == s@.take(i as int),
        decreases stem - i,
    {
        meta.push(s[i]);
        i = i + 1;
        assert(meta@ =~= s@.take(i as int));
    }
    let json = vec!['.', 'j', 's', 'o', 'n'];
    assert(json@ == json_lit());
    let mut k: usize = 0;
    while k < json.len()
        invariant
            k <= json.len() == 5,
            meta@ == s@.take(stem as int) + json@.take(k as int),
        decreases 5 - k,
    {
        meta.push(json[k]);
        k = k + 1;
        assert(meta@ =~= s@.take(stem as int) + json@.take(k as int));
    }
    assert(json@.take(5) =~= json@);
    Ok(PageUrls { page_url: string_from_chars(&s), metadata_url: string_from_chars(&meta) })
}

// ---------------------------------------------------------------------------
// Playlists
// ---------------------------------------------------------------------------

/// One entry of a master playlist as the HLS parser reports it: the variant's
/// playlist URI, its `BANDWIDTH` and, where given, its `RESOLUTION`.
pub struct MasterEntry {
    pub uri: String,
    pub bandwidth: String,
    pub resolution: Option<String>,
}

impl MasterEntry {
    /// URI, bandwidth and optional resolution.
    pub open spec fn view_tuple(&self) -> (Seq<char>, Seq<char>, Option<Seq<char>>) {
        (
            self.uri@,
            self.bandwidth@,
            match self.resolution {
                Some(r) => Some(r@),
                None => None,
            },
        )
    }
}

/// The entries, each as a tuple.
pub open spec fn entry_views(es: Seq<MasterEntry>) -> Seq<(Seq<char>, Seq<char>, Option<Seq<char>>)> {
    es.map_values(|e: MasterEntry| e.view_tuple())
}

/// One segment of a media playlist: its duration in seconds, kept as the bit pattern
/// of the parser's `f32`, and its URI.
pub struct M3u8VideoSegment {
    pub duration_bits: u32,
    pub uri: String,
}

impl M3u8VideoSegment {
    /// Duration bits and URI.
    pub open spec fn view_tuple(&self) -> (u32, Seq<char>) {
        (self.duration_bits, self.uri@)
    }
}

/// The segments, each as a tuple.
pub open spec fn segment_views(ss: Seq<M3u8VideoSegment>) -> Seq<(u32, Seq<char>)> {
    ss.map_values(|s: M3u8VideoSegment| s.view_tuple())
}

/// The entries that the HLS parser finds in a master playlist, or `None` where it
/// refuses the bytes.
pub uninterp spec fn master_entries_of(text: Seq<u8>) -> Option<
    Seq<(Seq<char>, Seq<char>, Option<Seq<char>>)>,
>;

/// The segments that the HLS parser finds in a media playlist, or `None` where it
/// refuses the text.
pub uninterp spec fn media_segments_of(text: Seq<char>) -> Option<Seq<(u32, Seq<char>)>>;

/// Relies on `m3u8_rs::parse_master_playlist_res`: `Ok` with the variant streams in
/// the order the playlist lists them, or `Err`.
#[verifier::external_body]
fn parse_master_entries(text: &[u8]) -> (r: Option<Vec<MasterEntry>>)
    ensures
        match r {
            Some(es) => master_entries_of(text@) == Some(entry_views(es@)),
            None => master_entries_of(text@) is None,
        },
{
    match m3u8_rs::parse_master_playlist_res(text) {
        Ok(pl) => Some(
            pl.variants.into_iter().map(
                |v| MasterEntry { uri: v.uri, bandwidth: v.bandwidth, resolution: v.resolution },
            ).collect(),
        ),
        Err(_) => None,
    }
}

/// End of the run of ASCII digits in `t` that starts at index `j`.
pub open spec fn digit_run_end(t: Seq<char>, j: int) -> int
    decreases t.len() - j,
{
    if j < 0 || j >= t.len() || !is_ascii_digit(t[j]) {
        j
    } else {
        digit_run_end(t, j + 1)
    }
}

/// The `BYTERANGE=` at index `i` of `t` is followed by a value (in quotes or bare)
/// that the HLS parser turns into a byte range without panicking: it opens with
/// digits whose value fits in an `i32`, and those digits are not the whole value.
/// (The parser reads `<length>` and then waits for `@<offset>`; at the value's end
/// that wait is reported as incomplete, and m3u8-rs 1.0.8 panics on it, as it does
/// on a value that does not open with an `i32`.)
pub open spec fn reads_as_range(t: Seq<char>, i: int) -> bool {
    let v = i + 10;
    let quoted = v < t.len() && t[v] == '"';
    let j = if quoted {
        v + 1
    } else {
        v
    };
    let e = digit_run_end(t, j);
    &&& j < e
    &&& decimal_value(t.subrange(j, e)) <= 0x7fff_ffff
    &&& e < t.len()
    &&& if quoted {
        t[e] != '"'
    } else {
        t[e] != ',' && t[e] != '\r' && t[e] != '\n'
    }
}

/// `text` holds a `BYTERANGE=` attribute whose value the HLS parser would panic on.
/// Such a value can only make a difference in an `EXT-X-MAP` tag, but any
/// occurrence counts: the playlist is refused before the parser sees it.
pub open spec fn has_unreadable_byterange(text: Seq<char>) -> bool {
    exists|i: int| lit_at(text, i, byterange_lit()) && !reads_as_range(text, i)
}

pub open spec fn byterange_lit() -> Seq<char> {
    seq!['B', 'Y', 'T', 'E', 'R', 'A', 'N', 'G', 'E', '=']
}

/// Relies on `m3u8_rs::parse_media_playlist_res`: `Ok` with the segments in the order
/// the playlist lists them, or `Err`. It panics on an `EXT-X-MAP` whose `BYTERANGE`
/// is bare digits or does not open with an `i32` (`ByteRange::from`), hence the
/// `requires`.
#[verifier::external_body]
fn parse_media_segments(text: &str) -> (r: Option<Vec<M3u8VideoSegment>>)
    requires
        !has_unreadable_byterange(text@),
    ensures
        match r {
            Some(ss) => media_segments_of(text@) == Some(segment_views(ss@)),
            None => media_segments_of(text@) is None,
        },
{
    match m3u8_rs::parse_media_playlist_res(text.as_bytes()) {
        Ok(pl) => Some(
            pl.segments.into_iter().map(
                |s| M3u8VideoSegment { duration_bits: s.duration.to_bits(), uri: s.uri },
            ).collect(),
        ),
        Err(_) => None,
    }
}

/// End of the digit run of `s` that starts at `j`, and whether its value fits in
/// an `i32`.
fn digit_run(s: &Vec<char>, j: usize) -> (r: (usize, bool))
    requires
        j <= s.len(),
    ensures
        r.0 == digit_run_end(s@, j as int),
        j <= r.0 <= s.len(),
        r.1 == (decimal_value(s@.subrange(j as int, r.0 as int)) <= 0x7fff_ffff),
{
    let mut k: usize = j;
    let mut value: u64 = 0;
    let mut big = false;
    assert(s@.subrange(j as int, j as int) =~= Seq::<char>::empty());
    while k < s.len() && '0' <= s[k] && s[k] <= '9'
        invariant
            j <= k <= s.len(),
            digit_run_end(s@, k as int) == digit_run_end(s@, j as int),
            forall|m: int| j <= m < k ==> is_ascii_digit(#[trigger] s@[m]),
            big ==> decimal_value(s@.subrange(j as int, k as int)) > 0x7fff_ffff,
            !big ==> value == decimal_value(s@.subrange(j as int, k as int)) && value
                <= 0x7fff_ffff,
        decreases s.len() - k,
    {
        let ghost prev = s@.subrange(j as int, k as int);
        assert(s@.subrange(j as int, k + 1).drop_last() =~= prev);
        let digit = (s[k] as u32 - '0' as u32) as u64;
        assert(decimal_value(s@.subrange(j as int, k + 1)) == decimal_value(prev) * 10 + digit);
        assert(decimal_value(prev) * 10 + digit >= decimal_value(prev)) by (nonlinear_arith)
            requires
                digit >= 0,
        ;
        if !big {
            value = value * 10 + digit;
            if value > 0x7fff_ffff {
                big = true;
            }
        }
        k = k + 1;
    }
    (k, !big)
}

fn reads_as_range_exec(s: &Vec<char>, i: usize) -> (r: bool)
    requires
        lit_at(s@, i as int, byterange_lit()),
    ensures
        r == reads_as_range(s@, i as int),
{
    let v = i + 10;
    let quoted = v < s.len() && s[v] == '"';
    let j = if quoted {
        v + 1
    } else {
        v
    };
    let (e, fits) = digit_run(s, j);
    if j == e || !fits || e >= s.len() {
        return false;
    }
    if quoted {
        s[e] != '"'
    } else {
        s[e] != ',' && s[e] != '\r' && s[e] != '\n'
    }
}

fn contains_unreadable_byterange(text: &str) -> (r: bool)
    ensures
        r == has_unreadable_byterange(text@),
{
    let s = chars_of(text);
    let lit = vec!['B', 'Y', 'T', 'E', 'R', 'A', 'N', 'G', 'E', '='];
    assert(lit@ == byterange_lit());
    let mut i: usize = 0;
    while i < s.len()
        invariant
            i <= s.len(),
            s@ == text@,
            lit@ == byterange_lit(),
            forall|j: int|
                0 <= j < i ==> !(#[trigger] lit_at(s@, j, byterange_lit()) && !reads_as_range(
                    s@,
                    j,
                )),
        decreases s.len() - i,
    {
        if lit_at_exec(&s, i, &lit) && !reads_as_range_exec(&s, i) {
            return true;
        }
        i = i + 1;
    }
    assert forall|j: int| !(#[trigger] lit_at(s@, j, byterange_lit()) && !reads_as_range(s@, j)) by {
        if j >= s.len() {
            assert(j + byterange_lit().len() > s.len());
        }
    }
    false
}

/// The variants that a master playlist offers: those entries that state a
/// resolution, in the order listed, as (URI, bandwidth, resolution).
pub open spec fn kept_variants(es: Seq<(Seq<char>, Seq<char>, Option<Seq<char>>)>) -> Seq<
    (Seq<char>, Seq<char>, Seq<char>),
>
    decreases es.len(),
{
    if es.len() == 0 {
        seq![]
    } else {
        let prev = kept_variants(es.drop_last());
        let e = es.last();
        match e.2 {
            Some(r) => prev.push((e.0, e.1, r)),
            None => prev,
        }
    }
}

/// A selectable quality level of a video, with the master playlist it came from and,
/// once resolved, its segments.
pub struct M3u8VideoVariant {
    pub uri: String,
    pub bandwidth: String,
    pub resolution: String,
    segments: Option<Vec<M3u8VideoSegment>>,
    pub m3u8_content: Vec<u8>,
}

/// URI, bandwidth and resolution of each variant.
pub open spec fn variant_summaries(vs: Seq<M3u8VideoVariant>) -> Seq<
    (Seq<char>, Seq<char>, Seq<char>),
> {
    vs.map_values(|v: M3u8VideoVariant| v.summary())
}

/// What resolving a variant's segments leaves cached: an existing cache stays;
/// otherwise the segments of the media playlist `text`, if it parses.
pub open spec fn resolved(cache: Option<Seq<(u32, Seq<char>)>>, text: Seq<char>) -> Option<
    Seq<(u32, Seq<char>)>,
> {
    if cache is Some {
        cache
    } else if has_unreadable_byterange(text) {
        None
    } else {
        media_segments_of(text)
    }
}

impl M3u8VideoVariant {
    /// URI, bandwidth and resolution.
    pub closed spec fn summary(&self) -> (Seq<char>, Seq<char>, Seq<char>) {
        (self.uri@, self.bandwidth@, self.resolution@)
    }

    /// The bytes of the master playlist that the variant came from.
    pub closed spec fn content(&self) -> Seq<u8> {
        self.m3u8_content@
    }

    /// The cached segments, if they have been resolved.
    pub closed spec fn cached_segments(&self) -> Option<Seq<(u32, Seq<char>)>> {
        match self.segments {
            Some(ss) => Some(segment_views(ss@)),
            None => None,
        }
    }

    pub fn new(uri: String, bandwidth: String, resolution: String, m3u8_content: Vec<u8>) -> (r:
        M3u8VideoVariant)
        ensures
            r.content() == m3u8_content@,
            r.summary() == (uri@, bandwidth@, resolution@),
            r.cached_segments() is None,
    {
        M3u8VideoVariant { uri, bandwidth, resolution, segments: None, m3u8_content }
    }

    /// Whether the segments still have to be fetched: true until they are cached.
    pub fn needs_segments(&self) -> (r: bool)
        ensures
            r == (self.cached_segments() is None),
    {
        self.segments.is_none()
    }

    /// The cached segments, if any.
    pub fn segments(&self) -> (r: Option<&Vec<M3u8VideoSegment>>)
        ensures
            match r {
                Some(ss) => self.cached_segments() == Some(segment_views(ss@)),
                None => self.cached_segments() is None,
            },
    {
        match &self.segments {
            Some(ss) => Some(ss),
            None => None,
        }
    }

    /// Caches `segments` unless segments are cached already, in which case nothing
    /// changes.
    pub fn store_segments(&mut self, segments: Vec<M3u8VideoSegment>)
        ensures
            final(self).summary() == old(self).summary(),
            final(self).content() == old(self).content(),
            final(self).cached_segments() == (if old(self).cached_segments() is Some {
                old(self).cached_segments()
            } else {
                Some(segment_views(segments@))
            }),
    {
        if self.segments.is_none() {
            self.segments = Some(segments);
        }
    }

    /// Resolves the segments from the media playlist `text`, unless they are cached
    /// already. A playlist that the parser refuses, or one holding a `BYTERANGE`
    /// value that the parser would panic on, gives `ManifestInvalid` and leaves the
    /// variant as it was.
    pub fn store_media_playlist(&mut self, text: &str) -> (r: Result<(), VideoError>)
        ensures
            final(self).summary() == old(self).summary(),
            final(self).content() == old(self).content(),
            match resolved(old(self).cached_segments(), text@) {
                Some(ss) => r is Ok && final(self).cached_segments() == Some(ss),
                None => r matches Err(VideoError::ManifestInvalid)
                    && final(self).cached_segments() is None,
            },
    {
        if self.segments.is_some() {
            return Ok(());
        }
        if contains_unreadable_byterange(text) {
            return Err(VideoError::ManifestInvalid);
        }
        match parse_media_segments(text) {
            Some(ss) => {
                self.store_segments(ss);
                Ok(())
            },
            None => Err(VideoError::ManifestInvalid),
        }
    }
}

/// The variants of a master playlist whose entries the HLS parser reported: one per
/// entry with a resolution, in order, each carrying `content`, none resolved yet.
pub fn variants_from_entries(entries: Vec<MasterEntry>, content: &[u8]) -> (r: Vec<
    M3u8VideoVariant,
>)
    ensures
        variant_summaries(r@) == kept_variants(entry_views(entries@)),
        forall|i: int|
            0 <= i < r.len() ==> (#[trigger] r@[i]).content() == content@
                && r@[i].cached_segments() is None,
{
    let ghost es = entries@;
    let n = entries.len();
    let mut out: Vec<M3u8VideoVariant> = Vec::new();
    let mut rest = entries;
    let mut i: usize = 0;
    while i < n
        invariant
            n == es.len(),
            i <= n,
            rest@ == es.skip(i as int),
            variant_summaries(out@) == kept_variants(entry_views(es.take(i as int))),
            forall|j: int|
                0 <= j < out.len() ==> (#[trigger] out@[j]).content() == content@
                    && out@[j].cached_segments() is None,
        decreases n - i,
    {
        let e = rest.remove(0);
        assert(e == es[i as int]);
        assert(entry_views(es.take(i + 1)).drop_last() =~= entry_views(es.take(i as int)));
        match e.resolution {
            Some(res) => {
                let v = M3u8VideoVariant::new(e.uri, e.bandwidth, res, slice_to_vec(content));
                out.push(v);
                assert(variant_summaries(out@) =~= kept_variants(entry_views(es.take(i as int))).push(v.summary()));
            },
            None => {},
        }
        i = i + 1;
        assert(rest@ =~= es.skip(i as int));
    }
    assert(es.take(es.len() as int) =~= es);
    out
}

/// Parses a master playlist into its variants: one per entry with a resolution, in
/// the order listed, each carrying the playlist's bytes unchanged. Bytes that the HLS
/// parser refuses give `ManifestInvalid`.
pub fn parse_master(text: &[u8]) -> (r: Result<Vec<M3u8VideoVariant>, VideoError>)
    ensures
        match master_entries_of(text@) {
            Some(es) => r matches Ok(vs) && variant_summaries(vs@) == kept_variants(es) && (
            forall|i: int|
                0 <= i < vs.len() ==> (#[trigger] vs@[i]).content() == text@
                    && vs@[i].cached_segments() is None),
            None => r matches Err(VideoError::ManifestInvalid),
        },
{
    match parse_master_entries(text) {
        Some(es) => Ok(variants_from_entries(es, text)),
        None => Err(VideoError::ManifestInvalid),
    }
}

/// Once a variant's segments have been resolved, resolving them again, from any
/// playlist text, gives the same list, and the variant no longer needs a fetch.
pub proof fn lemma_resolution_is_memoized(
    cache: Option<Seq<(u32, Seq<char>)>>,
    first: Seq<char>,
    second: Seq<char>,
)
    requires
        resolved(cache, first) is Some,
    ensures
        resolved(resolved(cache, first), second) == resolved(cache, first),
{
}

// ---------------------------------------------------------------------------
// Quality selection
// ---------------------------------------------------------------------------

/// Value of a string of decimal digits.
pub open spec fn decimal_value(d: Seq<char>) -> nat
    decreases d.len(),
{
    if d.len() == 0 {
        0
    } else {
        (decimal_value(d.drop_last()) * 10 + (d.last() as int - '0' as int)) as nat
    }
}

/// The variant index that a line typed by the user names, among `count` variants:
/// the line, trimmed of white space, must be one or more decimal digits whose value
/// is below `count`.
pub open spec fn chosen_index(line: Seq<char>, count: nat) -> Option<nat> {
    let a = skip_white_space(line, 0, line.len() as int);
    let b = trim_end(line, a, line.len() as int);
    let d = line.subrange(a, b);
    if d.len() > 0 && (forall|i: int| 0 <= i < d.len() ==> is_ascii_digit(#[trigger] d[i]))
        && decimal_value(d) < count {
        Some(decimal_value(d))
    } else {
        None
    }
}

/// Reads the index of a variant from a line typed by the user; `None` where the line
/// is not a decimal number below `count`.
pub fn parse_choice(line: &str, count: usize) -> (r: Option<usize>)
    ensures
        match chosen_index(line@, count as nat) {
            Some(i) => r == Some(i as usize),
            None => r is None,
        },
{
    let s = chars_of(line);
    let a = skip_white_space_exec(&s, 0, s.len());
    let b = trim_end_exec(&s, a, s.len());
    let ghost d = s@.subrange(a as int, b as int);
    if a == b || count == 0 {
        return None;
    }
    assert(d.take(0) =~= Seq::<char>::empty());
    let mut value: usize = 0;
    let mut big = false;
    let mut k: usize = a;
    while k < b
        invariant
            a <= k <= b <= s.len(),
            d == s@.subrange(a as int, b as int),
            d == line@.subrange(a as int, b as int),
            a as int == skip_white_space(line@, 0, line@.len() as int),
            b as int == trim_end(line@, a as int, line@.len() as int),
            forall|i: int| 0 <= i < k - a ==> is_ascii_digit(#[trigger] d[i]),
            big ==> decimal_value(d.take(k - a)) >= count,
            !big ==> value == decimal_value(d.take(k - a)) && value < count,
        decreases b - k,
    {
        let c = s[k];
        assert(d[k - a] == c);
        if !('0' <= c && c <= '9') {
            assert(!is_ascii_digit(d[k - a]));
            return None;
        }
        let ghost prev = d.take(k - a);
        assert(d.take(k - a + 1).drop_last() =~= prev);
        let digit = (c as u32 - '0' as u32) as usize;
        assert(decimal_value(d.take(k - a + 1)) == decimal_value(prev) * 10 + digit);
        assert(decimal_value(prev) * 10 + digit >= decimal_value(prev)) by (nonlinear_arith)
            requires
                digit >= 0,
        ;
        if !big {
            match value.checked_mul(10) {
                Some(v) => match v.checked_add(digit) {
                    Some(w) => {
                        value = w;
                        if value >= count {
                            big = true;
                        }
                    },
                    None => {
                        big = true;
                    },
                },
                None => {
                    big = true;
                },
            }
        }
        k = k + 1;
    }
    assert(d.take(b - a) =~= d);
    if big {
        None
    } else {
        Some(value)
    }
}

// ---------------------------------------------------------------------------
// Segment assembly
// ---------------------------------------------------------------------------

/// What the assembler asks for next.
pub enum AssemblyStep {
    /// Fetch the segment at this index from this URI and hand its body back.
    Fetch(usize, String),
    /// Every segment has been received.
    Finished,
}

/// A progress report after a segment has been received.
pub struct Progress {
    /// Segments received so far.
    pub position: u64,
    /// Sum of the `Content-Length`s reported so far.
    pub bytes_so_far: u64,
    /// Size that the whole video is expected to have at the rate seen so far.
    pub projected_total: u64,
}

/// Expected size of the whole video: bytes per segment so far times the number of
/// segments, saturating at `u64::MAX`.
pub open spec fn projected_total(bytes: u64, done: nat, total: nat) -> u64 {
    if done == 0 {
        0
    } else if (bytes as nat / done) * total > u64::MAX {
        u64::MAX
    } else {
        ((bytes as nat / done) * total) as u64
    }
}

/// `a + b`, saturating at `u64::MAX`.
pub open spec fn saturating_sum(a: u64, b: u64) -> u64 {
    if a + b > u64::MAX {
        u64::MAX
    } else {
        (a + b) as u64
    }
}

/// Concatenation of segment bodies, in order.
pub open spec fn concat_bodies(bodies: Seq<Seq<u8>>) -> Seq<u8>
    decreases bodies.len(),
{
    if bodies.len() == 0 {
        seq![]
    } else {
        concat_bodies(bodies.drop_last()) + bodies.last()
    }
}

/// The decisions of a segment download: which segment to fetch next, what has been
/// received so far, and how large the result is expected to be. The caller does the
/// fetching and writing.
pub struct SegmentAssembly {
    uris: Vec<String>,
    done: usize,
    bytes_so_far: u64,
    written: Ghost<Seq<u8>>,
}

impl SegmentAssembly {
    /// The segment URIs, in playlist order.
    pub closed spec fn uris_view(&self) -> Seq<Seq<char>> {
        self.uris@.map_values(|u: String| u@)
    }

    /// Number of segments received.
    pub closed spec fn done_count(&self) -> nat {
        self.done as nat
    }

    /// Sum of the reported content lengths.
    pub closed spec fn bytes_view(&self) -> u64 {
        self.bytes_so_far
    }

    /// The bytes handed over so far, in the order received: what the output holds.
    pub closed spec fn written_view(&self) -> Seq<u8> {
        self.written@
    }

    /// No more segments received than there are.
    pub closed spec fn wf(&self) -> bool {
        self.done <= self.uris.len()
    }

    /// One segment received: the next index, the body appended to the output.
    pub open spec fn received(before: SegmentAssembly, body: Seq<u8>, after: SegmentAssembly) -> bool {
        &&& after.wf()
        &&& after.uris_view() == before.uris_view()
        &&& after.done_count() == before.done_count() + 1
        &&& after.written_view() == before.written_view() + body
    }

    /// A fresh assembly of `segments`, nothing received yet.
    pub fn new(segments: &Vec<M3u8VideoSegment>) -> (r: SegmentAssembly)
        ensures
            r.wf(),
            r.uris_view() == segment_views(segments@).map_values(|s: (u32, Seq<char>)| s.1),
            r.done_count() == 0,
            r.bytes_view() == 0,
            r.written_view() == Seq::<u8>::empty(),
    {
        let mut uris: Vec<String> = Vec::new();
        let mut i: usize = 0;
        while i < segments.len()
            invariant
                i <= segments.len(),
                uris.len() == i,
                forall|j: int| 0 <= j < i ==> (#[trigger] uris@[j])@ == segments@[j].uri@,
            decreases segments.len() - i,
        {
            uris.push(segments[i].uri.clone());
            i = i + 1;
        }
        let r = SegmentAssembly { uris, done: 0, bytes_so_far: 0, written: Ghost(Seq::empty()) };
        assert(r.uris_view() =~= segment_views(segments@).map_values(|s: (u32, Seq<char>)| s.1));
        r
    }

    /// Number of segments in all.
    pub fn total(&self) -> (n: usize)
        ensures
            n == self.uris_view().len(),
    {
        self.uris.len()
    }

    /// The next segment to fetch, in playlist order, or `Finished` once all have
    /// been received.
    pub fn next_step(&self) -> (r: AssemblyStep)
        requires
            self.wf(),
        ensures
            self.done_count() < self.uris_view().len() ==> (r matches AssemblyStep::Fetch(i, u)
                && i == self.done_count() && u@ == self.uris_view()[i as int]),
            self.done_count() == self.uris_view().len() ==> r is Finished,
    {
        if self.done < self.uris.len() {
            AssemblyStep::Fetch(self.done, self.uris[self.done].clone())
        } else {
            AssemblyStep::Finished
        }
    }

    /// Records the body of the segment that `next_step` asked for, with the
    /// `Content-Length` that came with it, and reports progress.
    pub fn segment_received(&mut self, body: &Vec<u8>, content_length: Option<u64>) -> (p:
        Progress)
        requires
            old(self).wf(),
            old(self).done_count() < old(self).uris_view().len(),
        ensures
            SegmentAssembly::received(*old(self), body@, *final(self)),
            final(self).bytes_view() == saturating_sum(
                old(self).bytes_view(),
                match content_length {
                    Some(n) => n,
                    None => 0,
                },
            ),
            p.position == final(self).done_count(),
            p.bytes_so_far == final(self).bytes_view(),
            p.projected_total == projected_total(
                final(self).bytes_view(),
                final(self).done_count(),
                final(self).uris_view().len(),
            ),
    {
        let len = match content_length {
            Some(n) => n,
            None => 0,
        };
        self.bytes_so_far = self.bytes_so_far.saturating_add(len);
        self.done = self.done + 1;
        self.written = Ghost(self.written@ + body@);
        let position = self.done as u64;
        let per_segment = self.bytes_so_far / position;
        let projected = match per_segment.checked_mul(self.uris.len() as u64) {
            Some(n) => n,
            None => u64::MAX,
        };
        Progress { position, bytes_so_far: self.bytes_so_far, projected_total: projected }
    }

    /// The error for a failure while fetching or writing the current segment.
    pub fn failure(&self, cause: String) -> (e: VideoError)
        ensures
            e matches VideoError::SegmentDownloadFailed(i, c) && i == self.done_count() && c
                == cause,
    {
        VideoError::SegmentDownloadFailed(self.done, cause)
    }
}

/// Fed the segment bodies in order, one per step, an assembly asks for segment `i` at
/// step `i`, is finished after exactly as many steps as there are segments, and has
/// handed over the concatenation of the bodies in playlist order.
pub proof fn lemma_assembly_in_order(states: Seq<SegmentAssembly>, bodies: Seq<Seq<u8>>)
    requires
        states.len() == bodies.len() + 1,
        states[0].wf(),
        states[0].done_count() == 0,
        states[0].written_view() == Seq::<u8>::empty(),
        forall|i: int|
            0 <= i < bodies.len() ==> SegmentAssembly::received(
                #[trigger] states[i],
                bodies[i],
                states[i + 1],
            ),
    ensures
        forall|i: int|
            0 <= i < states.len() ==> (#[trigger] states[i]).done_count() == i
                && states[i].uris_view() == states[0].uris_view(),
        states.last().written_view() == concat_bodies(bodies),
    decreases bodies.len(),
{
    if bodies.len() > 0 {
        let k = bodies.len() - 1;
        let ps = states.drop_last();
        let pb = bodies.drop_last();
        assert forall|i: int| 0 <= i < pb.len() implies SegmentAssembly::received(
            #[trigger] ps[i],
            pb[i],
            ps[i + 1],
        ) by {
            assert(SegmentAssembly::received(states[i], bodies[i], states[i + 1]));
        }
        lemma_assembly_in_order(ps, pb);
        assert(SegmentAssembly::received(states[k], bodies[k], states[k + 1]));
        assert forall|i: int| 0 <= i < states.len() implies (#[trigger] states[i]).done_count()
            == i && states[i].uris_view() == states[0].uris_view() by {
            if i < states.len() - 1 {
                assert(ps[i] == states[i]);
            }
        }
    } else {
        assert(states.last() == states[0]);
    }
}

} // verus!
