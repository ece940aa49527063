use raiplay_dl::api::{
    parse_choice, parse_master, resolve_page_url, variants_from_entries, AssemblyStep, M3u8VideoSegment,
    M3u8VideoVariant, MasterEntry, SegmentAssembly, VideoError,
};

const MASTER: &str = "#EXTM3U\n\
#EXT-X-STREAM-INF:BANDWIDTH=5000000,RESOLUTION=1920x1080\n\
high.m3u8\n\
#EXT-X-STREAM-INF:BANDWIDTH=2500000,RESOLUTION=1280x720\n\
mid.m3u8\n\
#EXT-X-STREAM-INF:BANDWIDTH=64000\n\
audio.m3u8\n";

const MEDIA: &str = "#EXTM3U\n\
#EXT-X-TARGETDURATION:2\n\
#EXTINF:2.0,\n\
a.ts\n\
#EXTINF:2.0,\n\
b.ts\n\
#EXTINF:1.5,\n\
c.ts\n\
#EXT-X-ENDLIST\n";

#[test]
fn http_page_url_is_normalized() {
    let urls = resolve_page_url("http://www.raiplay.it/video/2020/02/example-abc.html").unwrap();
    assert_eq!(urls.page_url, "https://www.raiplay.it/video/2020/02/example-abc.html");
    assert_eq!(urls.metadata_url, "https://www.raiplay.it/video/2020/02/example-abc.json");
}

#[test]
fn https_page_url_without_www() {
    let urls = resolve_page_url("https://raiplay.it/video/2019/10/il-gattopardo-cbbcfc7a.html").unwrap();
    assert_eq!(urls.page_url, "https://raiplay.it/video/2019/10/il-gattopardo-cbbcfc7a.html");
    assert_eq!(urls.metadata_url, "https://raiplay.it/video/2019/10/il-gattopardo-cbbcfc7a.json");
}

#[test]
fn ftp_url_is_invalid() {
    match resolve_page_url("ftp://raiplay.it/x.html") {
        Err(VideoError::InvalidUrl(u)) => assert_eq!(u, "ftp://raiplay.it/x.html"),
        _ => panic!("expected InvalidUrl"),
    }
}

#[test]
fn malformed_page_urls_are_invalid() {
    for u in [
        "https://www.raiplay.it/video/20200/02/x.html",
        "https://www.raiplay.it/video/2020/2/x.html",
        "https://www.raiplay.it/video/2020/02/.html",
        "https://www.raiplay.it/video/2020/02/a.b.html",
        "https://www.raiplay.it/video/2020/02/x.htm",
        "https://www.example.com/video/2020/02/x.html",
        "https://www.raiplay.it/video/2020/02/x.html?q",
        "",
    ] {
        assert!(matches!(resolve_page_url(u), Err(VideoError::InvalidUrl(_))), "{}", u);
    }
}

#[test]
fn master_keeps_variants_with_resolution_in_order() {
    let vs = parse_master(MASTER.as_bytes()).unwrap();
    assert_eq!(vs.len(), 2);
    assert_eq!(vs[0].resolution, "1920x1080");
    assert_eq!(vs[0].uri, "high.m3u8");
    assert_eq!(vs[0].bandwidth, "5000000");
    assert_eq!(vs[1].resolution, "1280x720");
    assert_eq!(vs[1].uri, "mid.m3u8");
    assert_eq!(vs[0].m3u8_content, MASTER.as_bytes().to_vec());
    assert!(vs[1].needs_segments());
}

#[test]
fn variants_from_entries_filters_and_keeps_order() {
    let entries = vec![
        MasterEntry { uri: "a".to_string(), bandwidth: "1".to_string(), resolution: None },
        MasterEntry { uri: "b".to_string(), bandwidth: "2".to_string(), resolution: Some("640x360".to_string()) },
        MasterEntry { uri: "c".to_string(), bandwidth: "3".to_string(), resolution: None },
        MasterEntry { uri: "d".to_string(), bandwidth: "4".to_string(), resolution: Some("320x180".to_string()) },
    ];
    let vs = variants_from_entries(entries, b"raw");
    assert_eq!(vs.len(), 2);
    assert_eq!((vs[0].uri.as_str(), vs[0].bandwidth.as_str(), vs[0].resolution.as_str()), ("b", "2", "640x360"));
    assert_eq!((vs[1].uri.as_str(), vs[1].bandwidth.as_str(), vs[1].resolution.as_str()), ("d", "4", "320x180"));
    assert_eq!(vs[1].m3u8_content, b"raw".to_vec());
}

#[test]
fn master_without_stream_entries_has_no_variants() {
    // The HLS parser skips what it does not recognise.
    let vs = parse_master(b"not a playlist").unwrap();
    assert!(vs.is_empty());
}

#[test]
fn media_playlist_resolves_segments_in_order() {
    let mut v = M3u8VideoVariant::new("mid.m3u8".to_string(), "1".to_string(), "1280x720".to_string(), vec![]);
    assert!(v.needs_segments());
    assert!(v.segments().is_none());
    v.store_media_playlist(MEDIA).unwrap();
    assert!(!v.needs_segments());
    let segs = v.segments().unwrap();
    let uris: Vec<&str> = segs.iter().map(|s| s.uri.as_str()).collect();
    assert_eq!(uris, vec!["a.ts", "b.ts", "c.ts"]);
    let durations: Vec<f32> = segs.iter().map(|s| f32::from_bits(s.duration_bits)).collect();
    assert_eq!(durations, vec![2.0f32, 2.0, 1.5]);
}

#[test]
fn resolving_twice_keeps_the_first_list() {
    let mut v = M3u8VideoVariant::new("u".to_string(), "1".to_string(), "r".to_string(), vec![]);
    v.store_media_playlist(MEDIA).unwrap();
    let other = "#EXTM3U\n#EXT-X-TARGETDURATION:4\n#EXTINF:4.0,\nz.ts\n#EXT-X-ENDLIST\n";
    v.store_media_playlist(other).unwrap();
    let uris: Vec<&str> = v.segments().unwrap().iter().map(|s| s.uri.as_str()).collect();
    assert_eq!(uris, vec!["a.ts", "b.ts", "c.ts"]);
}

#[test]
fn media_playlist_without_segments_resolves_to_empty_list() {
    let mut v = M3u8VideoVariant::new("u".to_string(), "1".to_string(), "r".to_string(), vec![]);
    v.store_media_playlist("#EXTM3U\n#EXT-X-ENDLIST\n").unwrap();
    assert!(!v.needs_segments());
    assert!(v.segments().unwrap().is_empty());
}

#[test]
fn media_playlist_with_map_byterange_resolves() {
    let mut v = M3u8VideoVariant::new("u".to_string(), "1".to_string(), "r".to_string(), vec![]);
    let text = "#EXTM3U\n#EXT-X-TARGETDURATION:2\n#EXT-X-MAP:URI=\"init.mp4\",BYTERANGE=\"720@0\"\n#EXTINF:2.0,\na.ts\n#EXTINF:2.0,\nb.ts\n#EXT-X-ENDLIST\n";
    v.store_media_playlist(text).unwrap();
    let uris: Vec<&str> = v.segments().unwrap().iter().map(|s| s.uri.as_str()).collect();
    assert_eq!(uris, vec!["a.ts", "b.ts"]);
}

#[test]
fn media_playlist_with_bare_length_byterange_is_invalid() {
    let mut v = M3u8VideoVariant::new("u".to_string(), "1".to_string(), "r".to_string(), vec![]);
    let text = "#EXTM3U\n#EXT-X-TARGETDURATION:2\n#EXT-X-MAP:URI=\"init.mp4\",BYTERANGE=\"720\"\n#EXTINF:2.0,\na.ts\n";
    assert!(matches!(v.store_media_playlist(text), Err(VideoError::ManifestInvalid)));
    let huge = "#EXTM3U\n#EXT-X-MAP:URI=\"init.mp4\",BYTERANGE=\"99999999999@0\"\n#EXTINF:2.0,\na.ts\n";
    assert!(matches!(v.store_media_playlist(huge), Err(VideoError::ManifestInvalid)));
    assert!(v.needs_segments());
}

#[test]
fn media_playlist_with_map_byterange_is_invalid() {
    let mut v = M3u8VideoVariant::new("u".to_string(), "1".to_string(), "r".to_string(), vec![]);
    let text = "#EXTM3U\n#EXT-X-TARGETDURATION:2\n#EXT-X-MAP:URI=\"init.mp4\",BYTERANGE=\"x\"\n#EXTINF:2.0,\na.ts\n";
    assert!(matches!(v.store_media_playlist(text), Err(VideoError::ManifestInvalid)));
    assert!(v.needs_segments());
}

fn three_segments() -> Vec<M3u8VideoSegment> {
    ["a.ts", "b.ts", "c.ts"]
        .iter()
        .map(|u| M3u8VideoSegment { duration_bits: 2.0f32.to_bits(), uri: u.to_string() })
        .collect()
}

#[test]
fn assembly_concatenates_bodies_in_order() {
    let mut v = M3u8VideoVariant::new("mid.m3u8".to_string(), "1".to_string(), "1280x720".to_string(), vec![]);
    v.store_media_playlist(MEDIA).unwrap();
    let segs = v.segments().unwrap();
    let bodies = [("a.ts", b"AAA".to_vec()), ("b.ts", b"BBB".to_vec()), ("c.ts", b"CC".to_vec())];
    let mut assembly = SegmentAssembly::new(segs);
    let mut out: Vec<u8> = Vec::new();
    let mut advances = 0;
    let mut fetched: Vec<String> = Vec::new();
    loop {
        match assembly.next_step() {
            AssemblyStep::Fetch(i, uri) => {
                assert_eq!(i, fetched.len());
                let body = bodies.iter().find(|(u, _)| *u == uri).unwrap().1.clone();
                fetched.push(uri);
                out.extend_from_slice(&body);
                let p = assembly.segment_received(&body, Some(body.len() as u64));
                advances += 1;
                assert_eq!(p.position, advances);
            }
            AssemblyStep::Finished => break,
        }
    }
    assert_eq!(out, b"AAABBBCC".to_vec());
    assert_eq!(advances, 3);
    assert_eq!(fetched, vec!["a.ts", "b.ts", "c.ts"]);
}

#[test]
fn assembly_progress_projects_total() {
    let segs = three_segments();
    let mut assembly = SegmentAssembly::new(&segs);
    assert_eq!(assembly.total(), 3);
    let p = assembly.segment_received(&vec![0u8; 3], Some(100));
    assert_eq!((p.position, p.bytes_so_far, p.projected_total), (1, 100, 300));
    let p = assembly.segment_received(&vec![0u8; 3], None);
    assert_eq!((p.position, p.bytes_so_far, p.projected_total), (2, 100, 150));
    let p = assembly.segment_received(&vec![0u8; 3], Some(u64::MAX));
    assert_eq!((p.position, p.bytes_so_far), (3, u64::MAX));
    assert_eq!(p.projected_total, u64::MAX / 3 * 3);
    assert!(matches!(assembly.next_step(), AssemblyStep::Finished));
}

#[test]
fn assembly_failure_names_the_segment() {
    let segs = three_segments();
    let mut assembly = SegmentAssembly::new(&segs);
    let mut out: Vec<u8> = Vec::new();
    out.extend_from_slice(b"AAA");
    assembly.segment_received(&b"AAA".to_vec(), None);
    match assembly.next_step() {
        AssemblyStep::Fetch(1, uri) => assert_eq!(uri, "b.ts"),
        _ => panic!("expected the second segment"),
    }
    match assembly.failure("HTTP status 500".to_string()) {
        VideoError::SegmentDownloadFailed(i, cause) => {
            assert_eq!(i, 1);
            assert_eq!(cause, "HTTP status 500");
        }
        _ => panic!("expected SegmentDownloadFailed"),
    }
    assert!(out.starts_with(b"AAA"));
}

#[test]
fn empty_assembly_is_finished() {
    let assembly = SegmentAssembly::new(&vec![]);
    assert!(matches!(assembly.next_step(), AssemblyStep::Finished));
}

#[test]
fn choice_within_range() {
    assert_eq!(parse_choice("0\n", 3), Some(0));
    assert_eq!(parse_choice("  2  \n", 3), Some(2));
    assert_eq!(parse_choice("007", 8), Some(7));
}

#[test]
fn choice_out_of_range_or_malformed() {
    assert_eq!(parse_choice("3\n", 3), None);
    assert_eq!(parse_choice("-1\n", 3), None);
    assert_eq!(parse_choice("1 2\n", 3), None);
    assert_eq!(parse_choice("\n", 3), None);
    assert_eq!(parse_choice("x", 3), None);
    assert_eq!(parse_choice("0", 0), None);
    assert_eq!(parse_choice("99999999999999999999999999", usize::MAX), None);
}
