use anime_manager::dlna::http::response_head;
use anime_manager::dlna::remux::{evict_more, total_after_eviction};
use anime_manager::dlna::request::{body_limit, head_end, parse_head};
use anime_manager::dlna::http::{Body, FileOpen, HttpResponse};
use anime_manager::dlna::server::{
    browse, browse_object_id, mark_failure_error, with_warning, browse_reply, browse_target, browse_with_opts, BrowseEpisode, BrowseLookup,
    BrowseRows, BrowseSeason, BrowseTarget, browse_page, counts_as_played, episode_gate, episode_item, media_episode_id, media_url, route,
    season_items, seasons_listing, shows_listing, BrowseShow, PlayedBytes, Route, ROOT_LISTING, dispatch, finish_answer, Answer,
    Dispatch,
};
use anime_manager::dlna::didl::cover_reply;
use anime_manager::dlna::remux::{cache_total, eviction_order, ffmpeg_args, is_stale_tmp, probe_has_ass, tmp_name, CacheFile};
use anime_manager::dlna::ssdp::{
    notify_alive, notify_byebye, ssdp_msearch_reply, xml_document, SCPD_CONNECTION_MANAGER, SCPD_CONTENT_DIRECTORY, SERVER_ID,
};
use anime_manager::dlna::{
    decode_id, encode_id, escape_filter_path, mime_for, parse_range, remux_path, serve_bytes_response,
    serve_file_response, should_mark_played, xml_escape, DlnaServer, REMUX_TIMEOUT_SECS,
};
use anime_manager::error::AppError;
use anime_manager::models::{EpisodeRow, EpisodeStatus, SeasonRow};

fn body_text(r: &HttpResponse) -> String {
    match &r.body {
        Body::Bytes(b) => String::from_utf8(b.clone()).unwrap(),
        Body::FileRange { .. } => panic!("expected an in-memory body"),
    }
}

fn header<'a>(r: &'a HttpResponse, k: &str) -> Option<&'a str> {
    r.headers.iter().find(|(n, _)| n == k).map(|(_, v)| v.as_str())
}

// ---------------------------------------------------------------------------
// ids
// ---------------------------------------------------------------------------

#[test]
fn ids_round_trips_opaque_ids_and_escapes_xml() {
    let s = encode_id("episode", 42);
    assert_eq!(s, "episode:42");
    assert_eq!(decode_id(&s), Some(("episode".into(), 42)));
    assert_eq!(decode_id("../etc"), None);
    assert_eq!(xml_escape("<a>&\"'"), "&lt;a&gt;&amp;&quot;&apos;");
}

#[test]
fn dlna_round_trips_opaque_ids_and_escapes_xml() {
    let s = encode_id("episode", 42);
    assert_eq!(s, "episode:42");
    assert_eq!(decode_id(&s), Some(("episode".into(), 42)));
    assert_eq!(decode_id("../etc"), None);
    assert_eq!(xml_escape("<a>&\"'"), "&lt;a&gt;&amp;&quot;&apos;");
}

#[test]
fn decode_id_rejects_signed_and_unknown() {
    for bad in ["show:+1", "show:-1", "foo:1", "show:", "nocolon", "episode:1x"] {
        assert_eq!(decode_id(bad), None, "{bad}");
    }
    assert_eq!(decode_id("show:1"), Some(("show".into(), 1)));
    assert_eq!(decode_id("root:0"), Some(("root".into(), 0)));
    assert_eq!(decode_id("episode:7"), Some(("episode".into(), 7)));
}

#[test]
fn every_kind_round_trips_through_its_id() {
    for kind in ["root", "shows", "show", "season", "episode"] {
        for id in [0i64, 1, 9, 10, 123456789, i64::MAX] {
            assert_eq!(decode_id(&encode_id(kind, id)), Some((kind.to_string(), id)));
        }
    }
    assert_eq!(decode_id("show:9223372036854775808"), None);
}

// ---------------------------------------------------------------------------
// remux
// ---------------------------------------------------------------------------

#[test]
fn remux_remux_key_tracks_size_mtime_and_threshold() {
    let a = remux_path("/c", 7, 100, 5, 0);
    let b = remux_path("/c", 7, 101, 5, 0);
    assert_ne!(a, b);
    let c = remux_path("/c", 7, 100, 5, 1);
    assert_ne!(a, c);
    assert!(should_mark_played(86, 100));
    assert!(!should_mark_played(10, 100));
}

#[test]
fn dlna_remux_key_tracks_size_mtime_and_threshold() {
    let a = remux_path("/c", 7, 100, 5, 0);
    let b = remux_path("/c", 7, 101, 5, 0);
    assert_ne!(a, b);
    assert!(should_mark_played(86, 100));
    assert!(!should_mark_played(10, 100));
}

#[test]
fn remux_should_mark_played_boundaries() {
    assert!(should_mark_played(100, 100));
    assert!(should_mark_played(85, 100));
    assert!(!should_mark_played(84, 100));
    assert!(!should_mark_played(0, 100));
    assert!(!should_mark_played(0, 0));
}

#[test]
fn dlna_should_mark_played_boundaries() {
    assert!(should_mark_played(100, 100));
    assert!(should_mark_played(85, 100));
    assert!(!should_mark_played(84, 100));
    assert!(!should_mark_played(0, 100));
    assert!(!should_mark_played(0, 0));
}

#[test]
fn should_mark_played_has_no_overflow_at_the_top() {
    assert!(should_mark_played(u64::MAX, u64::MAX));
    assert!(!should_mark_played(u64::MAX / 2, u64::MAX));
}

#[test]
fn remux_remux_path_keys_id_size_mtime() {
    let c = "/c";
    assert_eq!(remux_path(c, 7, 100, 5, 9), "/c/7-100-5-9.mp4");
    assert_ne!(remux_path(c, 8, 100, 5, 9), remux_path(c, 7, 100, 5, 9));
    assert_ne!(remux_path(c, 7, 100, 6, 9), remux_path(c, 7, 100, 5, 9));
    assert_ne!(remux_path(c, 7, 100, 5, 10), remux_path(c, 7, 100, 5, 9));
}

#[test]
fn remux_path_joins_without_doubling_the_separator() {
    assert_eq!(remux_path("/cache/", 1, 2, -3, 4), "/cache/1-2--3-4.mp4");
    assert_eq!(remux_path("", 1, 2, 3, 4), "1-2-3-4.mp4");
}

#[test]
fn escape_filter_path_escapes_filterchain_separators() {
    let esc = escape_filter_path("x';movie=foo");
    assert!(esc.contains("\\;"), "{esc}");
    assert!(esc.contains("\\="), "{esc}");
    assert!(esc.contains("\\'"), "{esc}");
}

#[test]
fn remux_timeout_is_thirty_minutes() {
    assert_eq!(REMUX_TIMEOUT_SECS, 30 * 60);
}

#[test]
fn escape_filter_path_escapes_ffmpeg_specials() {
    for (input, want) in [
        ("plain", "plain"),
        ("a;b", "a\\;b"),
        ("a=b", "a\\=b"),
        ("a'b", "a\\'b"),
        ("a\\b", "a\\\\b"),
        ("a:b", "a\\:b"),
        ("a,b", "a\\,b"),
        ("a[b", "a\\[b"),
        ("a]b", "a\\]b"),
        ("x';movie=foo", "x\\'\\;movie\\=foo"),
    ] {
        assert_eq!(escape_filter_path(input), want, "{input}");
    }
}

// ---------------------------------------------------------------------------
// device description and SSDP
// ---------------------------------------------------------------------------

fn server() -> DlnaServer {
    DlnaServer {
        port: 8200,
        name: "Shelf & Spine <test>".into(),
        uuid: "uuid:abc".into(),
        clients_seen: Default::default(),
    }
}

#[test]
fn ssdp_device_xml_names_server_and_services() {
    let xml = server().device_xml();
    assert!(xml.contains("<friendlyName>Shelf &amp; Spine &lt;test&gt;</friendlyName>"));
    assert!(xml.contains("<UDN>uuid:abc</UDN>"));
    assert!(xml.contains("urn:schemas-upnp-org:device:MediaServer:1"));
    assert!(xml.contains("<controlURL>/ctl/ContentDirectory</controlURL>"));
    assert!(xml.contains("<controlURL>/ctl/ConnectionManager</controlURL>"));
}

#[test]
fn dlna_device_xml_names_server_and_services() {
    let xml = server().device_xml();
    assert!(xml.contains("<friendlyName>Shelf &amp; Spine &lt;test&gt;</friendlyName>"));
    assert!(xml.contains("<UDN>uuid:abc</UDN>"));
    assert!(xml.contains("urn:schemas-upnp-org:device:MediaServer:1"));
    assert!(xml.contains("<controlURL>/ctl/ContentDirectory</controlURL>"));
    assert!(xml.contains("<controlURL>/ctl/ConnectionManager</controlURL>"));
}

const MSEARCH: &str = "M-SEARCH * HTTP/1.1\r\nHOST: 239.255.255.250:1900\r\n\
                       ST: urn:schemas-upnp-org:device:MediaServer:1\r\nMAN: \"ns=01\"\r\nMX: 3\r\n\r\n";

#[test]
fn ssdp_ssdp_msearch_reply_matches_spec() {
    assert_eq!(
        ssdp_msearch_reply(MSEARCH, "192.168.1.5", 8200, "uuid:test").unwrap(),
        format!(
            "HTTP/1.1 200 OK\r\nCACHE-CONTROL: max-age=1800\r\n\
             LOCATION: http://192.168.1.5:8200/desc.xml\r\nSERVER: {SERVER_ID}\r\n\
             ST: urn:schemas-upnp-org:device:MediaServer:1\r\n\
             USN: uuid:test::urn:schemas-upnp-org:device:MediaServer:1\r\n\r\n"
        )
    );
    let all = MSEARCH.replace("urn:schemas-upnp-org:device:MediaServer:1", "ssdp:all");
    assert!(ssdp_msearch_reply(&all, "192.168.1.5", 8200, "uuid:test").is_some());
    let other = MSEARCH.replace("MediaServer:1", "Printer:1");
    assert!(ssdp_msearch_reply(&other, "192.168.1.5", 8200, "uuid:test").is_none());
    assert!(ssdp_msearch_reply(
        "NOTIFY * HTTP/1.1\r\nNTS: ssdp:alive\r\n\r\n",
        "192.168.1.5",
        8200,
        "uuid:test"
    )
    .is_none());
}

#[test]
fn ssdp_notify_and_search_counter_paths() {
    let alive = notify_alive("192.168.1.5", 8200, "uuid:t");
    assert!(alive.contains("LOCATION: http://192.168.1.5:8200/desc.xml"), "{alive}");
    assert!(alive.contains("USN: uuid:t::urn:schemas-upnp-org:device:MediaServer:1"), "{alive}");
    assert!(alive.contains("NTS: ssdp:alive"), "{alive}");
    let byebye = notify_byebye("192.168.1.5", 8200, "uuid:t");
    assert!(byebye.contains("LOCATION: http://192.168.1.5:8200/desc.xml"), "{byebye}");
    assert!(byebye.contains("USN: uuid:t::urn:schemas-upnp-org:device:MediaServer:1"), "{byebye}");
    assert!(byebye.contains("NTS: ssdp:byebye"), "{byebye}");
    let reply = ssdp_msearch_reply(MSEARCH, "127.0.0.1", 8200, "uuid:t").expect("loopback search is answered");
    assert!(reply.contains("LOCATION: http://127.0.0.1:8200/desc.xml"), "{reply}");
}

#[test]
fn msearch_st_match_ignores_header_case_and_takes_the_last_st() {
    let lower = "M-SEARCH * HTTP/1.1\r\nst:  ssdp:all \r\n\r\n";
    assert!(ssdp_msearch_reply(lower, "10.0.0.2", 1, "u").is_some());
    let two = "M-SEARCH * HTTP/1.1\r\nST: ssdp:all\r\nST: urn:x:Printer:1\r\n\r\n";
    assert!(ssdp_msearch_reply(two, "10.0.0.2", 1, "u").is_none());
}

// ---------------------------------------------------------------------------
// HTTP pieces
// ---------------------------------------------------------------------------

#[test]
fn mime_for_maps_containers() {
    for (name, want) in [
        ("a.mkv", "video/x-matroska"),
        ("a.MKV", "video/x-matroska"),
        ("a.mp4", "video/mp4"),
        ("a.m4v", "video/mp4"),
        ("a.avi", "video/x-msvideo"),
        ("a.mov", "video/quicktime"),
        ("a.webm", "video/webm"),
        ("a.ts", "video/mp2t"),
        ("a.m2ts", "video/mp2t"),
        ("a.xyz", "application/octet-stream"),
        ("noext", "application/octet-stream"),
    ] {
        assert_eq!(mime_for(name), want, "{name}");
    }
}

#[test]
fn serve_file_response_missing_path_is_404_not_truncated_200() {
    let missing = "/nonexistent-dlna-test/nope.mkv";
    let resp = serve_file_response(missing, FileOpen::NotFound, "video/x-matroska", 7, None, &[]);
    assert_eq!(resp.status, 404);
    let ranged = serve_file_response(missing, FileOpen::NotFound, "video/x-matroska", 7, Some("bytes=0-3"), &[]);
    assert_eq!(ranged.status, 404);
}

#[test]
fn serve_file_response_plans_the_span_it_streams() {
    let r = serve_file_response("/m/a.mkv", FileOpen::Opened, "video/x-matroska", 10, Some("bytes=2-5"), &[]);
    assert_eq!(r.status, 206);
    assert_eq!(header(&r, "Content-Range"), Some("bytes 2-5/10"));
    match &r.body {
        Body::FileRange { path, offset, len } => {
            assert_eq!(path, "/m/a.mkv");
            assert_eq!((*offset, *len), (2, 4));
        }
        Body::Bytes(_) => panic!("expected a file span"),
    }
    let failed = serve_file_response("/m/a.mkv", FileOpen::Failed, "video/x-matroska", 10, None, &[]);
    assert_eq!(failed.status, 500);
}

#[test]
fn parse_range_edge_cases() {
    assert_eq!(parse_range("bytes=-3", 8), Ok(Some((5, 7))));
    assert_eq!(parse_range("bytes=5-", 8), Ok(Some((5, 7))));
    assert_eq!(parse_range("bytes=99-", 8), Err(()));
    assert_eq!(parse_range("bytes=5-2", 8), Err(()));
    assert_eq!(parse_range("bytes=0", 8), Err(()));
    assert_eq!(parse_range("items=0-1", 8), Ok(None));
    let resp = serve_bytes_response(&[0u8; 8], "video/x-matroska", Some("bytes=99-200"), &[]);
    assert_eq!(resp.status, 416);
    assert!(
        resp.headers.iter().any(|(k, v)| k == "Content-Range" && v == "bytes */8"),
        "{:?}",
        resp.headers
    );
}

#[test]
fn parse_range_clamps_the_end_and_the_suffix() {
    assert_eq!(parse_range("bytes=2-100", 8), Ok(Some((2, 7))));
    assert_eq!(parse_range("bytes=-100", 8), Ok(Some((0, 7))));
    assert_eq!(parse_range("bytes=-0", 8), Err(()));
}

#[test]
fn serve_bytes_response_serves_the_requested_slice() {
    let data = b"0123456789";
    let r = serve_bytes_response(data, "video/mp4", Some("bytes=3-4"), &[]);
    assert_eq!(r.status, 206);
    assert_eq!(body_text(&r), "34");
    let full = serve_bytes_response(data, "video/mp4", None, &[]);
    assert_eq!(full.status, 200);
    assert_eq!(body_text(&full), "0123456789");
    let empty = serve_bytes_response(&[], "video/mp4", Some("bytes=0-"), &[]);
    assert_eq!(empty.status, 200);
    assert_eq!(body_text(&empty), "");
}

// ---------------------------------------------------------------------------
// server decisions
// ---------------------------------------------------------------------------

#[test]
fn routes_follow_method_and_path() {
    assert_eq!(route("GET", "/desc.xml", ""), Route::DeviceDescription);
    assert_eq!(route("GET", "/scpd/ContentDirectory.xml", ""), Route::ContentDirectoryScpd);
    assert_eq!(route("GET", "/scpd/ConnectionManager.xml", ""), Route::ConnectionManagerScpd);
    assert_eq!(route("GET", "/covers/7.jpg", ""), Route::Cover { name: "7.jpg".into() });
    assert_eq!(
        route("GET", "/media/episode:3?remux=1", ""),
        Route::Media { id: "episode:3".into(), remux: true, head: false }
    );
    assert_eq!(
        route("HEAD", "/media/episode:3?x=1&remux=1", ""),
        Route::Media { id: "episode:3".into(), remux: true, head: true }
    );
    assert_eq!(
        route("GET", "/media/episode:3?remux=10", ""),
        Route::Media { id: "episode:3".into(), remux: false, head: false }
    );
    assert_eq!(
        route("POST", "/ctl/ContentDirectory", "\"urn:schemas-upnp-org:service:ContentDirectory:1#Browse\""),
        Route::Browse
    );
    assert_eq!(route("POST", "/ctl/ContentDirectory", "#Search"), Route::ActionFailed);
    assert_eq!(route("POST", "/ctl/ConnectionManager", "#GetProtocolInfo"), Route::ProtocolInfo);
    assert_eq!(route("GET", "/ctl/ContentDirectory", ""), Route::MethodNotAllowed);
    assert_eq!(route("GET", "/nope", ""), Route::NotFound);
    assert_eq!(route("DELETE", "/desc.xml", ""), Route::MethodNotAllowed);
}

fn browse_body(start: &str, count: &str) -> String {
    format!("<s:Body><u:Browse><ObjectID>shows:0</ObjectID><StartingIndex>{start}</StartingIndex><RequestedCount>{count}</RequestedCount></u:Browse></s:Body>")
}

#[test]
fn browse_pages_by_starting_index_and_count() {
    let didl = "<item id=\"a\"></item><item id=\"b\"></item><item id=\"c\"></item>";
    let r = browse_page(didl, &browse_body("1", "1"));
    assert_eq!(r.status, 200);
    let t = body_text(&r);
    assert!(t.contains("<NumberReturned>1</NumberReturned>"), "{t}");
    assert!(t.contains("<TotalMatches>3</TotalMatches>"), "{t}");
    assert!(t.contains("id=&quot;b&quot;"), "{t}");
    assert!(!t.contains("id=&quot;a&quot;"), "{t}");
    let all = body_text(&browse_page(didl, &browse_body("0", "0")));
    assert!(all.contains("<NumberReturned>3</NumberReturned>"), "{all}");
    let past = body_text(&browse_page(didl, &browse_body("9", "2")));
    assert!(past.contains("<NumberReturned>0</NumberReturned>"), "{past}");
    let junk = body_text(&browse_page(didl, &browse_body("x", "y")));
    assert!(junk.contains("<NumberReturned>3</NumberReturned>"), "{junk}");
}

#[test]
fn listings_name_their_children() {
    assert!(ROOT_LISTING.contains("id=\"shows:0\""));
    let shows = vec![
        BrowseShow { id: 4, title: "A & B".into(), art: Some("http://h/covers/4.jpg".into()) },
        BrowseShow { id: 5, title: "C".into(), art: None },
    ];
    let s = shows_listing(&shows);
    assert_eq!(
        s,
        "<container id=\"show:4\" parentID=\"shows:0\" restricted=\"1\"><dc:title>A &amp; B</dc:title>\
         <upnp:albumArtURI>http://h/covers/4.jpg</upnp:albumArtURI></container>\
         <container id=\"show:5\" parentID=\"shows:0\" restricted=\"1\"><dc:title>C</dc:title></container>"
    );
    let seasons = vec![
        SeasonRow { id: 11, number: 1, title: None, episodes: vec![] },
        SeasonRow { id: 12, number: 2, title: Some("Arc".into()), episodes: vec![] },
    ];
    let l = seasons_listing("show:4", &seasons);
    assert_eq!(
        l,
        "<container id=\"season:11\" parentID=\"show:4\" restricted=\"1\"><dc:title>Season 1</dc:title></container>\
         <container id=\"season:12\" parentID=\"show:4\" restricted=\"1\"><dc:title>Arc</dc:title></container>"
    );
}

fn ep(id: i64, number: u32, status: EpisodeStatus) -> EpisodeRow {
    EpisodeRow {
        id,
        season_id: 11,
        number,
        path: format!("/lib/Show/{number:02}.mkv"),
        size: 100,
        mtime: 1,
        release_group: None,
        resolution: None,
        crc: None,
        status,
        last_played_at: None,
    }
}

#[test]
fn season_items_hide_missing_rows_and_offer_remux_with_ffmpeg() {
    let season = SeasonRow {
        id: 11,
        number: 1,
        title: None,
        episodes: vec![ep(1, 1, EpisodeStatus::Unplayed), ep(2, 2, EpisodeStatus::Missing)],
    };
    let with = season_items("Show", &season, None, true, "http://h:1");
    assert!(with.contains("episode:1"), "{with}");
    assert!(!with.contains("episode:2"), "{with}");
    assert!(with.contains("http://h:1/media/episode:1?remux=1"), "{with}");
    let without = season_items("Show", &season, None, false, "http://h:1");
    assert!(!without.contains("remux=1"), "{without}");
    let one = episode_item("Show", 1, &season.episodes[0], Some("http://h:1/covers/a.png"), false, "http://h:1");
    assert_eq!(one, season_items("Show", &season, Some("http://h:1/covers/a.png"), false, "http://h:1"));
    assert!(one.contains("<upnp:albumArtURI>http://h:1/covers/a.png</upnp:albumArtURI>"), "{one}");
    assert!(!without.contains("albumArtURI"), "{without}");
}

#[test]
fn media_urls_point_at_the_episode() {
    assert_eq!(media_url("http://h:8200", 7, false), "http://h:8200/media/episode:7");
    assert_eq!(media_url("", 7, true), "/media/episode:7?remux=1");
}

#[test]
fn played_bytes_accumulate_across_connections() {
    let mut p = PlayedBytes::new();
    assert!(!p.note(1, 50, 100));
    assert!(!p.note(1, 30, 100));
    assert!(p.note(1, 10, 100));
    // The total was dropped when the episode was marked: counting starts over.
    assert!(!p.note(1, 50, 100));
    // Episodes count separately; a zero-length file never marks.
    assert!(!p.note(2, 80, 100));
    assert!(!p.note(3, 0, 0));
    assert!(p.note(2, 5, 100));
}

#[test]
fn media_requests_gate_on_ids_and_rows() {
    assert_eq!(media_episode_id("episode:9").ok(), Some(9));
    assert_eq!(media_episode_id("show:9").err().map(|e| e.status), Some(404));
    assert_eq!(media_episode_id("bogus").err().map(|e| e.status), Some(404));
    assert!(episode_gate(Some(EpisodeStatus::Played)).is_ok());
    assert_eq!(episode_gate(Some(EpisodeStatus::Missing)).err().map(|e| e.status), Some(404));
    assert_eq!(episode_gate(None).err().map(|e| e.status), Some(404));
    assert!(counts_as_played(200) && counts_as_played(206));
    assert!(!counts_as_played(416) && !counts_as_played(404));
}

// ---------------------------------------------------------------------------
// Browse over the rows the library read
// ---------------------------------------------------------------------------

fn tree_episode(id: i64, number: u32, status: EpisodeStatus) -> EpisodeRow {
    EpisodeRow {
        id,
        season_id: 21,
        number,
        path: format!("/lib/Browse Tree/{number:02}.mkv"),
        size: 1,
        mtime: 1,
        release_group: None,
        resolution: None,
        crc: None,
        status,
        last_played_at: None,
    }
}

#[test]
fn browse_root_lists_shows_and_hides_missing() {
    let root = browse("root:0", &BrowseRows::Root).unwrap();
    assert!(root.contains("shows:0"));
    let shows = browse(
        "shows:0",
        &BrowseRows::Shows(vec![BrowseShow { id: 3, title: "Browse Tree".into(), art: None }]),
    )
    .unwrap();
    assert!(shows.contains("Browse Tree"));
    let show_out = browse(
        "show:3",
        &BrowseRows::Show(vec![SeasonRow { id: 21, number: 1, title: None, episodes: vec![] }]),
    )
    .unwrap();
    assert!(show_out.contains("Season 1"));
    let season = |status| BrowseSeason {
        show_title: "Browse Tree".into(),
        art: None,
        season: SeasonRow { id: 21, number: 1, title: None, episodes: vec![tree_episode(5, 1, status)] },
    };
    let season_out = browse_with_opts(
        "season:21",
        &BrowseRows::Season(Some(season(EpisodeStatus::Unplayed))),
        false,
        "http://127.0.0.1:8200",
    )
    .unwrap();
    assert!(season_out.contains("S01E01"));
    assert!(season_out.contains("http://127.0.0.1:8200/media/episode:"));
    let hidden = browse("season:21", &BrowseRows::Season(Some(season(EpisodeStatus::Missing)))).unwrap();
    assert!(!hidden.contains("S01E01"));
}

#[test]
fn browse_rejects_garbage_and_serves_single_episode() {
    assert!(matches!(browse_target("!!!"), Err(AppError::Parse(_))));
    assert!(matches!(browse_target("show:abc"), Err(AppError::Parse(_))));
    assert!(matches!(browse("!!!", &BrowseRows::Root), Err(AppError::Parse(_))));
    assert_eq!(
        browse("episode:99999", &BrowseRows::Episode(None)),
        Err(AppError::Parse("no such episode: episode:99999".into()))
    );
    let base = "http://127.0.0.1:8200";
    let rows = BrowseRows::Episode(Some(BrowseEpisode {
        show_title: "Single Ep".into(),
        season_no: 1,
        episode: tree_episode(8, 2, EpisodeStatus::Unplayed),
        art: None,
    }));
    let didl = browse_with_opts("episode:8", &rows, false, base).unwrap();
    assert!(didl.contains("S01E02"));
    assert!(didl.contains(&format!("{base}/media/episode:8")));
    let missing = BrowseRows::Episode(Some(BrowseEpisode {
        show_title: "Single Ep".into(),
        season_no: 1,
        episode: tree_episode(8, 2, EpisodeStatus::Missing),
        art: None,
    }));
    assert_eq!(browse("episode:8", &missing), Err(AppError::Parse("episode missing: episode:8".into())));
}

#[test]
fn browse_targets_follow_the_id_kind() {
    assert_eq!(browse_target("root:0"), Ok(BrowseTarget::Root));
    assert_eq!(browse_target("shows:0"), Ok(BrowseTarget::Shows));
    assert_eq!(browse_target("show:4"), Ok(BrowseTarget::Show(4)));
    assert_eq!(browse_target("season:5"), Ok(BrowseTarget::Season(5)));
    assert_eq!(browse_target("episode:6"), Ok(BrowseTarget::Episode(6)));
    assert_eq!(browse_target("x"), Err(AppError::Parse("bad object id: x".into())));
}

#[test]
fn browse_empty_library() {
    let root = browse("root:0", &BrowseRows::Root).unwrap();
    assert!(root.contains("shows:0"));
    let shows = browse("shows:0", &BrowseRows::Shows(vec![])).unwrap();
    assert!(shows.is_empty());
}

#[test]
fn serve_browse_maps_garbage_to_701() {
    let soap = "<s:Envelope><s:Body><u:Browse xmlns:u=\"urn:schemas-upnp-org:service:ContentDirectory:1\">\
                <ObjectID>???</ObjectID></u:Browse></s:Body></s:Envelope>";
    let oid = browse_object_id(soap).ok().unwrap();
    let resp = browse_reply(&oid, soap, &BrowseLookup::NotFound, false, "");
    assert_eq!(resp.status, 500);
    assert!(body_text(&resp).contains("<errorCode>701</errorCode>"));
    let none = browse_object_id("<s:Body></s:Body>").err().unwrap();
    assert!(body_text(&none).contains("<errorCode>701</errorCode>"));
}

#[test]
fn browse_replies_fault_or_page() {
    let body = "<ObjectID>episode:8</ObjectID>";
    let failed = browse_reply("episode:8", body, &BrowseLookup::Failed, false, "");
    assert!(body_text(&failed).contains("<errorCode>501</errorCode>"));
    let gone = browse_reply("episode:8", body, &BrowseLookup::Found(BrowseRows::Episode(None)), false, "");
    assert!(body_text(&gone).contains("<errorCode>701</errorCode>"));
    let ok = browse_reply("root:0", "<ObjectID>root:0</ObjectID>", &BrowseLookup::Found(BrowseRows::Root), false, "");
    assert_eq!(ok.status, 200);
    let t = body_text(&ok);
    assert!(t.contains("<NumberReturned>1</NumberReturned>") && t.contains("<TotalMatches>1</TotalMatches>"), "{t}");
}

#[test]
fn cache_eviction_goes_oldest_first_and_keeps_ties_in_order() {
    let f = |secs: u64, nanos: u32, len: u64| CacheFile { modified: (secs, nanos), len };
    let files = vec![f(5, 0, 10), f(3, 7, 20), f(5, 0, 30), f(3, 2, 40), f(9, 0, u64::MAX)];
    assert_eq!(eviction_order(&files), vec![3, 1, 0, 2, 4]);
    assert_eq!(cache_total(&files[..4]), 100);
    assert_eq!(cache_total(&files), u64::MAX);
    assert!(eviction_order(&[]).is_empty());
}

#[test]
fn covers_are_bare_names_with_an_image_type() {
    let r = cover_reply("7.PNG", Some(vec![1, 2, 3]));
    assert_eq!(r.status, 200);
    assert_eq!(header(&r, "Content-Type"), Some("image/png"));
    assert_eq!(header(&r, "Cache-Control"), Some("max-age=3600"));
    assert_eq!(header(&cover_reply("a.jpeg", Some(vec![])), "Content-Type"), Some("image/jpeg"));
    assert_eq!(header(&cover_reply("a.bmp", Some(vec![])), "Content-Type"), Some("application/octet-stream"));
    assert_eq!(cover_reply("../x.png", Some(vec![1])).status, 404);
    assert_eq!(cover_reply("a\\b.png", Some(vec![1])).status, 404);
    assert_eq!(cover_reply("", Some(vec![1])).status, 404);
    assert_eq!(cover_reply("7.png", None).status, 404);
}

#[test]
fn transcode_attempts_use_their_own_files_and_arguments() {
    assert_eq!(tmp_name("7-100-5-9", 42, 3), "7-100-5-9.42-3.tmp");
    assert!(is_stale_tmp("7-100-5-9", "7-100-5-9.42-3.tmp"));
    assert!(!is_stale_tmp("7-100-5-9", "7-100-5-9.mp4"));
    assert!(!is_stale_tmp("7-100-5-9", "7-100-5-90.1-1.tmp"));
    assert!(probe_has_ass("{\"codec_type\": \"subtitle\", \"codec_name\": \"ASS\"}"));
    assert!(!probe_has_ass("{\"codec_type\": \"subtitle\", \"codec_name\": \"subrip\"}"));
    assert!(!probe_has_ass("{\"codec_name\": \"ass\"}"));
    assert_eq!(
        ffmpeg_args("/m/a;b.mkv", "/c/x.tmp", true),
        vec![
            "-y", "-nostdin", "-i", "/m/a;b.mkv", "-c:v", "libx264", "-preset", "veryfast", "-c:a", "aac", "-vf",
            "subtitles='/m/a\\;b.mkv'", "-movflags", "+faststart", "/c/x.tmp",
        ]
    );
    let plain = ffmpeg_args("/m/a.mkv", "/c/x.tmp", false);
    assert_eq!(&plain[10..12], &["-c:s".to_string(), "mov_text".to_string()]);
}

#[test]
fn service_documents_and_warnings() {
    let d = xml_document(SCPD_CONTENT_DIRECTORY);
    assert_eq!(d.status, 200);
    assert!(body_text(&d).contains("<name>Browse</name>"));
    assert!(SCPD_CONNECTION_MANAGER.contains("<name>GetProtocolInfo</name>"));
    assert_eq!(with_warning(None, "a"), "a");
    assert_eq!(with_warning(Some("a".into()), "b"), "a; b");
    assert_eq!(
        mark_failure_error(4, "locked"),
        AppError::Db("DLNA watched state not saved for episode 4 (still shows unplayed): locked".into())
    );
}

fn ready(d: Dispatch) -> HttpResponse {
    match d.answer {
        Answer::Ready(r) => r,
        _ => panic!("expected a fixed answer"),
    }
}


#[test]
fn dispatch_status_matrix() {
    let xml = "<root>device</root>";
    for m in ["PUT", "DELETE", "OPTIONS"] {
        assert_eq!(ready(dispatch(m, "/desc.xml", "", xml)).status, 405);
    }
    assert_eq!(ready(dispatch("GET", "/ctl/ContentDirectory", "", xml)).status, 405);
    assert_eq!(ready(dispatch("GET", "/ctl/ConnectionManager", "", xml)).status, 405);
    let fault = ready(dispatch("POST", "/ctl/ContentDirectory", "\"urn:x#Search\"", xml));
    assert_eq!(fault.status, 500);
    assert!(body_text(&fault).contains("<errorCode>501</errorCode>"));
    for m in ["GET", "HEAD", "POST"] {
        let r = ready(dispatch(m, "/nope", "", xml));
        assert_eq!(r.status, 404);
        assert_eq!(body_text(&r), "no such resource");
    }
    let desc = ready(dispatch("GET", "/desc.xml", "", xml));
    assert_eq!(desc.status, 200);
    assert_eq!(body_text(&desc), xml);
    assert_eq!(body_text(&ready(dispatch("GET", "/scpd/ContentDirectory.xml", "", xml))), SCPD_CONTENT_DIRECTORY);
    assert!(!dispatch("GET", "/desc.xml", "", xml).renderer);
    let media = dispatch("HEAD", "/media/episode:4?remux=1", "", xml);
    assert!(media.renderer);
    assert!(matches!(media.answer, Answer::Media { ref id, remux: true, head: true } if id == "episode:4"));
    assert!(dispatch("GET", "/media/episode:4", "", xml).renderer);
    assert!(!dispatch("POST", "/media/episode:4", "", xml).renderer);
    assert!(matches!(dispatch("POST", "/ctl/ContentDirectory", "urn:x#Browse", xml).answer, Answer::Browse));
    assert!(matches!(dispatch("GET", "/covers/7.jpg", "", xml).answer, Answer::Cover { ref name } if name == "7.jpg"));
}

#[test]
fn head_answers_carry_headers_without_body_or_mark() {
    let full = HttpResponse::error(200, "OK", "hello");
    let (head, mark) = finish_answer(true, HttpResponse::error(200, "OK", "hello"));
    assert!(!mark);
    assert_eq!(head.status, 200);
    assert_eq!(head.headers, full.headers);
    assert_eq!(body_text(&head), "");
    let (get, mark) = finish_answer(false, HttpResponse::error(200, "OK", "hello"));
    assert!(mark);
    assert_eq!(body_text(&get), "hello");
}

#[test]
fn request_head_is_read_line_by_line() {
    let raw = b"POST /ctl/ContentDirectory HTTP/1.1\r\nHost: x\r\nContent-Length: 12\r\nSOAPACTION:  \"urn:x#Browse\" \r\n\r\nbody";
    assert_eq!(head_end(raw), Some(raw.len() - 4));
    assert_eq!(head_end(b"GET / HTTP/1.1\r\n"), None);
    let h = parse_head(std::str::from_utf8(&raw[..raw.len() - 4]).unwrap());
    assert_eq!(h.method, "POST");
    assert_eq!(h.target, "/ctl/ContentDirectory");
    assert_eq!(
        h.headers,
        vec![
            ("host".to_string(), "x".to_string()),
            ("content-length".to_string(), "12".to_string()),
            ("soapaction".to_string(), "\"urn:x#Browse\"".to_string()),
        ]
    );
    let empty = parse_head("");
    assert_eq!((empty.method.as_str(), empty.target.as_str(), empty.headers.len()), ("", "", 0));
    assert_eq!(body_limit("POST", Some("12")), Some(12));
    assert_eq!(body_limit("POST", Some("99999999")), Some(1 << 20));
    assert_eq!(body_limit("POST", Some("x")), Some(0));
    assert_eq!(body_limit("POST", None), Some(0));
    assert_eq!(body_limit("GET", Some("12")), None);
}

#[test]
fn escaped_text_reads_back_and_plain_text_is_kept() {
    let s = "Tom & Jerry's \"<Best>\"";
    let e = xml_escape(s);
    assert!(!e.contains('<') && !e.contains('>') && !e.contains('"') && !e.contains('\''));
    let back = e
        .replace("&lt;", "<")
        .replace("&gt;", ">")
        .replace("&quot;", "\"")
        .replace("&apos;", "'")
        .replace("&amp;", "&");
    assert_eq!(back, s);
    assert_eq!(xml_escape("plain text 123"), "plain text 123");
}

#[test]
fn eviction_stops_at_the_cap_and_counts_only_removed_files() {
    assert!(evict_more(30, 20));
    assert!(!evict_more(20, 20));
    assert_eq!(total_after_eviction(30, 10, true), 20);
    assert_eq!(total_after_eviction(30, 10, false), 30);
    assert_eq!(total_after_eviction(5, 10, true), 0);
}

#[test]
fn response_head_writes_status_line_and_headers() {
    let r = HttpResponse::error(404, "Not Found", "nope");
    assert_eq!(
        response_head(&r),
        "HTTP/1.1 404 Not Found\r\nContent-Type: text/plain; charset=\"utf-8\"\r\nContent-Length: 4\r\nConnection: close\r\n\r\n"
    );
}
