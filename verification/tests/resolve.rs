use shareplay::is_url;
use shareplay::is_youtube_playlist;
use shareplay::normalize_entry_url;
use shareplay::resolver_target;

#[test]
fn explicit_schemes_are_urls() {
    assert!(is_url("http://example.org/video"));
    assert!(is_url("https://example.org/video"));
    assert!(is_url("HTTPS://EXAMPLE.ORG/VIDEO"));
}

#[test]
fn known_hosts_without_scheme_are_urls() {
    assert!(is_url("youtube.com/watch?v=abc"));
    assert!(is_url("share this: youtu.be/abc"));
    assert!(is_url("vimeo.com/123"));
    assert!(is_url("dailymotion.com/video"));
    assert!(is_url("twitch.tv/somebody"));
    assert!(is_url("soundcloud.com/artist/track"));
    assert!(is_url("artist.bandcamp.com/album"));
}

#[test]
fn case_folding_decides_url_detection() {
    // Would fail if case folding handed its input back unchanged in the
    // wrong case, or if containment ignored the fold.
    assert!(is_url("WWW.YOUTUBE.COM/WATCH?V=ABC"));
    assert!(is_url("YouTu.Be/abc"));
}

#[test]
fn search_phrases_are_not_urls() {
    assert!(!is_url("never gonna give you up"));
    assert!(!is_url("httpvideo of a cat"));
    assert!(!is_url(""));
}

#[test]
fn playlist_detection_needs_host_and_list_marker() {
    assert!(is_youtube_playlist(
        "https://www.youtube.com/playlist?list=PL0123"
    ));
    assert!(is_youtube_playlist(
        "https://youtube.com/watch?v=a&list=PL0123"
    ));
    assert!(is_youtube_playlist("YOUTU.BE/x?LIST=PL9"));
    assert!(!is_youtube_playlist("https://youtu.be/abc"));
    assert!(!is_youtube_playlist("https://vimeo.com/playlist?list=3"));
    assert!(!is_youtube_playlist("list= of things i like"));
}

#[test]
fn resolver_target_wraps_search_phrases_only() {
    assert_eq!(
        resolver_target("https://youtu.be/abc"),
        "https://youtu.be/abc"
    );
    assert_eq!(
        resolver_target("never gonna give you up"),
        "ytsearch1:never gonna give you up"
    );
}

#[test]
fn playlist_entry_urls_are_normalized() {
    assert_eq!(
        normalize_entry_url("https://youtu.be/abc"),
        "https://youtu.be/abc"
    );
    assert_eq!(
        normalize_entry_url("dQw4w9WgXcQ"),
        "https://www.youtube.com/watch?v=dQw4w9WgXcQ"
    );
}
