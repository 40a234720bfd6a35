use file_spliter::subtitles::caption_track_url;
use file_spliter::subtitles::events_to_srt;
use file_spliter::subtitles::extract_id;
use file_spliter::subtitles::format_timestamp;
use file_spliter::subtitles::sanitize_title;
use file_spliter::subtitles::str_eq;
use file_spliter::subtitles::subtitle_filename;
use file_spliter::subtitles::CaptionTrack;
use file_spliter::subtitles::Captions;
use file_spliter::subtitles::Name;
use file_spliter::subtitles::PlayerCaptionsRenderer;
use file_spliter::subtitles::PlayerResponse;
use file_spliter::subtitles::Segment;
use file_spliter::subtitles::TranscriptEvent;

fn track(lang: &str, url: &str) -> CaptionTrack {
    CaptionTrack {
        base_url: String::from(url),
        name: Name {
            text: String::from(lang),
        },
        lang_code: String::from(lang),
    }
}

fn response(tracks: Vec<CaptionTrack>) -> PlayerResponse {
    PlayerResponse {
        captions: Some(Captions {
            renderer: PlayerCaptionsRenderer { tracks },
        }),
        video_details: None,
    }
}

fn event(start: u64, duration: u64, texts: &[&str]) -> TranscriptEvent {
    TranscriptEvent {
        t_start_ms: Some(start),
        d_duration_ms: Some(duration),
        segs: Some(
            texts
                .iter()
                .map(|t| Segment {
                    utf8: String::from(*t),
                })
                .collect(),
        ),
    }
}

#[test]
fn video_id_comes_out_of_a_watch_url() {
    assert_eq!(
        extract_id("https://www.youtube.com/watch?v=abc123&t=5s"),
        "abc123"
    );
    assert_eq!(extract_id("v=xyz"), "xyz");
    assert_eq!(extract_id("plain-id"), "plain-id");
    assert_eq!(extract_id("xv=1v=2&z"), "1");
    assert_eq!(extract_id("watch?v=&t=1"), "");
}

#[test]
fn timestamps_are_zero_padded() {
    assert_eq!(format_timestamp(0), "00:00:00,000");
    assert_eq!(format_timestamp(3_723_456), "01:02:03,456");
    assert_eq!(format_timestamp(59_999), "00:00:59,999");
    assert_eq!(format_timestamp(360_000_000), "100:00:00,000");
}

#[test]
fn one_complete_event_becomes_one_numbered_block() {
    let events = vec![event(0, 1000, &["Hello", " world"])];
    assert_eq!(
        events_to_srt(&events),
        "1\n00:00:00,000 --> 00:00:01,000\nHello world\n\n"
    );
}

#[test]
fn incomplete_events_are_skipped_without_consuming_a_number() {
    let events = vec![
        event(0, 500, &["first"]),
        TranscriptEvent {
            t_start_ms: Some(600),
            d_duration_ms: None,
            segs: None,
        },
        event(1000, 250, &["second"]),
    ];
    let srt = events_to_srt(&events);
    assert_eq!(
        srt,
        "1\n00:00:00,000 --> 00:00:00,500\nfirst\n\n2\n00:00:01,000 --> 00:00:01,250\nsecond\n\n"
    );
}

#[test]
fn html_entities_in_event_text_are_decoded() {
    let events = vec![event(0, 100, &["it&#39;s &amp; it is"])];
    let srt = events_to_srt(&events);
    assert_eq!(srt, "1\n00:00:00,000 --> 00:00:00,100\nit's & it is\n\n");
}

#[test]
fn caption_track_is_picked_by_language() {
    let resp = response(vec![track("en", "http://en"), track("fr", "http://fr")]);
    assert_eq!(caption_track_url(&resp, "fr"), Some(String::from("http://fr")));
    assert_eq!(caption_track_url(&resp, "de"), None);
    let no_captions = PlayerResponse {
        captions: None,
        video_details: None,
    };
    assert_eq!(caption_track_url(&no_captions, "en"), None);
}

#[test]
fn the_first_matching_track_wins() {
    let resp = response(vec![track("en", "http://first"), track("en", "http://second")]);
    assert_eq!(
        caption_track_url(&resp, "en"),
        Some(String::from("http://first"))
    );
}

#[test]
fn titles_are_reduced_to_safe_filename_fragments() {
    assert_eq!(sanitize_title("My Video: Part 1!"), "My_Video_Part_1");
    assert_eq!(sanitize_title(""), "");
    assert_eq!(sanitize_title("???"), "");
    assert_eq!(subtitle_filename("My Clip", "en"), "My_Clip_en.srt");
}

#[test]
fn string_slices_compare_by_content() {
    assert!(str_eq("abc", "abc"));
    assert!(!str_eq("abc", "abd"));
    assert!(!str_eq("abc", "ab"));
    assert!(str_eq("", ""));
}
