//! The data model of a remote transcript source and the pure pieces of
//! subtitle handling: pulling a video id out of a watch URL, choosing a
//! caption track by language, and turning timed transcript events into
//! SRT text.
//!
//! Fetching pages and deserializing JSON stay with the caller's I/O
//! layer, which hands values of these types in.

use vstd::prelude::*;
use vstd::string::*;
use crate::digits::dec_digits;
use crate::digits::u64_to_string;
use crate::digits::usize_to_string;

verus! {

/// The display name of a caption track.
#[derive(Debug)]
pub struct Name {
    pub text: String,
}

/// One caption track of a video: where to fetch it and what language it
/// carries.
#[derive(Debug)]
pub struct CaptionTrack {
    pub base_url: String,
    pub name: Name,
    pub lang_code: String,
}

/// The caption track list of a player response.
#[derive(Debug)]
pub struct PlayerCaptionsRenderer {
    pub tracks: Vec<CaptionTrack>,
}

/// The captions section of a player response.
#[derive(Debug)]
pub struct Captions {
    pub renderer: PlayerCaptionsRenderer,
}

/// The video metadata of a player response.
#[derive(Debug)]
pub struct VideoDetails {
    pub title: String,
    pub video_id: String,
}

/// What a video page's player object exposes: optional captions and
/// optional metadata.
#[derive(Debug)]
pub struct PlayerResponse {
    pub captions: Option<Captions>,
    pub video_details: Option<VideoDetails>,
}

/// A timed transcript as a list of events.
#[derive(Debug)]
pub struct TranscriptResponse {
    pub events: Vec<TranscriptEvent>,
}

/// One transcript event; only events carrying a start, a duration and
/// text segments become subtitles.
#[derive(Debug)]
pub struct TranscriptEvent {
    pub t_start_ms: Option<u64>,
    pub d_duration_ms: Option<u64>,
    pub segs: Option<Vec<Segment>>,
}

/// One piece of an event's text.
#[derive(Debug)]
pub struct Segment {
    pub utf8: String,
}

/// Whether two string slices hold the same characters.
pub fn str_eq(a: &str, b: &str) -> (r: bool)
    ensures
        r == (a@ == b@),
{
    let n = a.unicode_len();
    let m = b.unicode_len();
    if n != m {
        return false;
    }
    let mut i: usize = 0;
    while i < n
        invariant
            n == a@.len(),
            n == b@.len(),
            0 <= i <= n,
            forall|j: int| 0 <= j < i ==> a@[j] == b@[j],
        decreases n - i,
    {
        if a.get_char(i) != b.get_char(i) {
            return false;
        }
        i = i + 1;
    }
    proof {
        assert(a@ =~= b@);
    }
    true
}

/// `"v="` occurs in `s` at position `i`.
pub open spec fn vmatch(s: Seq<char>, i: int) -> bool {
    0 <= i && i + 2 <= s.len() && s[i] == 'v' && s[i + 1] == '='
}

/// `p` is the first occurrence of `"v="` at or after `lo`.
pub open spec fn is_first_vmatch_from(s: Seq<char>, lo: int, p: int) -> bool {
    lo <= p && vmatch(s, p) && (forall|j: int| lo <= j < p ==> !vmatch(s, j))
}

/// `p` is the first occurrence of `c` in `[lo, hi)`.
pub open spec fn is_first_char_from(s: Seq<char>, lo: int, hi: int, c: char, p: int) -> bool {
    lo <= p < hi && s[p] == c && (forall|j: int| lo <= j < p ==> s[j] != c)
}

fn find_vmatch_from(s: &str, lo: usize) -> (r: Option<usize>)
    requires
        lo <= s@.len(),
    ensures
        match r {
            Some(p) => is_first_vmatch_from(s@, lo as int, p as int),
            None => forall|j: int| lo <= j ==> !vmatch(s@, j),
        },
{
    let n = s.unicode_len();
    let mut i: usize = lo;
    while i < n && i + 1 < n
        invariant
            n == s@.len(),
            lo <= i,
            forall|j: int| lo <= j < i ==> !vmatch(s@, j),
        decreases n - i,
    {
        let c1 = s.get_char(i);
        let c2 = s.get_char(i + 1);
        if c1 == 'v' && c2 == '=' {
            return Some(i);
        }
        i = i + 1;
    }
    None
}

fn find_char_from(s: &str, lo: usize, hi: usize, c: char) -> (r: Option<usize>)
    requires
        lo <= hi <= s@.len(),
    ensures
        match r {
            Some(p) => is_first_char_from(s@, lo as int, hi as int, c, p as int),
            None => forall|j: int| lo <= j < hi ==> s@[j] != c,
        },
{
    let mut i: usize = lo;
    while i < hi
        invariant
            lo <= i <= hi <= s@.len(),
            forall|j: int| lo <= j < i ==> s@[j] != c,
        decreases hi - i,
    {
        if s.get_char(i) == c {
            return Some(i);
        }
        i = i + 1;
    }
    None
}

/// There is an occurrence of `"v="` at or after `lo`.
pub open spec fn has_first_vmatch_from(s: Seq<char>, lo: int) -> bool {
    exists|p: int| #[trigger] is_first_vmatch_from(s, lo, p)
}

/// The first occurrence of `"v="` at or after `lo`.
pub open spec fn first_vmatch_from(s: Seq<char>, lo: int) -> int {
    choose|p: int| #[trigger] is_first_vmatch_from(s, lo, p)
}

/// There is an occurrence of `c` in `[lo, hi)`.
pub open spec fn has_first_char_from(s: Seq<char>, lo: int, hi: int, c: char) -> bool {
    exists|p: int| #[trigger] is_first_char_from(s, lo, hi, c, p)
}

/// The first occurrence of `c` in `[lo, hi)`.
pub open spec fn first_char_from(s: Seq<char>, lo: int, hi: int, c: char) -> int {
    choose|p: int| #[trigger] is_first_char_from(s, lo, hi, c, p)
}

/// The video id carried by a watch URL: the text between the first
/// `"v="` and whatever ends it — the next `"v="` or the first `'&'` of
/// the remaining query string — and the input itself when it holds no
/// `"v="` at all.
pub open spec fn spec_extract_id(s: Seq<char>) -> Seq<char> {
    if has_first_vmatch_from(s, 0) {
        let p = first_vmatch_from(s, 0);
        let q = if has_first_vmatch_from(s, p + 2) {
            first_vmatch_from(s, p + 2)
        } else {
            s.len() as int
        };
        if has_first_char_from(s, p + 2, q, '&') {
            s.subrange(p + 2, first_char_from(s, p + 2, q, '&'))
        } else {
            s.subrange(p + 2, q)
        }
    } else {
        s
    }
}

/// Pulls the video id out of a watch URL, or returns the input unchanged
/// when it does not look like one.
pub fn extract_id(input: &str) -> (r: &str)
    ensures
        r@ == spec_extract_id(input@),
{
    let n = input.unicode_len();
    match find_vmatch_from(input, 0) {
        None => {
            proof {
                assert(!has_first_vmatch_from(input@, 0));
            }
            input
        },
        Some(p) => {
            proof {
                assert(is_first_vmatch_from(input@, 0, p as int));
                assert(has_first_vmatch_from(input@, 0));
                let p0 = first_vmatch_from(input@, 0);
                assert(is_first_vmatch_from(input@, 0, p0));
                assert(p0 == p as int);
            }
            let q = match find_vmatch_from(input, p + 2) {
                Some(q2) => {
                    proof {
                        assert(is_first_vmatch_from(input@, p + 2, q2 as int));
                        assert(has_first_vmatch_from(input@, p + 2));
                        let q0 = first_vmatch_from(input@, p + 2);
                        assert(is_first_vmatch_from(input@, p + 2, q0));
                        assert(q0 == q2 as int);
                    }
                    q2
                },
                None => {
                    proof {
                        assert(!has_first_vmatch_from(input@, p + 2));
                    }
                    n
                },
            };
            let end = match find_char_from(input, p + 2, q, '&') {
                Some(a) => {
                    proof {
                        assert(is_first_char_from(input@, p + 2, q as int, '&', a as int));
                        assert(has_first_char_from(input@, p + 2, q as int, '&'));
                        let a0 = first_char_from(input@, p + 2, q as int, '&');
                        assert(is_first_char_from(input@, p + 2, q as int, '&', a0));
                        assert(a0 == a as int);
                    }
                    a
                },
                None => {
                    proof {
                        assert(!has_first_char_from(input@, p + 2, q as int, '&'));
                    }
                    q
                },
            };
            input.substring_char(p + 2, end)
        },
    }
}

/// A two-digit, zero-padded decimal field; wider only when the value
/// needs more digits.
pub open spec fn pad2(x: nat) -> Seq<char> {
    if x < 10 {
        "0"@ + dec_digits(x)
    } else {
        dec_digits(x)
    }
}

/// A three-digit, zero-padded decimal field.
pub open spec fn pad3(x: nat) -> Seq<char> {
    if x < 10 {
        "00"@ + dec_digits(x)
    } else if x < 100 {
        "0"@ + dec_digits(x)
    } else {
        dec_digits(x)
    }
}

/// The SRT timestamp for a duration of `ms` milliseconds:
/// `HH:MM:SS,mmm`, hours growing beyond two digits when needed.
pub open spec fn spec_timestamp(ms: nat) -> Seq<char> {
    let s = ms / 1000;
    let m = s / 60;
    let h = m / 60;
    pad2(h) + ":"@ + pad2(m % 60) + ":"@ + pad2(s % 60) + ","@ + pad3(ms % 1000)
}

/// Formats a number of milliseconds as an SRT timestamp.
pub fn format_timestamp(ms: u64) -> (r: String)
    ensures
        r@ == spec_timestamp(ms as nat),
{
    let seconds = ms / 1000;
    let milliseconds = ms % 1000;
    let minutes = seconds / 60;
    let hours = minutes / 60;
    let mut r = pad2_string(hours);
    r.append(":");
    let f2 = pad2_string(minutes % 60);
    r.append(f2.as_str());
    r.append(":");
    let f3 = pad2_string(seconds % 60);
    r.append(f3.as_str());
    r.append(",");
    let f4 = pad3_string(milliseconds);
    r.append(f4.as_str());
    proof {
        assert(r@ =~= spec_timestamp(ms as nat));
    }
    r
}

fn pad2_string(x: u64) -> (r: String)
    ensures
        r@ == pad2(x as nat),
{
    if x < 10 {
        let mut r = String::from_str("0");
        r.append(u64_to_string(x).as_str());
        r
    } else {
        u64_to_string(x)
    }
}

fn pad3_string(x: u64) -> (r: String)
    ensures
        r@ == pad3(x as nat),
{
    if x < 10 {
        let mut r = String::from_str("00");
        r.append(u64_to_string(x).as_str());
        r
    } else if x < 100 {
        let mut r = String::from_str("0");
        r.append(u64_to_string(x).as_str());
        r
    } else {
        u64_to_string(x)
    }
}

/// What an html-entity decoder returns for a given text; the result is a
/// function of the text alone.
pub uninterp spec fn html_decoded(s: Seq<char>) -> Seq<char>;

/// Relies on html_escape::decode_html_entities: it rewrites only exact
/// character references, which all begin with `'&'`, so text without an
/// ampersand comes back unchanged.
#[verifier::external_body]
fn decode_entities(s: &str) -> (r: String)
    ensures
        r@ == html_decoded(s@),
        (forall|i: int| 0 <= i < s@.len() ==> s@[i] != '&') ==> r@ == s@,
{
    html_escape::decode_html_entities(s).into_owned()
}

/// The text of an event: its segments concatenated in order.
pub open spec fn spec_seg_text(segs: Seq<Segment>) -> Seq<char>
    decreases segs.len(),
{
    if segs.len() == 0 {
        Seq::empty()
    } else {
        spec_seg_text(segs.drop_last()) + segs.last().utf8@
    }
}

fn collect_segs(segs: &Vec<Segment>) -> (r: String)
    ensures
        r@ == spec_seg_text(segs@),
{
    let mut r = String::new();
    let mut i: usize = 0;
    while i < segs.len()
        invariant
            0 <= i <= segs@.len(),
            r@ == spec_seg_text(segs@.subrange(0, i as int)),
        decreases segs@.len() - i,
    {
        r.append(segs[i].utf8.as_str());
        i = i + 1;
        proof {
            let pref = segs@.subrange(0, i as int);
            assert(pref.drop_last() =~= segs@.subrange(0, i - 1));
            assert(pref.last() == segs@[i - 1]);
        }
    }
    proof {
        assert(segs@.subrange(0, segs@.len() as int) =~= segs@);
    }
    r
}

/// An event that becomes a subtitle: it carries a start, a duration and
/// text segments.
pub open spec fn spec_event_complete(e: TranscriptEvent) -> bool {
    e.t_start_ms is Some && e.d_duration_ms is Some && e.segs is Some
}

/// One numbered SRT block: counter line, timing line, text, and a blank
/// separator line.
pub open spec fn spec_srt_block(counter: nat, start: nat, end: nat, text: Seq<char>) -> Seq<char> {
    dec_digits(counter) + "\n"@ + spec_timestamp(start) + " --> "@ + spec_timestamp(end) + "\n"@
        + text + "\n\n"@
}

/// The SRT text of a list of events, numbering complete events from
/// `counter` on and skipping the rest.
pub open spec fn spec_events_srt(events: Seq<TranscriptEvent>, counter: nat) -> Seq<char>
    decreases events.len(),
{
    if events.len() == 0 {
        Seq::empty()
    } else {
        let e = events.first();
        if spec_event_complete(e) {
            spec_srt_block(
                counter,
                e.t_start_ms.unwrap() as nat,
                (e.t_start_ms.unwrap() + e.d_duration_ms.unwrap()) as nat,
                html_decoded(spec_seg_text(e.segs.unwrap()@)),
            ) + spec_events_srt(events.drop_first(), counter + 1)
        } else {
            spec_events_srt(events.drop_first(), counter)
        }
    }
}

fn srt_block(counter: usize, start: u64, end: u64, text: &str) -> (r: String)
    ensures
        r@ == spec_srt_block(counter as nat, start as nat, end as nat, text@),
{
    let mut r = usize_to_string(counter);
    r.append("\n");
    let ts = format_timestamp(start);
    r.append(ts.as_str());
    r.append(" --> ");
    let te = format_timestamp(end);
    r.append(te.as_str());
    r.append("\n");
    r.append(text);
    r.append("\n\n");
    proof {
        assert(r@ =~= spec_srt_block(counter as nat, start as nat, end as nat, text@));
    }
    r
}

/// Renders timed transcript events as SRT: complete events are numbered
/// from one in order, their segment texts are concatenated and
/// html-decoded, and events missing a start, a duration or segments are
/// skipped without consuming a number.
pub fn events_to_srt(events: &Vec<TranscriptEvent>) -> (r: String)
    requires
        forall|i: int|
            0 <= i < events@.len() && spec_event_complete(#[trigger] events@[i])
                ==> events@[i].t_start_ms.unwrap() + events@[i].d_duration_ms.unwrap()
                <= u64::MAX,
    ensures
        r@ == spec_events_srt(events@, 1),
{
    let mut out = String::new();
    let mut emitted: usize = 0;
    let mut i: usize = 0;
    proof {
        assert(events@.skip(0) =~= events@);
        assert(Seq::<char>::empty() + spec_events_srt(events@, 1) =~= spec_events_srt(events@, 1));
    }
    while i < events.len()
        invariant
            0 <= i <= events@.len(),
            emitted <= i,
            forall|k: int|
                0 <= k < events@.len() && spec_event_complete(#[trigger] events@[k])
                    ==> events@[k].t_start_ms.unwrap() + events@[k].d_duration_ms.unwrap()
                    <= u64::MAX,
            out@ + spec_events_srt(events@.skip(i as int), emitted as nat + 1) == spec_events_srt(
                events@,
                1,
            ),
        decreases events@.len() - i,
    {
        proof {
            let rest = events@.skip(i as int);
            assert(rest.first() == events@[i as int]);
            assert(rest.drop_first() =~= events@.skip(i + 1));
        }
        let ev = &events[i];
        let t = ev.t_start_ms;
        let d = ev.d_duration_ms;
        match (t, d, ev.segs.as_ref()) {
            (Some(start), Some(duration), Some(segs)) => {
                let end = start + duration;
                let raw_text = collect_segs(segs);
                let clean = decode_entities(raw_text.as_str());
                let block = srt_block(emitted + 1, start, end, clean.as_str());
                out.append(block.as_str());
                emitted = emitted + 1;
            },
            _ => {
                proof {
                    assert(!spec_event_complete(events@[i as int]));
                }
            },
        }
        i = i + 1;
    }
    proof {
        assert(events@.skip(events@.len() as int) =~= Seq::<TranscriptEvent>::empty());
        assert(out@ + Seq::<char>::empty() =~= out@);
    }
    out
}

/// The transcript URL for `lang`: the base URL of the first caption
/// track whose language code matches, if the response carries captions
/// and such a track exists.
pub fn caption_track_url(resp: &PlayerResponse, lang: &str) -> (r: Option<String>)
    ensures
        match resp.captions {
            None => r is None,
            Some(c) => match r {
                Some(u) => exists|i: int|
                    {
                        &&& 0 <= i < c.renderer.tracks@.len()
                        &&& u@ == (#[trigger] c.renderer.tracks@[i]).base_url@
                        &&& c.renderer.tracks@[i].lang_code@ == lang@
                        &&& (forall|j: int|
                            0 <= j < i ==> (#[trigger] c.renderer.tracks@[j]).lang_code@ != lang@)
                    },
                None => forall|j: int|
                    0 <= j < c.renderer.tracks@.len()
                        ==> (#[trigger] c.renderer.tracks@[j]).lang_code@ != lang@,
            },
        },
{
    match &resp.captions {
        None => None,
        Some(c) => {
            let tracks = &c.renderer.tracks;
            let mut i: usize = 0;
            while i < tracks.len()
                invariant
                    resp.captions is Some,
                    tracks@ == resp.captions->0.renderer.tracks@,
                    0 <= i <= tracks@.len(),
                    forall|j: int|
                        0 <= j < i ==> (#[trigger] tracks@[j]).lang_code@ != lang@,
                decreases tracks@.len() - i,
            {
                if str_eq(tracks[i].lang_code.as_str(), lang) {
                    let u = tracks[i].base_url.clone();
                    proof {
                        assert((#[trigger] tracks@[i as int]).lang_code@ == lang@);
                        assert(u@ == tracks@[i as int].base_url@);
                    }
                    return Some(u);
                }
                i = i + 1;
            }
            None
        },
    }
}

/// What a Unicode classifier says of one character; a function of the
/// character alone.
pub uninterp spec fn unicode_alphanumeric(c: char) -> bool;

/// Relies on char::is_alphanumeric: the classification depends on the
/// character alone, and ASCII letters and digits are alphanumeric.
#[verifier::external_body]
fn char_is_alphanumeric(c: char) -> (r: bool)
    ensures
        r == unicode_alphanumeric(c),
        ('0' <= c && c <= '9') || ('a' <= c && c <= 'z') || ('A' <= c && c <= 'Z') ==> r,
{
    c.is_alphanumeric()
}

/// A title reduced to a safe file-name fragment: alphanumeric characters
/// are kept, spaces become underscores, everything else is dropped.
pub open spec fn spec_sanitized(s: Seq<char>) -> Seq<char>
    decreases s.len(),
{
    if s.len() == 0 {
        Seq::empty()
    } else {
        let rest = spec_sanitized(s.drop_last());
        let c = s.last();
        if c == ' ' {
            rest.push('_')
        } else if unicode_alphanumeric(c) {
            rest.push(c)
        } else {
            rest
        }
    }
}

/// Reduces a video title to a safe file-name fragment.
pub fn sanitize_title(title: &str) -> (r: String)
    ensures
        r@ == spec_sanitized(title@),
{
    let n = title.unicode_len();
    let mut r = String::new();
    let mut i: usize = 0;
    while i < n
        invariant
            n == title@.len(),
            0 <= i <= n,
            r@ == spec_sanitized(title@.subrange(0, i as int)),
        decreases n - i,
    {
        let c = title.get_char(i);
        if c == ' ' {
            r.append("_");
        } else if char_is_alphanumeric(c) {
            let piece = title.substring_char(i, i + 1);
            proof {
                assert(piece@ =~= seq![title@[i as int]]);
            }
            r.append(piece);
        }
        i = i + 1;
        proof {
            let pref = title@.subrange(0, i as int);
            assert(pref.drop_last() =~= title@.subrange(0, i - 1));
            assert(pref.last() == title@[i - 1]);
            reveal_strlit("_");
            assert("_"@ =~= seq!['_']);
        }
    }
    proof {
        assert(title@.subrange(0, n as int) =~= title@);
    }
    r
}

/// The file name a downloaded subtitle is saved under: the sanitized
/// title, an underscore, the language code, and the `.srt` suffix.
pub fn subtitle_filename(title: &str, lang: &str) -> (r: String)
    ensures
        r@ == spec_sanitized(title@) + "_"@ + lang@ + ".srt"@,
{
    let mut r = sanitize_title(title);
    r.append("_");
    r.append(lang);
    r.append(".srt");
    r
}

} // verus!
