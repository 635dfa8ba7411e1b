//! What the client writes to its log about the songs it plays.

use vstd::prelude::*;
use vstd::slice::slice_subrange;

use crate::text::{
    append_chars, append_str, ascii_lower, chars_of, equals_str, find_str, first_sub, has_prefix,
    has_sub, last_index_of, splitn, splitn_chars, starts_with, string_of, texts, to_ascii_lower,
    trim, trim_end, trim_end_matches, trim_space, trim_start_matches, trim_start_str,
};

verus! {

/// One song waiting in the client's queue.
#[derive(Debug, Clone)]
pub struct QueueItem {
    pub player_names: Vec<String>,
    pub title: String,
    pub player_count: String,
    pub song_id: i32,
    pub major: String,
    pub duration: i32,
    pub group: String,
    pub double_width: bool,
}

/// One line of the log that matters.
#[derive(Debug, Clone)]
pub enum LogLine {
    /// A song began to play.
    VideoPlay { song_info: String, song_requester: Option<String> },
    /// The queue as it now stands.
    Queue { items: Vec<QueueItem> },
}

/// What follows the last dot of a file name, if it has a dot.
pub open spec fn extension(name: Seq<char>) -> Option<Seq<char>> {
    let dot = last_index_of(name, '.');
    if dot < 0 {
        None
    } else {
        Some(name.skip(dot + 1))
    }
}

/// Whether a file of this name is a log of the client: the name begins with
/// `output_log` and ends in `.txt`, in small or capital letters.
pub open spec fn log_file_name(name: Seq<char>) -> bool {
    &&& starts_with(name, "output_log"@)
    &&& extension(name) matches Some(ext)
    &&& ascii_lower(ext) == "txt"@
}

/// Whether a file of this name is a log of the client.
pub fn is_log_file(file_name: &str) -> (r: bool)
    ensures
        r == log_file_name(file_name@),
{
    let name = chars_of(file_name);
    let prefix = chars_of("output_log");
    if !has_prefix(name.as_slice(), prefix.as_slice()) {
        return false;
    }
    let mut at: usize = name.len();
    assert(name@.take(at as int) =~= name@);
    while at > 0 && name[at - 1] != '.'
        invariant
            at <= name.len(),
            last_index_of(name@, '.')
                == last_index_of(name@.take(at as int), '.'),
        decreases at,
    {
        assert(name@.take(at as int).drop_last() =~= name@.take(at - 1));
        at -= 1;
    }
    if at == 0 {
        return false;
    }
    assert(name@.take(at as int).last() == '.');
    let ext = slice_subrange(name.as_slice(), at, name.len());
    assert(ext@ =~= name@.skip(at as int));
    let lower = to_ascii_lower(ext);
    equals_str(lower.as_slice(), "txt")
}

/// What follows the first `pat` in `s`, where `pat` occurs in `s`.
pub open spec fn after_sub(s: Seq<char>, pat: Seq<char>) -> Seq<char> {
    s.skip((first_sub(s, pat) + pat.len()) as int)
}

/// What stands before the first `pat` in `s`, or all of `s` without one.
pub open spec fn before_sub(s: Seq<char>, pat: Seq<char>) -> Seq<char> {
    if has_sub(s, pat) {
        s.take(first_sub(s, pat) as int)
    } else {
        s
    }
}

/// The song and who asked for it, as a line of the log reports them.
///
/// A line that reports a song holds `[VRCX] VideoPlay(PyPyDance) `. Its
/// fourth field between commas, all that follows the third comma, is the
/// title in quotes after a `$`, with the name of whoever asked for it in
/// brackets at the end. The name `Random` stands for nobody.
pub open spec fn video_play_of(line: Seq<char>) -> Option<(Seq<char>, Option<Seq<char>>)> {
    let mark = "[VRCX] VideoPlay(PyPyDance) "@;
    let fields = splitn(trim_start_matches(trim(line), mark), ',', 4);
    if !has_sub(line, mark) || fields.len() < 4 {
        None
    } else {
        let info = trim_end_matches(trim_start_matches(fields[3], "\"$"@), "\""@);
        let requester = if has_sub(info, " ("@) {
            trim_end_matches(after_sub(info, " ("@), ")"@)
        } else {
            Seq::empty()
        };
        Some(
            (
                before_sub(info, " ("@),
                if requester == "Random"@ {
                    None
                } else {
                    Some(requester)
                },
            ),
        )
    }
}

/// The queue in JSON that a line of the log reports, if it reports one:
/// what follows the marker of a queue written or read, without white space
/// around it and without the `</color>` that may end it.
pub open spec fn queue_json_of(line: Seq<char>) -> Option<Seq<char>> {
    let written = "OnPreSerialization: queue info serialized: "@;
    let read = "OnDeserialization: syncedQueuedInfoJson = "@;
    if has_sub(line, written) {
        Some(trim_end_matches(trim(after_sub(line, written)), "</color>"@))
    } else if has_sub(line, read) {
        Some(trim_end_matches(trim(after_sub(line, read)), "</color>"@))
    } else {
        None
    }
}

/// Reads a line that reports a song.
pub fn parse_video_play(line: &str) -> (r: Option<LogLine>)
    ensures
        match (r, video_play_of(line@)) {
            (Some(LogLine::VideoPlay { song_info, song_requester }), Some((info, requester))) => {
                &&& song_info@ == info
                &&& match (song_requester, requester) {
                    (Some(name), Some(wanted)) => name@ == wanted,
                    (None, None) => true,
                    _ => false,
                }
            },
            (None, None) => true,
            _ => false,
        },
{
    let chars = chars_of(line);
    let mark = chars_of("[VRCX] VideoPlay(PyPyDance) ");
    if find_str(chars.as_slice(), mark.as_slice()).is_none() {
        return None;
    }
    let trimmed = trim_space(chars.as_slice());
    let body = trim_start_str(trimmed.as_slice(), mark.as_slice());
    let fields = splitn_chars(body.as_slice(), ',', 4);
    assert(texts(fields@).len() == fields@.len());
    if fields.len() < 4 {
        return None;
    }
    assert(texts(fields@)[3] == fields@[3]@);
    let opening = chars_of("\"$");
    let closing = chars_of("\"");
    let unquoted = trim_start_str(fields[3].as_slice(), opening.as_slice());
    let info = trim_end(unquoted.as_slice(), closing.as_slice());
    let bracket = chars_of(" (");
    let (song_info, requester) = match find_str(info.as_slice(), bracket.as_slice()) {
        Some(at) => {
            let end: usize = info.len();
            assert(at + bracket@.len() <= end);
            let head = vstd::slice::slice_subrange(info.as_slice(), 0, at);
            let tail = vstd::slice::slice_subrange(info.as_slice(), at + bracket.len(), end);
            assert(head@ =~= info@.take(at as int));
            assert(tail@ =~= info@.skip(at + bracket@.len()));
            let close = chars_of(")");
            (vstd::slice::slice_to_vec(head), trim_end(tail, close.as_slice()))
        },
        None => (info, Vec::new()),
    };
    let song_requester = if equals_str(requester.as_slice(), "Random") {
        None
    } else {
        Some(string_of(requester.as_slice()))
    };
    Some(LogLine::VideoPlay { song_info: string_of(song_info.as_slice()), song_requester })
}

/// Takes the queue in JSON out of a line that reports one.
pub fn parse_queue_json(line: &str) -> (r: Option<String>)
    ensures
        match (r, queue_json_of(line@)) {
            (Some(json), Some(wanted)) => json@ == wanted,
            (None, None) => true,
            _ => false,
        },
{
    let chars = chars_of(line);
    let written = chars_of("OnPreSerialization: queue info serialized: ");
    let read = chars_of("OnDeserialization: syncedQueuedInfoJson = ");
    let from: usize = match find_str(chars.as_slice(), written.as_slice()) {
        Some(at) => {
            assert(at + written@.len() <= chars@.len());
            at + written.len()
        },
        None => match find_str(chars.as_slice(), read.as_slice()) {
            Some(at) => {
                assert(at + read@.len() <= chars@.len());
                at + read.len()
            },
            None => {
                return None;
            },
        },
    };
    let tail = vstd::slice::slice_subrange(chars.as_slice(), from, chars.len());
    assert(tail@ =~= chars@.skip(from as int));
    let trimmed = trim_space(tail);
    let colour = chars_of("</color>");
    let json = trim_end(trimmed.as_slice(), colour.as_slice());
    Some(string_of(json.as_slice()))
}

/// The names one after the other with `, ` between them.
pub open spec fn comma_joined(names: Seq<String>) -> Seq<char>
    decreases names.len(),
{
    if names.len() == 0 {
        Seq::empty()
    } else if names.len() == 1 {
        names[0]@
    } else {
        comma_joined(names.drop_last()) + ", "@ + names.last()@
    }
}

/// The name of the text source that shows a line, and the text it shows:
/// the song now playing under `WDNow`, the song next in the queue under
/// `WDQueue`.
pub open spec fn caption_of(line: LogLine) -> (Seq<char>, Seq<char>) {
    match line {
        LogLine::VideoPlay { song_info, song_requester } => (
            "WDNow"@,
            match song_requester {
                None => "\u{5f53}\u{524d}\u{64ad}\u{653e}: "@ + song_info@,
                Some(name) => "\u{5f53}\u{524d}\u{64ad}\u{653e}: "@ + song_info@ + " ("@ + name@
                    + ")"@,
            },
        ),
        LogLine::Queue { items } => (
            "WDQueue"@,
            if items@.len() == 0 {
                Seq::empty()
            } else {
                "\u{4e0b}\u{4e00}\u{9996}: "@ + items@[0].title@ + " - "@ + items@[0].group@
                    + " ("@ + comma_joined(items@[0].player_names@) + ")"@
            },
        ),
    }
}

/// The names one after the other with `, ` between them.
pub fn join_names(names: &Vec<String>) -> (r: Vec<char>)
    ensures
        r@ == comma_joined(names@),
{
    let mut out: Vec<char> = Vec::new();
    let mut i: usize = 0;
    assert(names@.take(0) =~= Seq::<String>::empty());
    while i < names.len()
        invariant
            i <= names@.len(),
            out@ == comma_joined(names@.take(i as int)),
        decreases names.len() - i,
    {
        proof {
            assert(names@.take(i + 1).drop_last() =~= names@.take(i as int));
            assert(names@.take(i + 1).last() == names@[i as int]);
            if i == 0 {
                assert(names@.take(1)[0] == names@[0]);
            }
        }
        if i > 0 {
            append_str(&mut out, ", ");
        }
        append_str(&mut out, names[i].as_str());
        i += 1;
    }
    assert(names@.take(names@.len() as int) =~= names@);
    out
}

/// The name of the text source that shows a line, and the text it shows.
pub fn caption(line: &LogLine) -> (r: (String, String))
    ensures
        r.0@ == caption_of(*line).0,
        r.1@ == caption_of(*line).1,
{
    let mut text: Vec<char> = Vec::new();
    match line {
        LogLine::VideoPlay { song_info, song_requester } => {
            append_str(&mut text, "\u{5f53}\u{524d}\u{64ad}\u{653e}: ");
            append_str(&mut text, song_info.as_str());
            match song_requester {
                Some(name) => {
                    append_str(&mut text, " (");
                    append_str(&mut text, name.as_str());
                    append_str(&mut text, ")");
                },
                None => {},
            }
            (string_of(chars_of("WDNow").as_slice()), string_of(text.as_slice()))
        },
        LogLine::Queue { items } => {
            if items.len() > 0 {
                append_str(&mut text, "\u{4e0b}\u{4e00}\u{9996}: ");
                append_str(&mut text, items[0].title.as_str());
                append_str(&mut text, " - ");
                append_str(&mut text, items[0].group.as_str());
                append_str(&mut text, " (");
                let names = join_names(&items[0].player_names);
                append_chars(&mut text, names.as_slice());
                append_str(&mut text, ")");
            }
            (string_of(chars_of("WDQueue").as_slice()), string_of(text.as_slice()))
        },
    }
}

} // verus!
