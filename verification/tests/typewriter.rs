use wanna_cdn::http::override_song_id;
use wanna_cdn::rtsp::{join_letters, typed_letter, ClientToken, TypewriterServiceImpl};
use wanna_cdn::wanna::log_watcher::{
    caption, join_names, parse_queue_json, parse_video_play, LogLine, QueueItem,
};

fn s(x: &str) -> String {
    x.to_string()
}

#[test]
fn letters_are_read_back_as_one_text() {
    let mut t = TypewriterServiceImpl::new();
    t.write(s("1.2.3.4"), s("114514"), s("B"));
    t.write(s("1.2.3.4"), s("114514"), s("V"));
    t.write(s("5.6.7.8"), s("114514"), s("x"));
    t.write(s("1.2.3.4"), s("other"), s("y"));
    t.write(s("1.2.3.4"), s("114514"), s("1"));
    assert_eq!(t.read(s("1.2.3.4"), s("114514")), "BV1");
    assert_eq!(t.read(s("1.2.3.4"), s("114514")), "");
    assert_eq!(t.read(s("5.6.7.8"), s("114514")), "x");
    assert_eq!(t.read(s("1.2.3.4"), s("other")), "y");
    assert_eq!(t.read(s("9.9.9.9"), s("114514")), "");
    t.write(s("1.2.3.4"), s("114514"), s("z"));
    assert_eq!(t.read(s("1.2.3.4"), s("114514")), "z");
}

#[test]
fn client_tokens() {
    let a = ClientToken::new(s("1.2.3.4"), s("t"));
    assert_eq!(a.client_ip, "1.2.3.4");
    assert_eq!(a.client_token, "t");
    assert!(a.same(&ClientToken::new(s("1.2.3.4"), s("t"))));
    assert!(!a.same(&ClientToken::new(s("1.2.3.4"), s("u"))));
    assert!(!a.same(&ClientToken::new(s("1.2.3.5"), s("t"))));
    assert_eq!(join_letters(&vec![s("a"), s("bc"), s("")]), "abc");
}

#[test]
fn only_describe_of_the_typewriter_types() {
    assert_eq!(typed_letter(true, &vec![s("typewriter"), s("B")]), Some(s("B")));
    assert_eq!(typed_letter(false, &vec![s("typewriter"), s("B")]), None);
    assert_eq!(typed_letter(true, &vec![s("typewriter")]), None);
    assert_eq!(typed_letter(true, &vec![s("typewriter"), s("B"), s("C")]), None);
    assert_eq!(typed_letter(true, &vec![s("other"), s("B")]), None);
}

#[test]
fn override_ids() {
    assert_eq!(override_song_id("42.mp4"), Some(42));
    assert_eq!(override_song_id("42"), Some(42));
    assert_eq!(override_song_id("notes.txt"), None);
    assert_eq!(override_song_id("0.mp4"), None);
}

fn play(line: &str) -> Option<(String, Option<String>)> {
    match parse_video_play(line) {
        Some(LogLine::VideoPlay { song_info, song_requester }) => Some((song_info, song_requester)),
        Some(other) => panic!("unexpected: {:?}", other),
        None => None,
    }
}

#[test]
fn video_play_lines() {
    assert_eq!(
        play("[VRCX] VideoPlay(PyPyDance) \"http://api.udon.dance/Api/Songs/play?id=1\",0,114514,\"$1. CH4NGE - Giga | Song^_^ (imkiva)\"\n"),
        Some((s("1. CH4NGE - Giga | Song^_^"), Some(s("imkiva"))))
    );
    assert_eq!(
        play("2024.03.01 12:00:00 Log        -  [VRCX] VideoPlay(PyPyDance) \"u\",0,1,\"$Title, with comma (Random)\""),
        Some((s("Title, with comma"), None))
    );
    assert_eq!(
        play("[VRCX] VideoPlay(PyPyDance) \"u\",0,1,\"$No requester\""),
        Some((s("No requester"), Some(s(""))))
    );
    assert_eq!(play("[VRCX] VideoPlay(PyPyDance) \"u\",0,1"), None);
    assert_eq!(play("some other line, a, b, c"), None);
}

#[test]
fn queue_lines() {
    assert_eq!(
        parse_queue_json("x OnPreSerialization: queue info serialized: [{\"a\":1}]</color>\n"),
        Some(s("[{\"a\":1}]"))
    );
    assert_eq!(
        parse_queue_json("OnDeserialization: syncedQueuedInfoJson =   []  "),
        Some(s("[]"))
    );
    assert_eq!(parse_queue_json("nothing here"), None);
}

fn item(title: &str, group: &str, names: &[&str]) -> QueueItem {
    QueueItem {
        player_names: names.iter().map(|n| n.to_string()).collect(),
        title: s(title),
        player_count: s("1"),
        song_id: 1,
        major: s(""),
        duration: 100,
        group: s(group),
        double_width: false,
    }
}

#[test]
fn captions() {
    let now = LogLine::VideoPlay { song_info: s("Song"), song_requester: Some(s("imkiva")) };
    assert_eq!(caption(&now), (s("WDNow"), s("当前播放: Song (imkiva)")));
    let random = LogLine::VideoPlay { song_info: s("Song"), song_requester: None };
    assert_eq!(caption(&random), (s("WDNow"), s("当前播放: Song")));
    let queue = LogLine::Queue { items: vec![item("T", "G", &["a", "b"]), item("U", "H", &[])] };
    assert_eq!(caption(&queue), (s("WDQueue"), s("下一首: T - G (a, b)")));
    let empty = LogLine::Queue { items: vec![] };
    assert_eq!(caption(&empty), (s("WDQueue"), s("")));
    let names: String = join_names(&vec![s("a"), s("b"), s("c")]).into_iter().collect();
    assert_eq!(names, "a, b, c");
}
