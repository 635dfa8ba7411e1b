use wanna_cdn::cdn::receipt::{Receipt, ReceiptError, ReceiptServiceImpl, SongRef};
use wanna_cdn::types::timedmap::Cleanup;

fn create(
    service: &mut ReceiptServiceImpl,
    room: &str,
    target: &str,
    song: SongRef,
    sender: Option<&str>,
    id: &str,
    created_at: i64,
    now: u64,
) -> Result<Receipt, ReceiptError> {
    service.create_receipt(
        room.to_string(),
        target.to_string(),
        song,
        sender.map(|s| s.to_string()),
        Some("hi".to_string()),
        id.to_string(),
        created_at,
        now,
    )
}

#[test]
fn a_receipt_holds_what_it_was_made_with() {
    let mut service = ReceiptServiceImpl::new(5, 300);
    let r = create(&mut service, "room", "bob", SongRef::Id(42), Some("alice"), "id-1", 1000, 7)
        .unwrap();
    assert_eq!(r.receipt_id, "id-1");
    assert_eq!(r.room_id, "room");
    assert_eq!(r.target, "bob");
    assert_eq!(r.created_at, 1000);
    assert_eq!(r.expires_at, 1300);
    assert_eq!(r.song_id, Some(42));
    assert_eq!(r.song_url, None);
    assert_eq!(r.sender, Some("alice".to_string()));
    assert_eq!(r.message, Some("hi".to_string()));
    let by_url = create(
        &mut service,
        "room",
        "bob",
        SongRef::Url("https://example.com/v".to_string()),
        None,
        "id-2",
        1000,
        7,
    )
    .unwrap();
    assert_eq!(by_url.song_id, None);
    assert_eq!(by_url.song_url, Some("https://example.com/v".to_string()));
    assert_eq!(service.receipts.expiry_of("id-1"), Some(307));
}

#[test]
fn receipts_are_listed_by_room_senders_first_then_by_age() {
    let mut service = ReceiptServiceImpl::new(5, 300);
    create(&mut service, "room", "bob", SongRef::Id(1), None, "a", 10, 0).unwrap();
    create(&mut service, "room", "bob", SongRef::Id(2), Some("alice"), "b", 30, 0).unwrap();
    create(&mut service, "room", "bob", SongRef::Id(3), Some("carol"), "c", 20, 0).unwrap();
    create(&mut service, "room", "bob", SongRef::Id(4), None, "d", 5, 0).unwrap();
    create(&mut service, "other", "bob", SongRef::Id(5), Some("alice"), "e", 1, 0).unwrap();
    let ids: Vec<String> =
        service.receipts(&"room".to_string(), 0).into_iter().map(|r| r.receipt_id).collect();
    assert_eq!(ids, vec!["c", "b", "d", "a"]);
    let other: Vec<String> =
        service.receipts(&"other".to_string(), 0).into_iter().map(|r| r.receipt_id).collect();
    assert_eq!(other, vec!["e"]);
    assert!(service.receipts(&"empty".to_string(), 0).is_empty());
}

#[test]
fn receipts_expire() {
    let mut service = ReceiptServiceImpl::new(5, 300);
    create(&mut service, "room", "bob", SongRef::Id(1), None, "a", 10, 0).unwrap();
    create(&mut service, "room", "bob", SongRef::Id(2), None, "b", 20, 100).unwrap();
    assert_eq!(service.receipts(&"room".to_string(), 299).len(), 2);
    assert_eq!(service.receipts(&"room".to_string(), 300).len(), 1);
    assert_eq!(service.receipts(&"room".to_string(), 400).len(), 0);
    service.cleanup(300);
    assert_eq!(service.receipts.expiry_of("a"), None);
    assert_eq!(service.receipts.expiry_of("b"), Some(400));
}

#[test]
fn a_sender_has_a_limit_per_user() {
    let mut service = ReceiptServiceImpl::new(2, 300);
    create(&mut service, "room", "bob", SongRef::Id(1), Some("alice"), "a", 0, 0).unwrap();
    create(&mut service, "room", "bob", SongRef::Id(2), Some("alice"), "b", 0, 0).unwrap();
    assert_eq!(
        create(&mut service, "room", "bob", SongRef::Id(3), Some("alice"), "c", 0, 0).unwrap_err(),
        ReceiptError::TooManyReceipts
    );
    assert!(create(&mut service, "room", "bob", SongRef::Id(3), Some("carol"), "c", 0, 0).is_ok());
    assert!(create(&mut service, "room", "dave", SongRef::Id(3), Some("alice"), "d", 0, 0).is_ok());
    assert!(create(&mut service, "room2", "bob", SongRef::Id(3), Some("alice"), "e", 0, 0).is_ok());
    assert!(create(&mut service, "room", "bob", SongRef::Id(3), Some("alice"), "f", 0, 300).is_ok());
}

#[test]
fn the_first_receipt_of_a_sender_passes_any_limit() {
    let mut service = ReceiptServiceImpl::new(0, 300);
    assert!(create(&mut service, "room", "bob", SongRef::Id(1), Some("alice"), "a", 0, 0).is_ok());
    assert_eq!(
        create(&mut service, "room", "bob", SongRef::Id(2), Some("alice"), "b", 0, 0).unwrap_err(),
        ReceiptError::TooManyReceipts
    );
}

#[test]
fn the_same_song_is_not_asked_for_twice() {
    let mut service = ReceiptServiceImpl::new(5, 300);
    create(&mut service, "room", "bob", SongRef::Id(1), Some("alice"), "a", 0, 0).unwrap();
    create(&mut service, "room", "bob", SongRef::Url("u".to_string()), Some("alice"), "b", 0, 0)
        .unwrap();
    assert_eq!(
        create(&mut service, "room", "bob", SongRef::Id(1), Some("alice"), "c", 0, 0).unwrap_err(),
        ReceiptError::DuplicateSong
    );
    assert_eq!(
        create(&mut service, "room", "bob", SongRef::Url("u".to_string()), Some("alice"), "c", 0, 0)
            .unwrap_err(),
        ReceiptError::DuplicateUrl
    );
    assert!(create(&mut service, "room", "bob", SongRef::Id(1), None, "c", 0, 0).is_ok());
}

#[test]
fn an_id_taken_in_the_room_is_refused() {
    let mut service = ReceiptServiceImpl::new(5, 300);
    create(&mut service, "room", "bob", SongRef::Id(1), Some("alice"), "a", 0, 0).unwrap();
    assert_eq!(
        create(&mut service, "room", "eve", SongRef::Id(2), Some("mallory"), "a", 0, 0).unwrap_err(),
        ReceiptError::IdTaken
    );
    assert_eq!(service.receipts(&"room".to_string(), 0).len(), 1);
}

#[test]
fn copies_say_the_same() {
    let mut service = ReceiptServiceImpl::new(5, 300);
    let r = create(&mut service, "room", "bob", SongRef::Id(1), Some("alice"), "a", 0, 0).unwrap();
    let c = r.clone();
    assert_eq!(format!("{:?}", r), format!("{:?}", c));
}
