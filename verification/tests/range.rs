use wanna_cdn::cdn::range::{get_range, get_range_params, plan_range, Error, RangePlan, CHUNK_SIZE};

fn header(s: &str) -> Option<String> {
    Some(s.to_string())
}

#[test]
fn bounds_of_a_range() {
    assert_eq!(get_range_params(&header("bytes=0-1023"), 5000), Ok((0, 1023)));
    assert_eq!(get_range_params(&header("bytes=100-"), 5000), Ok((100, 4999)));
    assert_eq!(get_range_params(&header("bytes=-500"), 5000), Ok((500, 4999)));
    assert_eq!(get_range_params(&header("bytes="), 5000), Ok((0, 4999)));
    assert_eq!(get_range_params(&header("7-9"), 5000), Ok((7, 9)));
    assert_eq!(get_range_params(&None, 5000), Ok((0, 4999)));
}

#[test]
fn unreadable_bounds() {
    assert_eq!(get_range_params(&header("bytes=a-5"), 5000), Err(Error::BadStart));
    assert_eq!(get_range_params(&header("bytes=5-b"), 5000), Err(Error::BadEnd));
    assert_eq!(get_range_params(&header("bytes=1,2-3"), 5000), Err(Error::BadStart));
    assert_eq!(get_range_params(&header("bytes=0-"), 0), Err(Error::EmptyFile));
    assert_eq!(get_range_params(&None, 0), Err(Error::EmptyFile));
    assert_eq!(get_range_params(&header("bytes=0-0"), 0), Ok((0, 0)));
}

#[test]
fn plans() {
    assert_eq!(
        plan_range(&None, 1_000_000),
        Ok(RangePlan { status: 200, start: 0, byte_count: 1_000_000, size: 1_000_000 })
    );
    assert_eq!(plan_range(&None, 0), Ok(RangePlan { status: 200, start: 0, byte_count: 0, size: 0 }));
    assert_eq!(
        plan_range(&header("bytes=0-1023"), 5000),
        Ok(RangePlan { status: 206, start: 0, byte_count: 1024, size: 5000 })
    );
    assert_eq!(
        plan_range(&header("bytes=4999-"), 5000),
        Ok(RangePlan { status: 206, start: 4999, byte_count: 1, size: 5000 })
    );
    assert_eq!(plan_range(&header("bytes=5-2"), 5000), Err(Error::Unsatisfiable));
    assert_eq!(plan_range(&header("bytes=0-5000"), 5000), Err(Error::Unsatisfiable));
    assert_eq!(plan_range(&header("bytes=0-0"), 0), Err(Error::Unsatisfiable));
    assert_eq!(plan_range(&header("bytes=x"), 5000), Err(Error::BadStart));
}

#[test]
fn content_range_and_chunks() {
    let plan = plan_range(&header("bytes=10-40009"), 50000).unwrap();
    assert_eq!(plan.content_range(), Some("bytes 10-40009/50000".to_string()));
    assert_eq!(CHUNK_SIZE, 16384);
    let mut sent = 0;
    let mut pieces = vec![];
    loop {
        let n = plan.next_chunk_len(sent);
        if n == 0 {
            break;
        }
        pieces.push(n);
        sent += n;
    }
    assert_eq!(pieces, vec![16384, 16384, 7232]);
    assert_eq!(sent, 40000);
    let empty = plan_range(&None, 0).unwrap();
    assert_eq!(empty.content_range(), None);
    assert_eq!(empty.next_chunk_len(0), 0);
}

#[test]
fn range_reply_holds_exactly_the_bytes_asked_for() {
    let file: Vec<u8> = (0..5000u32).map(|i| (i % 251) as u8).collect();
    let reply = get_range(header("bytes=0-1023"), &file, "video/mp4").unwrap();
    assert_eq!(reply.status, 206);
    assert_eq!(reply.content_length, 1024);
    assert_eq!(reply.content_range, Some("bytes 0-1023/5000".to_string()));
    assert_eq!(reply.content_type, "video/mp4");
    assert_eq!(reply.accept_ranges, "bytes");
    assert_eq!(reply.body, file[0..1024].to_vec());
    let tail = get_range(header("bytes=4990-"), &file, "video/mp4").unwrap();
    assert_eq!(tail.body, file[4990..].to_vec());
    assert_eq!(tail.content_length, 10);
}

#[test]
fn reply_without_range_is_the_whole_file() {
    let file: Vec<u8> = (0..300u32).map(|i| i as u8).collect();
    let reply = get_range(None, &file, "video/mp4").unwrap();
    assert_eq!(reply.status, 200);
    assert_eq!(reply.content_length, 300);
    assert_eq!(reply.body, file);
    let empty = get_range(None, &[], "video/mp4").unwrap();
    assert_eq!(empty.status, 200);
    assert_eq!(empty.content_length, 0);
    assert!(empty.body.is_empty());
}

#[test]
fn malformed_range_is_refused() {
    let file = vec![0u8; 10];
    assert!(matches!(get_range(header("bytes=ten-"), &file, "video/mp4"), Err(Error::BadStart)));
    assert!(matches!(get_range(header("bytes=3-99"), &file, "video/mp4"), Err(Error::Unsatisfiable)));
}
