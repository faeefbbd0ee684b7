use mail_send::reader::EhloReader;
use mail_send::reader::EhloStep;
use mail_send::reader::FeedOutcome;
use mail_send::reader::ResponseReader;
use mail_send::reply::Reply;
use mail_send::reply::EXT_START_TLS;

const STREAM: &[u8] = b"250 first\r\n354 go\r\n250 done\r\n";

fn read_many_with_chunks(stream: &[u8], splits: &[usize], n: usize) -> Vec<Reply> {
    let mut reader = ResponseReader::new(n);
    let mut begin = 0;
    for &end in splits {
        match reader.feed(&stream[begin..end]) {
            FeedOutcome::Complete => {
                assert_eq!(end, *splits.last().unwrap());
                break;
            }
            FeedOutcome::NeedsMore => {}
            FeedOutcome::Invalid => panic!("stream did not parse"),
        }
        begin = end;
    }
    reader.into_replies()
}

fn assert_expected(replies: &[Reply]) {
    assert_eq!(replies.len(), 3);
    assert_eq!(replies[0].code, 250);
    assert_eq!(replies[0].message, "first");
    assert_eq!(replies[1].code, 354);
    assert_eq!(replies[1].message, "go");
    assert_eq!(replies[2].code, 250);
    assert_eq!(replies[2].message, "done");
}

#[test]
fn read_many_whole_stream_in_one_chunk() {
    assert_expected(&read_many_with_chunks(STREAM, &[STREAM.len()], 3));
}

#[test]
fn read_many_byte_by_byte() {
    let splits: Vec<usize> = (1..=STREAM.len()).collect();
    assert_expected(&read_many_with_chunks(STREAM, &splits, 3));
}

#[test]
fn read_many_split_mid_status_line() {
    // Splits that land inside a status code and inside reply text.
    assert_expected(&read_many_with_chunks(STREAM, &[2, 14, 20, STREAM.len()], 3));
}

#[test]
fn read_many_equals_read_one_three_times() {
    let many = read_many_with_chunks(STREAM, &[5, 13, 27, STREAM.len()], 3);
    // Sequential single reads, each fed its own reply's bytes.
    let mut singles = Vec::new();
    for part in [&STREAM[..11], &STREAM[11..19], &STREAM[19..]] {
        let mut reader = ResponseReader::new(1);
        assert!(matches!(reader.feed(part), FeedOutcome::Complete));
        singles.extend(reader.into_replies());
    }
    assert_eq!(many.len(), singles.len());
    for (a, b) in many.iter().zip(singles.iter()) {
        assert_eq!(a.code, b.code);
        assert_eq!(a.esc, b.esc);
        assert_eq!(a.message, b.message);
    }
}

#[test]
fn incomplete_stream_keeps_asking_for_more() {
    let mut reader = ResponseReader::new(2);
    assert!(matches!(reader.feed(b"250 fir"), FeedOutcome::NeedsMore));
    assert!(matches!(reader.feed(b"st\r\n354 g"), FeedOutcome::NeedsMore));
    assert!(matches!(reader.feed(b"o\r\n"), FeedOutcome::Complete));
    let replies = reader.into_replies();
    assert_eq!(replies.len(), 2);
    assert_eq!(replies[0].message, "first");
    assert_eq!(replies[1].message, "go");
}

#[test]
fn enhanced_status_code_is_framed() {
    let mut reader = ResponseReader::new(1);
    assert!(matches!(
        reader.feed(b"250 2.1.5 Recipient ok\r\n"),
        FeedOutcome::Complete
    ));
    let replies = reader.into_replies();
    assert_eq!(replies[0].code, 250);
    assert_eq!(replies[0].esc, [2, 1, 5]);
    assert_eq!(replies[0].message, "Recipient ok");
}

#[test]
fn multi_line_reply_is_one_reply() {
    let mut reader = ResponseReader::new(1);
    assert!(matches!(
        reader.feed(b"550-mailbox unavailable\r\n550 try later\r\n"),
        FeedOutcome::Complete
    ));
    let replies = reader.into_replies();
    assert_eq!(replies.len(), 1);
    assert_eq!(replies[0].code, 550);
    assert_eq!(replies[0].message, "mailbox unavailable\ntry later");
}

#[test]
fn multi_line_and_single_line_replies_mix_in_one_chunk() {
    let mut reader = ResponseReader::new(2);
    assert!(matches!(
        reader.feed(b"250-ok\r\n250 done\r\n354 go\r\n"),
        FeedOutcome::Complete
    ));
    let replies = reader.into_replies();
    assert_eq!(replies.len(), 2);
    assert_eq!(replies[0].code, 250);
    assert_eq!(replies[0].message, "ok\ndone");
    assert_eq!(replies[1].code, 354);
    assert_eq!(replies[1].message, "go");
}

#[test]
fn garbage_is_invalid() {
    let mut reader = ResponseReader::new(1);
    assert!(matches!(reader.feed(b"xyz\r\n"), FeedOutcome::Invalid));
}

#[test]
fn ehlo_reply_split_across_chunks_yields_capabilities() {
    let mut reader = EhloReader::new();
    assert!(matches!(
        reader.feed(b"250-mail.example.org\r\n250-SIZE 10485"),
        EhloStep::NeedsMore
    ));
    match reader.feed(b"76\r\n250 STARTTLS\r\n") {
        EhloStep::Caps(caps) => {
            assert_eq!(caps.hostname, "mail.example.org");
            assert!(caps.has_capability(EXT_START_TLS));
        }
        _ => panic!("expected a parsed capability set"),
    }
}

#[test]
fn ehlo_reply_without_starttls_lacks_the_bit() {
    let mut reader = EhloReader::new();
    match reader.feed(b"250-mx.example.org\r\n250 SIZE 1000000\r\n") {
        EhloStep::Caps(caps) => {
            assert_eq!(caps.hostname, "mx.example.org");
            assert!(!caps.has_capability(EXT_START_TLS));
        }
        _ => panic!("expected a parsed capability set"),
    }
}

#[test]
fn malformed_ehlo_reply_is_invalid() {
    let mut reader = EhloReader::new();
    assert!(matches!(reader.feed(b"554 go away\r\n"), EhloStep::Invalid));
}
