use xdcc_cli::dcc_send::{Error, Progress, Transfer};
use xdcc_cli::DccSend;

#[test]
fn parses_quoted_offer() {
    let o = DccSend::from("DCC SEND \"file.txt\" 2130706433 5000 1024").ok().unwrap();
    assert_eq!(o.filename(), "file.txt");
    assert_eq!(o.ip(), 2130706433);
    assert_eq!(o.ip().to_be_bytes(), [127, 0, 0, 1]);
    assert_eq!(o.port(), 5000);
    assert_eq!(o.file_size(), 1024);
}

#[test]
fn parses_offer_in_ctcp_privmsg() {
    let line = ":bot!b@host PRIVMSG me :\u{1}DCC SEND my file.bin 3232235777 6000 99999999999\u{1}\r\n";
    let o = DccSend::from(line).ok().unwrap();
    assert_eq!(o.filename(), "my file.bin");
    assert_eq!(o.ip(), 3232235777);
    assert_eq!(o.port(), 6000);
    assert_eq!(o.file_size(), 99999999999);
    assert!(DccSend::is_offer(line));
}

#[test]
fn rejects_line_without_marker() {
    assert_eq!(DccSend::from("SEND \"file.txt\" 2130706433 5000 1024").err(), Some(Error::Parse));
    assert!(!DccSend::is_offer("SEND \"file.txt\" 2130706433 5000 1024"));
}

#[test]
fn rejects_line_without_integers() {
    assert_eq!(DccSend::from("DCC SEND \"file.txt\" abc 5000 1024").err(), Some(Error::Parse));
    assert_eq!(DccSend::from("DCC SEND \"file.txt\" 5000 1024").err(), Some(Error::Parse));
    assert_eq!(DccSend::from("DCC SEND ").err(), Some(Error::Parse));
}

#[test]
fn rejects_numbers_out_of_range() {
    // the address does not fit in 32 bits, then the port does not fit in 16
    assert_eq!(DccSend::from("DCC SEND f 4294967296 5000 1").err(), Some(Error::Parse));
    assert_eq!(DccSend::from("DCC SEND f 1 65536 1").err(), Some(Error::Parse));
    assert!(DccSend::is_offer("DCC SEND f 1 65536 1"));
    let o = DccSend::from("DCC SEND f 4294967295 65535 0").ok().unwrap();
    assert_eq!(o.ip(), u32::MAX);
    assert_eq!(o.port(), 65535);
}

#[test]
fn transfer_counts_exactly_the_declared_size() {
    let o = DccSend::from("DCC SEND a 1 2 10000").ok().unwrap();
    let mut t = Transfer::new(&o);
    let mut written: u64 = 0;
    let mut fragments = 0;
    while !t.is_complete() {
        let n = t.next_read_len();
        assert!(n > 0 && n <= 4096);
        // the sender hands over small fragments
        let got = if n > 7 { 7 } else { n };
        written += got as u64;
        fragments += 1;
        let p = t.record(got).ok().unwrap();
        assert_eq!(p == Progress::Complete, written == 10000);
    }
    assert_eq!(written, 10000);
    assert_eq!(t.received(), 10000);
    assert_eq!(fragments, 1429);
}

#[test]
fn transfer_reads_are_capped_by_what_remains() {
    let o = DccSend::from("DCC SEND a 1 2 5000").ok().unwrap();
    let mut t = Transfer::new(&o);
    assert_eq!(t.next_read_len(), 4096);
    assert_eq!(t.record(4096), Ok(Progress::Partial));
    assert_eq!(t.next_read_len(), 904);
    assert_eq!(t.record(904), Ok(Progress::Complete));
    assert_eq!(t.next_read_len(), 0);
}

#[test]
fn transfer_closed_early_is_read_error() {
    let o = DccSend::from("DCC SEND a 1 2 100").ok().unwrap();
    let mut t = Transfer::new(&o);
    let mut sibling = Transfer::new(&o);
    assert_eq!(t.record(40), Ok(Progress::Partial));
    assert_eq!(t.record(0), Err(Error::Read));
    assert_eq!(t.received(), 40);
    // another transfer of the same offer is not touched by that failure
    assert_eq!(sibling.record(100), Ok(Progress::Complete));
}

#[test]
fn empty_file_is_complete_at_once() {
    let o = DccSend::from("DCC SEND a 1 2 0").ok().unwrap();
    let mut t = Transfer::new(&o);
    assert!(t.is_complete());
    assert_eq!(t.record(0), Ok(Progress::Complete));
}

#[test]
fn ignores_text_after_the_size() {
    let o = DccSend::from("DCC SEND f 1 2 3 x").ok().unwrap();
    assert_eq!(o.filename(), "f");
    assert_eq!(o.ip(), 1);
    assert_eq!(o.port(), 2);
    assert_eq!(o.file_size(), 3);
    let o = DccSend::from("DCC SEND \"a b.txt\" 10 20 30 \r\n").ok().unwrap();
    assert_eq!(o.filename(), "a b.txt");
    assert_eq!(o.file_size(), 30);
    let o = DccSend::from("DCC SEND g 1 2 3xyz").ok().unwrap();
    assert_eq!(o.file_size(), 3);
}

#[test]
fn filename_is_the_longest_before_three_numbers() {
    // numbers inside the name stay in the name
    let o = DccSend::from("DCC SEND part 1 2 3 4 5 6").ok().unwrap();
    assert_eq!(o.filename(), "part 1 2 3");
    assert_eq!(o.ip(), 4);
    assert_eq!(o.port(), 5);
    assert_eq!(o.file_size(), 6);
}
