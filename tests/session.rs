use xdcc_cli::dcc_send;
use xdcc_cli::lines::{make_quit_line, make_request_line};
use xdcc_cli::xdcc::{classify, first_failure, Error, InitError, LineBuffer, MessageKind, Session};
use xdcc_cli::{PackRange, PacksRanges, Xdcc};

fn ranges(args: &[&str]) -> PacksRanges {
    PacksRanges::from(args)
}

fn session(packs: &[&str]) -> Xdcc {
    Xdcc::new(Some("me"), "irc.example.org", 6667, "Bot", "#chan", &ranges(packs), 30000)
        .ok()
        .unwrap()
}

#[test]
fn packs_ranges_parse() {
    let r = ranges(&["12-15", "17", "19-20", "bad", "5-3", "+7", "1-2-9", "-4", "8-"]);
    assert_eq!(
        r.0,
        vec![
            PackRange { start: 12, end: 15 },
            PackRange { start: 17, end: 17 },
            PackRange { start: 19, end: 20 },
            PackRange { start: 7, end: 7 },
            PackRange { start: 1, end: 2 },
        ]
    );
    assert_eq!(r.ids(), vec![12, 13, 14, 15, 17, 19, 20, 7, 1, 2]);
}

#[test]
fn packs_ranges_limits() {
    let r = ranges(&["2147483647", "2147483648", "2147483646-2147483647"]);
    assert_eq!(r.ids(), vec![2147483647, 2147483646, 2147483647]);
    assert!(ranges(&[]).0.is_empty());
}

#[test]
fn new_checks_settings_in_order() {
    let p = ranges(&["1"]);
    let e = |r: Result<Xdcc, Error>| r.err();
    assert_eq!(e(Xdcc::new(Some(""), "", 1, "", "c", &p, 0)), Some(Error::Init(InitError::EmptyNick)));
    assert_eq!(e(Xdcc::new(Some("n"), "", 1, "", "c", &p, 0)), Some(Error::Init(InitError::EmptyServer)));
    assert_eq!(e(Xdcc::new(Some("n"), "s", 1, "", "c", &p, 0)), Some(Error::Init(InitError::EmptyBot)));
    assert_eq!(
        e(Xdcc::new(Some("n"), "s", 1, "b", "c", &ranges(&["x"]), 0)),
        Some(Error::Init(InitError::NoPacks))
    );
}

#[test]
fn new_normalises_settings() {
    let x = Xdcc::new(None, "irc.example.org", 6697, "Bot", "#chan", &ranges(&["3-4"]), 0)
        .ok()
        .unwrap();
    assert_eq!(x.nick.len(), 8);
    assert!(x.nick.chars().all(|c| c.is_ascii_lowercase()));
    assert_eq!(x.channel, "chan");
    assert_eq!(x.server, "irc.example.org");
    assert_eq!(x.port, 6697);
    assert_eq!(x.packs, vec![3, 4]);
    assert_eq!(x.req_timeout_ms, None);
    let y = session(&["1"]);
    assert_eq!(y.nick, "me");
    assert_eq!(y.channel, "chan");
    assert_eq!(y.req_timeout_ms, Some(30000));
    let z = Xdcc::new(Some("me"), "s", 1, "b", "plain", &ranges(&["1"]), 5).ok().unwrap();
    assert_eq!(z.channel, "plain");
}

#[test]
fn classifies_lines() {
    assert_eq!(classify("PING :12345\r\n"), MessageKind::Ping);
    assert_eq!(classify(":me!u@h JOIN :#chan\r\n"), MessageKind::JoinConfirmed);
    assert_eq!(classify(":bot PRIVMSG me :\u{1}DCC SEND f 1 2 3\u{1}\r\n"), MessageKind::Offer);
    assert_eq!(classify(":x PRIVMSG #chan :hello\r\n"), MessageKind::Traffic);
    assert_eq!(classify(":server 001 me :Welcome\r\n"), MessageKind::Other);
}

#[test]
fn requests_one_line_per_id_after_join() {
    let x = session(&["5", "2-3"]);
    let mut s = Session::new();
    // a join confirmation before the join was asked for requests nothing
    let r = x.handle(&mut s, ":me JOIN :#chan\r\n").ok().unwrap();
    assert!(r.replies.is_empty());
    let r = x.handle(&mut s, "PING :42\r\n").ok().unwrap();
    assert_eq!(r.replies, vec!["PONG :42\r\n".to_string(), "JOIN #chan\r\n".to_string()]);
    assert!(s.joined);
    let r = x.handle(&mut s, ":me JOIN :#chan\r\n").ok().unwrap();
    assert_eq!(
        r.replies,
        vec![
            "PRIVMSG Bot :xdcc send #5\r\n".to_string(),
            "PRIVMSG Bot :xdcc send #2\r\n".to_string(),
            "PRIVMSG Bot :xdcc send #3\r\n".to_string(),
        ]
    );
    // someone else joining later does not repeat the requests
    let r = x.handle(&mut s, ":other JOIN :#chan\r\n").ok().unwrap();
    assert!(r.replies.is_empty());
    let r = x.handle(&mut s, "PING :43\r\n").ok().unwrap();
    assert_eq!(r.replies, vec!["PONG :43\r\n".to_string()]);
}

#[test]
fn traffic_before_join_sends_join() {
    let x = session(&["1"]);
    let mut s = Session::new();
    let r = x.handle(&mut s, ":n NOTICE * :hi\r\n").ok().unwrap();
    assert!(r.replies.is_empty());
    let r = x.handle(&mut s, ":x PRIVMSG me :hi\r\n").ok().unwrap();
    assert_eq!(r.replies, vec!["JOIN #chan\r\n".to_string()]);
    let r = x.handle(&mut s, ":x PRIVMSG me :hi\r\n").ok().unwrap();
    assert!(r.replies.is_empty());
}

#[test]
fn finishes_right_after_the_last_offer() {
    let x = session(&["1-3"]);
    let mut s = Session::new();
    x.handle(&mut s, "PING :1\r\n").ok().unwrap();
    let mut started = Vec::new();
    for k in 0..3 {
        let line = format!(":Bot PRIVMSG me :\u{1}DCC SEND \"f{}.bin\" 2130706433 500{} 10\u{1}\r\n", k, k);
        let r = x.handle(&mut s, &line).ok().unwrap();
        let o = r.offer.unwrap();
        assert_eq!(o.filename(), format!("f{}.bin", k));
        started.push(o);
        assert_eq!(r.finished, k == 2);
        assert_eq!(s.offers, k + 1);
    }
    assert_eq!(started.len(), 3);
}

#[test]
fn malformed_offer_is_parse_error() {
    let x = session(&["1"]);
    let mut s = Session::new();
    let before = s;
    let r = x.handle(&mut s, "DCC SEND f 99999999999 1 1\r\n");
    assert_eq!(r.err(), Some(Error::DccSend(dcc_send::Error::Parse)));
    assert_eq!(s, before);
}

#[test]
fn outbound_lines() {
    assert_eq!(make_request_line("Bot", 1234), "PRIVMSG Bot :xdcc send #1234\r\n");
    assert_eq!(make_request_line("Bot", 0), "PRIVMSG Bot :xdcc send #0\r\n");
    assert_eq!(make_request_line("Bot", -12), "PRIVMSG Bot :xdcc send #-12\r\n");
    assert_eq!(make_quit_line(""), "QUIT :\r\n");
    assert_eq!(xdcc_cli::lines::make_user_line("me"), "USER me 0 * me\r\n");
    assert_eq!(xdcc_cli::lines::make_nick_line("me"), "NICK me\r\n");
}

#[test]
fn line_buffer_splits_lines() {
    let mut b = LineBuffer::new();
    b.push_bytes(b"PIN");
    assert_eq!(b.take_line(), None);
    b.push_bytes(b"G :1\r\nJOIN");
    assert_eq!(b.take_line(), Some(b"PING :1\r\n".to_vec()));
    assert_eq!(b.take_line(), None);
    b.push_bytes(b"\n\n");
    assert_eq!(b.take_line(), Some(b"JOIN\n".to_vec()));
    assert_eq!(b.take_line(), Some(b"\n".to_vec()));
    assert_eq!(b.take_line(), None);
}

#[test]
fn keepalive_anywhere_in_the_line() {
    assert_eq!(classify(":irc.example.net PING :123\r\n"), MessageKind::Ping);
    assert_eq!(classify("PING :servername\r\n"), MessageKind::Other);
    assert_eq!(classify("PINGX\r\n"), MessageKind::Other);
    let x = session(&["1"]);
    let mut s = Session::new();
    let r = x.handle(&mut s, ":irc.example.net PING :123\r\n").ok().unwrap();
    assert_eq!(
        r.replies,
        vec![":irc.example.net PONG :123\r\n".to_string(), "JOIN #chan\r\n".to_string()]
    );
    let r = x.handle(&mut s, "PING :7 PINGPING\r\n").ok().unwrap();
    assert_eq!(r.replies, vec!["PONG :7 PONGPONG\r\n".to_string()]);
}

#[test]
fn nick_letters_follow_the_draws() {
    assert_eq!(Xdcc::nick_from_draws(&vec![0, 25, 1, 2, 7, 4, 11, 11]), "azbchell");
    assert_eq!(Xdcc::nick_from_draws(&vec![]), "");
}

#[test]
fn run_fails_on_first_failed_transfer() {
    assert_eq!(first_failure(&vec![false, false]), None);
    assert_eq!(first_failure(&vec![false, true, true]), Some(1));
    assert_eq!(first_failure(&vec![]), None);
}
