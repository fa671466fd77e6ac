//! The IRC side of a download: the session's settings, how each received
//! line is classified, and what the session sends or starts in reply.
use vstd::prelude::*;
use crate::dcc_send::{self, offer_of, offer_shape, DccSend};
use crate::lines::{
    join_line, make_join_line, make_request_line, request_line, request_lines,
};
use crate::packs_ranges::PacksRanges;
use crate::text::{chars_of, contains_pat, find_pat, is_digit, occurs_at, occurs_at_exec};

verus! {

/// Which setting made a session impossible.
#[derive(Debug, Clone, Copy, PartialEq, Eq, Structural)]
pub enum InitError {
    EmptyNick,
    EmptyServer,
    EmptyBot,
    NoPacks,
}

#[derive(Debug, Clone, Copy, PartialEq, Eq, Structural)]
pub enum Error {
    Init(InitError),
    Connect,
    Write,
    /// A read of the control connection failed or timed out.
    Read,
    Shutdown,
    DccSend(dcc_send::Error),
    JoinThread,
}

/// The settings of one download session.
pub struct Xdcc {
    pub nick: String,
    pub server: String,
    pub port: u16,
    pub bot: String,
    pub channel: String,
    pub packs_ranges: PacksRanges,
    /// The ids to request, one offer expected for each.
    pub packs: Vec<i32>,
    /// Read timeout of the control connection in milliseconds; `None` waits forever.
    pub req_timeout_ms: Option<u64>,
}

/// Names that a generated nickname is drawn from.
pub open spec fn is_nick_char(c: char) -> bool {
    'a' <= c && c <= 'z'
}

pub const RAND_NICK_LEN: usize = 8;

/// The letters a generated nickname is made of.
pub open spec fn nick_letters() -> Seq<char> {
    "abcdefghijklmnopqrstuvwxyz"@
}

/// Relies on rand's `thread_rng().gen_range(0..n)`, which returns a value in
/// `0..n` and panics only on an empty range.
#[verifier::external_body]
fn random_below(n: usize) -> (r: usize)
    requires
        n > 0,
    ensures
        r < n,
{
    rand::Rng::gen_range(&mut rand::thread_rng(), 0..n)
}

/// A channel name without its leading `#`, if it has one.
pub open spec fn strip_hash(channel: Seq<char>) -> Seq<char> {
    if channel.len() > 0 && channel[0] == '#' {
        channel.drop_first()
    } else {
        channel
    }
}

/// Which setting is at fault, checked in this order; `None` when all are usable.
pub open spec fn init_error(
    nick: Option<Seq<char>>,
    server: Seq<char>,
    bot: Seq<char>,
    ids: Seq<int>,
) -> Option<InitError> {
    if nick matches Some(n) && n.len() == 0 {
        Some(InitError::EmptyNick)
    } else if server.len() == 0 {
        Some(InitError::EmptyServer)
    } else if bot.len() == 0 {
        Some(InitError::EmptyBot)
    } else if ids.len() == 0 {
        Some(InitError::NoPacks)
    } else {
        None
    }
}

/// How a received line is handled, in order of precedence.
#[derive(Debug, Clone, Copy, PartialEq, Eq, Structural)]
pub enum MessageKind {
    /// A keepalive challenge (`PING :` and a digit, anywhere in the line).
    Ping,
    /// The confirmation of a channel join (holds `JOIN :#`).
    JoinConfirmed,
    /// A file offer (see `offer_shape`).
    Offer,
    /// Other channel or private traffic (holds `PRIVMSG`).
    Traffic,
    Other,
}

/// Whether `PING :` followed by a digit occurs at or after `from`.
pub open spec fn ping_from(line: Seq<char>, from: int) -> bool
    decreases line.len() - from,
{
    if from < 0 || from + 7 > line.len() {
        false
    } else if occurs_at(line, from, "PING :"@) && is_digit(line[from + 6]) {
        true
    } else {
        ping_from(line, from + 1)
    }
}

pub open spec fn is_ping(line: Seq<char>) -> bool {
    ping_from(line, 0)
}

pub open spec fn kind_of(line: Seq<char>) -> MessageKind {
    if is_ping(line) {
        MessageKind::Ping
    } else if contains_pat(line, "JOIN :#"@) {
        MessageKind::JoinConfirmed
    } else if offer_shape(line) is Some {
        MessageKind::Offer
    } else if contains_pat(line, "PRIVMSG"@) {
        MessageKind::Traffic
    } else {
        MessageKind::Other
    }
}

/// `s` with every `PING` turned into `PONG`, scanning from the left.
pub open spec fn swap_ping(s: Seq<char>) -> Seq<char>
    decreases s.len(),
{
    if s.len() == 0 {
        s
    } else if s.len() >= 4 && s.subrange(0, 4) == "PING"@ {
        "PONG"@ + swap_ping(s.subrange(4, s.len() as int))
    } else {
        seq![s[0]] + swap_ping(s.drop_first())
    }
}

/// The keepalive reply: the challenge line with `PING` turned into `PONG`.
pub open spec fn pong_line(line: Seq<char>) -> Seq<char> {
    swap_ping(line)
}

fn make_pong_line(line: &str) -> (r: String)
    ensures
        r@ == pong_line(line@),
{
    let v = chars_of(line);
    let ping = chars_of("PING");
    proof {
        reveal_strlit("PING");
        reveal_strlit("PONG");
    }
    let n = v.len();
    let mut out = String::new();
    let mut i: usize = 0;
    assert(v@.subrange(0, n as int) =~= v@);
    assert(out@ + swap_ping(v@.subrange(0, n as int)) =~= swap_ping(v@));
    while i < n
        invariant
            n == v@.len(),
            v@ == line@,
            ping@ == "PING"@,
            i <= n,
            swap_ping(v@) =~= out@ + swap_ping(v@.subrange(i as int, n as int)),
        decreases n - i,
    {
        proof {
            reveal_strlit("PING");
            reveal_strlit("PONG");
        }
        let ghost t = v@.subrange(i as int, n as int);
        let ghost before = out@;
        if occurs_at_exec(&v, i, &ping) {
            assert(t.subrange(0, 4) =~= v@.subrange(i as int, i + 4));
            assert(t.subrange(4, t.len() as int) =~= v@.subrange(i + 4, n as int));
            out.append("PONG");
            i = i + 4;
            assert(before + ("PONG"@ + swap_ping(v@.subrange(i as int, n as int))) =~= out@
                + swap_ping(v@.subrange(i as int, n as int)));
        } else {
            assert(t.drop_first() =~= v@.subrange(i + 1, n as int));
            assert(t.len() >= 4 ==> t.subrange(0, 4) =~= v@.subrange(i as int, i + 4));
            let c = line.substring_char(i, i + 1);
            assert(c@ =~= seq![t[0]]);
            out.append(c);
            i = i + 1;
            assert(before + (seq![t[0]] + swap_ping(v@.subrange(i as int, n as int))) =~= out@
                + swap_ping(v@.subrange(i as int, n as int)));
        }
    }
    assert(v@.subrange(n as int, n as int) =~= Seq::<char>::empty());
    out
}

/// Classifies one received line.
pub fn classify(line: &str) -> (r: MessageKind)
    ensures
        r == kind_of(line@),
{
    let v = chars_of(line);
    let ping = chars_of("PING :");
    proof {
        reveal_strlit("PING :");
    }
    let mut i: usize = 0;
    while i < v.len() && 7 <= v.len() - i
        invariant
            ping@ == "PING :"@,
            v@ == line@,
            ping_from(v@, 0) == ping_from(v@, i as int),
        decreases v.len() - i,
    {
        proof {
            reveal_strlit("PING :");
        }
        if occurs_at_exec(&v, i, &ping) && v[i + 6] >= '0' && v[i + 6] <= '9' {
            return MessageKind::Ping;
        }
        i = i + 1;
    }
    let join = chars_of("JOIN :#");
    if find_pat(&v, 0, &join).is_some() {
        return MessageKind::JoinConfirmed;
    }
    if DccSend::is_offer(line) {
        return MessageKind::Offer;
    }
    let privmsg = chars_of("PRIVMSG");
    if find_pat(&v, 0, &privmsg).is_some() {
        MessageKind::Traffic
    } else {
        MessageKind::Other
    }
}

/// Where a session stands: whether it has asked to join the channel, whether
/// it has requested the packs, and how many offers it has received.
#[derive(Debug, Clone, Copy, PartialEq, Eq, Structural)]
pub struct Session {
    pub joined: bool,
    pub requested: bool,
    pub offers: usize,
}

impl Session {
    /// Packs are only ever requested after the join.
    pub open spec fn wf(&self) -> bool {
        self.requested ==> self.joined
    }

    pub fn new() -> (s: Session)
        ensures
            s.wf(),
            !s.joined,
            !s.requested,
            s.offers == 0,
    {
        Session { joined: false, requested: false, offers: 0 }
    }
}

/// What a session does about one line: the lines to send, in order, the
/// transfer to start, if any, and whether every expected offer has arrived,
/// in which case the session disconnects.
pub struct Reaction {
    pub replies: Vec<String>,
    pub offer: Option<DccSend>,
    pub finished: bool,
}

impl Reaction {
    pub open spec fn replies_view(&self) -> Seq<Seq<char>> {
        self.replies@.map_values(|s: String| s@)
    }
}

/// The state after a line and the lines sent in reply, when the line is
/// handled without error.
pub open spec fn step(
    channel: Seq<char>,
    bot: Seq<char>,
    ids: Seq<int>,
    s: Session,
    line: Seq<char>,
) -> (Session, Seq<Seq<char>>) {
    match kind_of(line) {
        MessageKind::Ping => if s.joined {
            (s, seq![pong_line(line)])
        } else {
            (Session { joined: true, ..s }, seq![pong_line(line), join_line(channel)])
        },
        MessageKind::JoinConfirmed => if s.joined && !s.requested {
            (Session { requested: true, ..s }, request_lines(bot, ids))
        } else {
            (s, seq![])
        },
        MessageKind::Offer => (Session { offers: (s.offers + 1) as usize, ..s }, seq![]),
        MessageKind::Traffic => if s.joined {
            (s, seq![])
        } else {
            (Session { joined: true, ..s }, seq![join_line(channel)])
        },
        MessageKind::Other => (s, seq![]),
    }
}

impl Xdcc {
    pub open spec fn ids_view(&self) -> Seq<int> {
        self.packs@.map_values(|x: i32| x as int)
    }

    pub open spec fn wf(&self) -> bool {
        self.packs@.len() > 0
    }

    /// The nickname whose `i`-th letter is letter number `draws[i]` of the
    /// alphabet, counting from zero.
    pub fn nick_from_draws(draws: &Vec<usize>) -> (r: String)
        requires
            forall|i: int| 0 <= i < draws@.len() ==> #[trigger] draws@[i] < 26,
        ensures
            r@.len() == draws@.len(),
            forall|i: int|
                0 <= i < draws@.len() ==> r@[i] == #[trigger] nick_letters()[draws@[i] as int],
    {
        let letters = "abcdefghijklmnopqrstuvwxyz";
        let mut nick = String::new();
        let mut k: usize = 0;
        while k < draws.len()
            invariant
                letters@ == nick_letters(),
                k <= draws@.len(),
                forall|i: int| 0 <= i < draws@.len() ==> #[trigger] draws@[i] < 26,
                nick@.len() == k,
                forall|i: int| 0 <= i < k ==> nick@[i] == #[trigger] nick_letters()[draws@[i] as int],
            decreases draws.len() - k,
        {
            proof {
                reveal_strlit("abcdefghijklmnopqrstuvwxyz");
            }
            let r = draws[k];
            let c = letters.substring_char(r, r + 1);
            let ghost before = nick@;
            nick.append(c);
            assert forall|i: int| 0 <= i < k + 1 implies nick@[i] == #[trigger] nick_letters()[draws@[i] as int] by {
                if i < k {
                    assert(nick@[i] == before[i]);
                } else {
                    assert(nick@[i] == c@[0]);
                }
            }
            k = k + 1;
        }
        nick
    }

    /// A nickname of eight letters from `a` to `z`, drawn at random.
    pub fn gen_rand_nick() -> (r: String)
        ensures
            r@.len() == RAND_NICK_LEN,
            forall|i: int| 0 <= i < r@.len() ==> is_nick_char(#[trigger] r@[i]),
    {
        let mut draws: Vec<usize> = Vec::new();
        while draws.len() < RAND_NICK_LEN
            invariant
                draws@.len() <= RAND_NICK_LEN,
                forall|i: int| 0 <= i < draws@.len() ==> #[trigger] draws@[i] < 26,
            decreases RAND_NICK_LEN - draws@.len(),
        {
            draws.push(random_below(26));
        }
        let nick = Self::nick_from_draws(&draws);
        proof {
            reveal_strlit("abcdefghijklmnopqrstuvwxyz");
            assert forall|i: int| 0 <= i < nick@.len() implies is_nick_char(#[trigger] nick@[i]) by {
                assert(nick@[i] == nick_letters()[draws@[i] as int]);
            }
        }
        nick
    }

    /// Checks the settings and builds a session. Without a nickname a random
    /// one is made; a leading `#` of the channel is dropped; a timeout of zero
    /// means that reads never time out.
    pub fn new(
        nick: Option<&str>,
        server: &str,
        port: u16,
        bot: &str,
        channel: &str,
        packs_ranges: &PacksRanges,
        req_timeout_ms: u64,
    ) -> (r: Result<Xdcc, Error>)
        ensures
            match init_error(
                match nick {
                    Some(n) => Some(n@),
                    None => None,
                },
                server@,
                bot@,
                packs_ranges.ids_view(),
            ) {
                Some(e) => r == Err::<Xdcc, Error>(Error::Init(e)),
                None => r is Ok,
            },
            r matches Ok(x) ==> {
                &&& x.wf()
                &&& (nick matches Some(n) ==> x.nick@ == n@)
                &&& (nick is None ==> x.nick@.len() == RAND_NICK_LEN && forall|i: int|
                    0 <= i < x.nick@.len() ==> is_nick_char(#[trigger] x.nick@[i]))
                &&& x.server@ == server@
                &&& x.port == port
                &&& x.bot@ == bot@
                &&& x.channel@ == strip_hash(channel@)
                &&& x.packs_ranges.view_ranges() == packs_ranges.view_ranges()
                &&& x.ids_view() == packs_ranges.ids_view()
                &&& x.req_timeout_ms == if req_timeout_ms == 0 {
                    None
                } else {
                    Some(req_timeout_ms)
                }
            },
    {
        let nick = match nick {
            Some(n) => {
                if n.unicode_len() == 0 {
                    return Err(Error::Init(InitError::EmptyNick));
                }
                String::from_str(n)
            },
            None => Self::gen_rand_nick(),
        };
        if server.unicode_len() == 0 {
            return Err(Error::Init(InitError::EmptyServer));
        }
        if bot.unicode_len() == 0 {
            return Err(Error::Init(InitError::EmptyBot));
        }
        let packs = packs_ranges.ids();
        if packs.len() == 0 {
            assert(packs_ranges.ids_view().len() == 0);
            return Err(Error::Init(InitError::NoPacks));
        }
        let len = channel.unicode_len();
        let channel = if len > 0 && channel.get_char(0) == '#' {
            let c = channel.substring_char(1, len);
            assert(c@ =~= strip_hash(channel@));
            String::from_str(c)
        } else {
            String::from_str(channel)
        };
        let ranges = PacksRanges(packs_ranges.0.clone());
        assert(ranges.0@ =~= packs_ranges.0@);
        Ok(Xdcc {
            nick,
            server: String::from_str(server),
            port,
            bot: String::from_str(bot),
            channel,
            packs_ranges: ranges,
            packs,
            req_timeout_ms: if req_timeout_ms == 0 {
                None
            } else {
                Some(req_timeout_ms)
            },
        })
    }

    /// Handles one received line. A keepalive is answered, and the first one
    /// also sends the join; the join confirmation sends one request per pack
    /// id, in order, once; an offer is parsed and handed back to be started;
    /// other traffic before the join sends the join. A malformed offer is an
    /// error and leaves the session as it was.
    pub fn handle(&self, state: &mut Session, line: &str) -> (r: Result<Reaction, Error>)
        requires
            self.wf(),
            old(state).wf(),
            old(state).offers < self.packs@.len(),
        ensures
            final(state).wf(),
            kind_of(line@) == MessageKind::Offer && offer_of(line@) is None ==> {
                &&& r == Err::<Reaction, Error>(Error::DccSend(dcc_send::Error::Parse))
                &&& *final(state) == *old(state)
            },
            !(kind_of(line@) == MessageKind::Offer && offer_of(line@) is None) ==> r is Ok,
            r matches Ok(re) ==> {
                let (s2, out) = step(
                    self.channel@,
                    self.bot@,
                    self.ids_view(),
                    *old(state),
                    line@,
                );
                &&& *final(state) == s2
                &&& re.replies_view() == out
                &&& re.finished == (s2.offers == self.packs@.len())
                &&& (re.offer is Some <==> kind_of(line@) == MessageKind::Offer)
                &&& (re.offer matches Some(o) ==> offer_of(line@) == Some(
                    (o.filename_view(), o.ip_view() as nat, o.port_view() as nat, o.size_view() as nat),
                ))
            },
    {
        let kind = classify(line);
        let mut replies: Vec<String> = Vec::new();
        let mut offer: Option<DccSend> = None;
        match kind {
            MessageKind::Ping => {
                replies.push(make_pong_line(line));
                if !state.joined {
                    replies.push(make_join_line(self.channel.as_str()));
                    state.joined = true;
                }
            },
            MessageKind::JoinConfirmed => {
                if state.joined && !state.requested {
                    replies = self.request_all();
                    state.requested = true;
                }
            },
            MessageKind::Offer => {
                match DccSend::from(line) {
                    Ok(o) => {
                        assert(self.packs@.len() == self.packs.len());
                        offer = Some(o);
                        state.offers = state.offers + 1;
                    },
                    Err(e) => return Err(Error::DccSend(e)),
                }
            },
            MessageKind::Traffic => {
                if !state.joined {
                    replies.push(make_join_line(self.channel.as_str()));
                    state.joined = true;
                }
            },
            MessageKind::Other => {},
        }
        proof {
            let (_, out) = step(self.channel@, self.bot@, self.ids_view(), *old(state), line@);
            assert(replies@.map_values(|s: String| s@) =~= out);
        }
        let finished = state.offers == self.packs.len();
        Ok(Reaction { replies, offer, finished })
    }

    /// One request line per pack id, in the order of the ids.
    pub fn request_all(&self) -> (r: Vec<String>)
        ensures
            r@.map_values(|s: String| s@) == request_lines(self.bot@, self.ids_view()),
    {
        let mut out: Vec<String> = Vec::new();
        let mut i: usize = 0;
        while i < self.packs.len()
            invariant
                i <= self.packs@.len(),
                out@.map_values(|s: String| s@) =~= request_lines(
                    self.bot@,
                    self.ids_view().subrange(0, i as int),
                ),
            decreases self.packs.len() - i,
        {
            let line = make_request_line(self.bot.as_str(), self.packs[i]);
            let ghost prev = out@;
            out.push(line);
            assert(out@.map_values(|s: String| s@) =~= prev.map_values(|s: String| s@).push(
                line@,
            ));
            assert(self.ids_view().subrange(0, i + 1) =~= self.ids_view().subrange(
                0,
                i as int,
            ).push(self.packs@[i as int] as int));
            i = i + 1;
        }
        assert(self.ids_view().subrange(0, self.packs@.len() as int) =~= self.ids_view());
        out
    }
}

/// The first position at or after `from` that holds a newline byte.
pub open spec fn newline_from(s: Seq<u8>, from: int) -> Option<int>
    decreases s.len() - from,
{
    if from < 0 || from >= s.len() {
        None
    } else if s[from] == 10u8 {
        Some(from)
    } else {
        newline_from(s, from + 1)
    }
}

/// Bytes received on the control connection that do not yet form a whole line.
pub struct LineBuffer {
    buf: Vec<u8>,
}

impl LineBuffer {
    pub closed spec fn pending(&self) -> Seq<u8> {
        self.buf@
    }

    pub fn new() -> (r: LineBuffer)
        ensures
            r.pending() == Seq::<u8>::empty(),
    {
        LineBuffer { buf: Vec::new() }
    }

    /// Appends what a read returned.
    pub fn push_bytes(&mut self, bytes: &[u8])
        ensures
            final(self).pending() == old(self).pending() + bytes@,
    {
        let mut i: usize = 0;
        while i < bytes.len()
            invariant
                i <= bytes@.len(),
                self.buf@ == old(self).buf@ + bytes@.subrange(0, i as int),
            decreases bytes.len() - i,
        {
            self.buf.push(bytes[i]);
            i = i + 1;
            assert(self.buf@ =~= old(self).buf@ + bytes@.subrange(0, i as int));
        }
        assert(bytes@.subrange(0, bytes@.len() as int) =~= bytes@);
    }

    /// Takes the first whole line, its newline included, when one has arrived.
    pub fn take_line(&mut self) -> (r: Option<Vec<u8>>)
        ensures
            match newline_from(old(self).pending(), 0) {
                Some(k) => r matches Some(line) && line@ == old(self).pending().subrange(0, k + 1)
                    && final(self).pending() == old(self).pending().subrange(
                    k + 1,
                    old(self).pending().len() as int,
                ),
                None => r is None && final(self).pending() == old(self).pending(),
            },
    {
        let mut k: usize = 0;
        while k < self.buf.len() && self.buf[k] != 10u8
            invariant
                k <= self.buf@.len(),
                newline_from(self.buf@, 0) == newline_from(self.buf@, k as int),
            decreases self.buf.len() - k,
        {
            k = k + 1;
        }
        if k == self.buf.len() {
            return None;
        }
        let mut line: Vec<u8> = Vec::new();
        let mut rest: Vec<u8> = Vec::new();
        let mut i: usize = 0;
        while i < self.buf.len()
            invariant
                k < self.buf@.len(),
                i <= self.buf@.len(),
                line@ == self.buf@.subrange(0, if i <= k { i as int } else { k + 1 }),
                rest@ == if i <= k + 1 {
                    Seq::<u8>::empty()
                } else {
                    self.buf@.subrange(k + 1, i as int)
                },
            decreases self.buf.len() - i,
        {
            if i <= k {
                line.push(self.buf[i]);
            } else {
                rest.push(self.buf[i]);
            }
            i = i + 1;
            assert(line@ =~= self.buf@.subrange(0, if i <= k { i as int } else { k + 1 }));
            assert(rest@ =~= if i <= k + 1 {
                Seq::<u8>::empty()
            } else {
                self.buf@.subrange(k + 1, i as int)
            });
        }
        assert(rest@ =~= self.buf@.subrange(k + 1, self.buf@.len() as int));
        self.buf = rest;
        Some(line)
    }
}

/// Which transfer's failure the run reports: the first failed one in the
/// order the transfers were started, or none when all of them succeeded.
/// Every transfer has finished by the time this is asked: a failure never
/// cuts the others short.
pub fn first_failure(failed: &Vec<bool>) -> (r: Option<usize>)
    ensures
        match r {
            Some(i) => i < failed@.len() && failed@[i as int] && forall|j: int|
                0 <= j < i ==> !#[trigger] failed@[j],
            None => forall|j: int| 0 <= j < failed@.len() ==> !#[trigger] failed@[j],
        },
{
    let mut i: usize = 0;
    while i < failed.len()
        invariant
            i <= failed@.len(),
            forall|j: int| 0 <= j < i ==> !#[trigger] failed@[j],
        decreases failed.len() - i,
    {
        if failed[i] {
            return Some(i);
        }
        i = i + 1;
    }
    None
}

/// The state after handling `lines` one by one from `s`.
pub open spec fn run(
    channel: Seq<char>,
    bot: Seq<char>,
    ids: Seq<int>,
    s: Session,
    lines: Seq<Seq<char>>,
) -> Session
    decreases lines.len(),
{
    if lines.len() == 0 {
        s
    } else {
        step(channel, bot, ids, run(channel, bot, ids, s, lines.drop_last()), lines.last()).0
    }
}

/// Over any run of lines, a session that has requested the packs has joined.
pub proof fn lemma_run_requests_only_after_join(
    channel: Seq<char>,
    bot: Seq<char>,
    ids: Seq<int>,
    s: Session,
    lines: Seq<Seq<char>>,
)
    requires
        s.wf(),
    ensures
        run(channel, bot, ids, s, lines).wf(),
    decreases lines.len(),
{
    if lines.len() > 0 {
        lemma_run_requests_only_after_join(channel, bot, ids, s, lines.drop_last());
    }
}

/// How many of `lines` are offers.
pub open spec fn offer_lines(lines: Seq<Seq<char>>) -> nat
    decreases lines.len(),
{
    if lines.len() == 0 {
        0
    } else {
        offer_lines(lines.drop_last()) + if kind_of(lines.last()) == MessageKind::Offer {
            1nat
        } else {
            0nat
        }
    }
}

/// Each offer line starts exactly one transfer and no other line starts one:
/// after a run of lines the session has counted as many offers as the run
/// held, so with as many offers as packs it finishes on the last of them.
pub proof fn lemma_one_transfer_per_offer(
    channel: Seq<char>,
    bot: Seq<char>,
    ids: Seq<int>,
    s: Session,
    lines: Seq<Seq<char>>,
)
    requires
        s.offers + offer_lines(lines) <= usize::MAX,
    ensures
        run(channel, bot, ids, s, lines).offers == s.offers + offer_lines(lines),
    decreases lines.len(),
{
    if lines.len() > 0 {
        lemma_one_transfer_per_offer(channel, bot, ids, s, lines.drop_last());
    }
}

/// Requesting the packs sends exactly one line per pack id, in the order of
/// the ids, each naming the bot and that id.
pub proof fn lemma_one_request_per_id(bot: Seq<char>, ids: Seq<int>)
    ensures
        request_lines(bot, ids).len() == ids.len(),
        forall|i: int|
            0 <= i < ids.len() ==> #[trigger] request_lines(bot, ids)[i] == request_line(
                bot,
                ids[i],
            ),
{
}

/// From any well-formed state, no line makes a session request packs before
/// it has joined, and requests are sent at most once.
pub proof fn lemma_requests_only_after_join(
    channel: Seq<char>,
    bot: Seq<char>,
    ids: Seq<int>,
    s: Session,
    line: Seq<char>,
)
    requires
        s.wf(),
    ensures
        step(channel, bot, ids, s, line).0.wf(),
        step(channel, bot, ids, s, line).1.len() > 0 && kind_of(line) == MessageKind::JoinConfirmed
            ==> s.joined && !s.requested && step(channel, bot, ids, s, line).0.requested,
        s.requested ==> step(channel, bot, ids, s, line).0.requested,
{
}

} // verus!
