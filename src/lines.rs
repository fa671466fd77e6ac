//! The outbound lines of the control protocol.
use vstd::prelude::*;
use crate::text::{decimal_of, digit_char};

verus! {

pub open spec fn crlf() -> Seq<char> {
    "\r\n"@
}

pub open spec fn nick_line(nick: Seq<char>) -> Seq<char> {
    "NICK "@ + nick + crlf()
}

pub open spec fn user_line(nick: Seq<char>) -> Seq<char> {
    "USER "@ + nick + " 0 * "@ + nick + crlf()
}

pub open spec fn join_line(channel: Seq<char>) -> Seq<char> {
    "JOIN #"@ + channel + crlf()
}

pub open spec fn quit_line(reason: Seq<char>) -> Seq<char> {
    "QUIT :"@ + reason + crlf()
}

/// Decimal notation of an integer, with a `-` when it is negative.
pub open spec fn int_decimal(n: int) -> Seq<char> {
    if n < 0 {
        "-"@ + decimal_of((-n) as nat)
    } else {
        decimal_of(n as nat)
    }
}

pub open spec fn request_line(bot: Seq<char>, id: int) -> Seq<char> {
    "PRIVMSG "@ + bot + " :xdcc send #"@ + int_decimal(id) + crlf()
}

/// One request line per id, in the order of the ids.
pub open spec fn request_lines(bot: Seq<char>, ids: Seq<int>) -> Seq<Seq<char>> {
    ids.map_values(|id: int| request_line(bot, id))
}

fn push_decimal(out: &mut String, n: u32)
    ensures
        final(out)@ == old(out)@ + decimal_of(n as nat),
    decreases n,
{
    if n >= 10 {
        push_decimal(out, n / 10);
    }
    let d = (n % 10) as usize;
    proof {
        reveal_strlit("0123456789");
    }
    let digit = "0123456789".substring_char(d, d + 1);
    assert(digit@ =~= seq![digit_char(d as nat)]);
    out.append(digit);
    proof {
        if n >= 10 {
            assert(decimal_of(n as nat) == decimal_of((n / 10) as nat) + seq![digit_char(d as nat)]);
        }
    }
}

pub fn make_nick_line(nick: &str) -> (r: String)
    ensures
        r@ == nick_line(nick@),
{
    let mut s = String::from_str("NICK ");
    s.append(nick);
    s.append("\r\n");
    s
}

pub fn make_user_line(nick: &str) -> (r: String)
    ensures
        r@ == user_line(nick@),
{
    let mut s = String::from_str("USER ");
    s.append(nick);
    s.append(" 0 * ");
    s.append(nick);
    s.append("\r\n");
    s
}

pub fn make_join_line(channel: &str) -> (r: String)
    ensures
        r@ == join_line(channel@),
{
    let mut s = String::from_str("JOIN #");
    s.append(channel);
    s.append("\r\n");
    s
}

pub fn make_quit_line(reason: &str) -> (r: String)
    ensures
        r@ == quit_line(reason@),
{
    let mut s = String::from_str("QUIT :");
    s.append(reason);
    s.append("\r\n");
    s
}

pub fn make_request_line(bot: &str, id: i32) -> (r: String)
    ensures
        r@ == request_line(bot@, id as int),
{
    let mut s = String::from_str("PRIVMSG ");
    s.append(bot);
    s.append(" :xdcc send #");
    if id < 0 {
        s.append("-");
        push_decimal(&mut s, (0 - (id as i64)) as u32);
    } else {
        push_decimal(&mut s, id as u32);
    }
    s.append("\r\n");
    s
}

} // verus!
