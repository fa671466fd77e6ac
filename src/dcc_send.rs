//! DCC SEND offers: parsing one offer line, and the bookkeeping of one transfer.
use vstd::prelude::*;
use crate::text::{chars_of, decimal_in, find_pat, find_pat_from, is_digit, occurs_at, parse_decimal};

verus! {

/// Why an offer could not be parsed or a transfer failed.
#[derive(Debug, Clone, Copy, PartialEq, Eq, Structural)]
pub enum Error {
    /// The line does not follow the offer grammar, or a number does not fit.
    Parse,
    CreateOutputFile,
    FlushOutputFile,
    Shutdown,
    Connect,
    /// A read failed, or the sender closed before the declared size was reached.
    Read,
    Write,
}

pub open spec fn marker() -> Seq<char> {
    "DCC SEND "@
}

/// The end of the run of digits that starts at `from`.
pub open spec fn digit_run_end(s: Seq<char>, from: int) -> int
    decreases s.len() - from,
{
    if 0 <= from < s.len() && is_digit(s[from]) {
        digit_run_end(s, from + 1)
    } else {
        from
    }
}

/// Whether the three number fields of an offer follow position `k`: a space,
/// digits, a space, digits, a space, digits. Gives the ends of the three
/// runs; what follows the last digit is not looked at.
pub open spec fn fields_at(s: Seq<char>, k: int) -> Option<(int, int, int)> {
    if 0 <= k < s.len() && s[k] == ' ' {
        let j1 = digit_run_end(s, k + 1);
        if j1 > k + 1 && j1 < s.len() && s[j1] == ' ' {
            let j2 = digit_run_end(s, j1 + 1);
            if j2 > j1 + 1 && j2 < s.len() && s[j2] == ' ' {
                let j3 = digit_run_end(s, j2 + 1);
                if j3 > j2 + 1 {
                    Some((j1, j2, j3))
                } else {
                    None
                }
            } else {
                None
            }
        } else {
            None
        }
    } else {
        None
    }
}

/// The last position in `[start, end)` that the number fields follow.
pub open spec fn last_fields(s: Seq<char>, start: int, end: int) -> Option<int>
    decreases end - start,
{
    if end <= start {
        None
    } else if fields_at(s, end - 1) is Some {
        Some(end - 1)
    } else {
        last_fields(s, start, end - 1)
    }
}

/// Where the parts of an offer lie in a line: the filename is `[start, k1)`,
/// the address `(k1, k2)`, the port `(k2, k3)` and the size `(k3, end)`.
/// The filename runs from just after the first marker and is the longest one
/// that still leaves the three number fields after it; text after the size
/// is ignored.
pub open spec fn offer_shape(s: Seq<char>) -> Option<(int, int, int, int, int)> {
    match find_pat_from(s, 0, marker()) {
        None => None,
        Some(m) => {
            let start = m + marker().len();
            match last_fields(s, start, s.len() as int) {
                None => None,
                Some(k1) => match fields_at(s, k1) {
                    Some((k2, k3, end)) => Some((start, k1, k2, k3, end)),
                    None => None,
                },
            }
        },
    }
}

/// A filename with one pair of surrounding double quotes removed.
pub open spec fn unquote(name: Seq<char>) -> Seq<char> {
    if name.len() >= 2 && name[0] == '"' && name.last() == '"' {
        name.subrange(1, name.len() - 1)
    } else {
        name
    }
}

/// The offer that a line carries: filename, address, port and size.
pub open spec fn offer_of(s: Seq<char>) -> Option<(Seq<char>, nat, nat, nat)> {
    match offer_shape(s) {
        None => None,
        Some((start, k1, k2, k3, end)) => {
            match (
                decimal_in(s.subrange(k1 + 1, k2), u32::MAX as nat),
                decimal_in(s.subrange(k2 + 1, k3), u16::MAX as nat),
                decimal_in(s.subrange(k3 + 1, end), u64::MAX as nat),
            ) {
                (Some(a), Some(p), Some(z)) => Some((unquote(s.subrange(start, k1)), a, p, z)),
                _ => None,
            }
        },
    }
}

/// An offer to send one file: where to fetch it from and how many bytes it has.
pub struct DccSend {
    filename: String,
    ip: u32,
    port: u16,
    file_size: u64,
}

proof fn lemma_digit_run_end(s: Seq<char>, from: int)
    requires
        0 <= from <= s.len(),
    ensures
        from <= digit_run_end(s, from) <= s.len(),
    decreases s.len() - from,
{
    if from < s.len() && is_digit(s[from]) {
        lemma_digit_run_end(s, from + 1);
    }
}

fn digit_run_end_exec(v: &Vec<char>, from: usize) -> (e: usize)
    requires
        from <= v@.len(),
    ensures
        e as int == digit_run_end(v@, from as int),
        from <= e <= v@.len(),
{
    proof {
        lemma_digit_run_end(v@, from as int);
    }
    let mut i = from;
    while i < v.len() && v[i] >= '0' && v[i] <= '9'
        invariant
            from <= i <= v@.len(),
            digit_run_end(v@, from as int) == digit_run_end(v@, i as int),
        decreases v.len() - i,
    {
        i = i + 1;
    }
    i
}

fn fields_at_exec(v: &Vec<char>, k: usize) -> (r: Option<(usize, usize, usize)>)
    requires
        k < v@.len(),
    ensures
        match r {
            Some((a, b, c)) => fields_at(v@, k as int) == Some((a as int, b as int, c as int)),
            None => fields_at(v@, k as int) is None,
        },
        r matches Some((a, b, c)) ==> k < a < b < c <= v@.len(),
{
    assert(v@.len() == v.len());
    if v[k] != ' ' {
        return None;
    }
    let j1 = digit_run_end_exec(v, k + 1);
    if !(j1 > k + 1 && j1 < v.len() && v[j1] == ' ') {
        return None;
    }
    let j2 = digit_run_end_exec(v, j1 + 1);
    if !(j2 > j1 + 1 && j2 < v.len() && v[j2] == ' ') {
        return None;
    }
    let j3 = digit_run_end_exec(v, j2 + 1);
    if j3 > j2 + 1 {
        Some((j1, j2, j3))
    } else {
        None
    }
}

fn marker_chars() -> (v: Vec<char>)
    ensures
        v@ == marker(),
{
    chars_of("DCC SEND ")
}

/// Locates the parts of an offer in `v`, as `offer_shape` describes.
fn shape_exec(v: &Vec<char>) -> (r: Option<(usize, usize, usize, usize, usize)>)
    ensures
        match r {
            Some((a, b, c, d, e)) => offer_shape(v@) == Some(
                (a as int, b as int, c as int, d as int, e as int),
            ),
            None => offer_shape(v@) is None,
        },
        r matches Some((a, b, c, d, e)) ==> a <= b < c < d < e <= v@.len(),
{
    let mk = marker_chars();
    proof {
        reveal_strlit("DCC SEND ");
    }
    let m = match find_pat(v, 0, &mk) {
        None => return None,
        Some(m) => m,
    };
    proof {
        crate::text::lemma_find_pat_found(v@, 0, mk@);
        assert(occurs_at(v@, m as int, mk@));
        assert(v@.len() == v.len());
    }
    let start = m + mk.len();
    let mut e = v.len();
    while e > start
        invariant
            start <= v@.len(),
            e <= v@.len(),
            find_pat_from(v@, 0, marker()) == Some(m as int),
            start == m + marker().len(),
            last_fields(v@, start as int, v@.len() as int) == last_fields(
                v@,
                start as int,
                e as int,
            ),
        decreases e,
    {
        if let Some((k2, k3, end)) = fields_at_exec(v, e - 1) {
            assert(last_fields(v@, start as int, e as int) == Some(e - 1));
            return Some((start, e - 1, k2, k3, end));
        }
        e = e - 1;
    }
    None
}

impl DccSend {
    pub closed spec fn filename_view(&self) -> Seq<char> {
        self.filename@
    }

    pub closed spec fn ip_view(&self) -> u32 {
        self.ip
    }

    pub closed spec fn port_view(&self) -> u16 {
        self.port
    }

    pub closed spec fn size_view(&self) -> u64 {
        self.file_size
    }

    /// Parses an offer line of the form
    /// `DCC SEND <filename> <address> <port> <size>`, anywhere in the line;
    /// the filename may be double-quoted, the address is a big-endian `u32`.
    pub fn from(msg: &str) -> (r: Result<DccSend, Error>)
        ensures
            match offer_of(msg@) {
                Some((name, ip, port, size)) => r is Ok && r->Ok_0.filename_view() == name
                    && r->Ok_0.ip_view() == ip && r->Ok_0.port_view() == port
                    && r->Ok_0.size_view() == size,
                None => r == Err::<DccSend, Error>(Error::Parse),
            },
    {
        let v = chars_of(msg);
        let (start, k1, k2, k3, end) = match shape_exec(&v) {
            None => return Err(Error::Parse),
            Some(t) => t,
        };
        let ip = match parse_decimal(&v, k1 + 1, k2, u32::MAX as u64) {
            None => return Err(Error::Parse),
            Some(n) => n as u32,
        };
        let port = match parse_decimal(&v, k2 + 1, k3, u16::MAX as u64) {
            None => return Err(Error::Parse),
            Some(n) => n as u16,
        };
        let file_size = match parse_decimal(&v, k3 + 1, end, u64::MAX) {
            None => return Err(Error::Parse),
            Some(n) => n,
        };
        let (mut ns, mut ne) = (start, k1);
        if ne - ns >= 2 && v[ns] == '"' && v[ne - 1] == '"' {
            ns = ns + 1;
            ne = ne - 1;
        }
        proof {
            let name = v@.subrange(start as int, k1 as int);
            assert(v@.subrange(ns as int, ne as int) =~= unquote(name));
        }
        let filename = String::from_str(msg.substring_char(ns, ne));
        Ok(DccSend { filename, ip, port, file_size })
    }

    /// Whether `msg` has the shape of an offer line.
    pub fn is_offer(msg: &str) -> (r: bool)
        ensures
            r == (offer_shape(msg@) is Some),
    {
        let v = chars_of(msg);
        shape_exec(&v).is_some()
    }

    pub fn filename(&self) -> (r: &str)
        ensures
            r@ == self.filename_view(),
    {
        self.filename.as_str()
    }

    pub fn ip(&self) -> (r: u32)
        ensures
            r == self.ip_view(),
    {
        self.ip
    }

    pub fn port(&self) -> (r: u16)
        ensures
            r == self.port_view(),
    {
        self.port
    }

    pub fn file_size(&self) -> (r: u64)
        ensures
            r == self.size_view(),
    {
        self.file_size
    }
}

/// How many bytes a transfer asks for at most in one read.
pub const CHUNK_LEN: usize = 4096;

/// What one chunk did to a transfer.
#[derive(Debug, Clone, Copy, PartialEq, Eq, Structural)]
pub enum Progress {
    /// More bytes are owed.
    Partial,
    /// Exactly the declared size has arrived.
    Complete,
}

/// The byte count of one transfer: how much of the declared size has arrived.
pub struct Transfer {
    received: u64,
    size: u64,
}

impl Transfer {
    pub closed spec fn received_view(&self) -> nat {
        self.received as nat
    }

    pub closed spec fn size_view(&self) -> nat {
        self.size as nat
    }

    /// A transfer never counts more bytes than were declared.
    pub open spec fn wf(&self) -> bool {
        self.received_view() <= self.size_view()
    }

    pub open spec fn remaining(&self) -> nat {
        (self.size_view() - self.received_view()) as nat
    }

    pub open spec fn complete(&self) -> bool {
        self.received_view() == self.size_view()
    }

    /// How many bytes the next read asks for: a chunk, or what is left if less.
    pub open spec fn read_len_spec(&self) -> nat {
        if self.remaining() < CHUNK_LEN as nat {
            self.remaining()
        } else {
            CHUNK_LEN as nat
        }
    }

    /// A transfer of an offer, before any byte has arrived.
    pub fn new(offer: &DccSend) -> (t: Transfer)
        ensures
            t.wf(),
            t.received_view() == 0,
            t.size_view() == offer.size_view(),
    {
        Transfer { received: 0, size: offer.file_size }
    }

    pub fn received(&self) -> (r: u64)
        ensures
            r == self.received_view(),
    {
        self.received
    }

    pub fn size(&self) -> (r: u64)
        ensures
            r == self.size_view(),
    {
        self.size
    }

    pub fn is_complete(&self) -> (r: bool)
        ensures
            r == self.complete(),
    {
        self.received == self.size
    }

    /// The length of the next read; reads never go past the declared size.
    pub fn next_read_len(&self) -> (n: usize)
        requires
            self.wf(),
        ensures
            n == self.read_len_spec(),
            n <= self.remaining(),
            !self.complete() ==> n > 0,
    {
        let left = self.size - self.received;
        if left < CHUNK_LEN as u64 {
            left as usize
        } else {
            CHUNK_LEN
        }
    }

    /// Counts a read of `count` bytes. A read of nothing while bytes are still
    /// owed means the sender closed early: that is a read error, and the count
    /// stays as it was.
    pub fn record(&mut self, count: usize) -> (r: Result<Progress, Error>)
        requires
            old(self).wf(),
            count <= old(self).read_len_spec(),
        ensures
            final(self).wf(),
            final(self).size_view() == old(self).size_view(),
            count == 0 && !old(self).complete() ==> r == Err::<Progress, Error>(Error::Read)
                && final(self).received_view() == old(self).received_view(),
            !(count == 0 && !old(self).complete()) ==> final(self).received_view()
                == old(self).received_view() + count && r == Ok::<Progress, Error>(
                if final(self).complete() {
                    Progress::Complete
                } else {
                    Progress::Partial
                },
            ),
    {
        if count == 0 && self.received < self.size {
            return Err(Error::Read);
        }
        self.received = self.received + count as u64;
        if self.received == self.size {
            Ok(Progress::Complete)
        } else {
            Ok(Progress::Partial)
        }
    }
}

/// The byte count after a run of reads whose lengths are `counts`, each within
/// what `next_read_len` asked for; `None` once a read of nothing came while bytes
/// were owed.
pub open spec fn received_after(received: nat, size: nat, counts: Seq<nat>) -> Option<nat>
    decreases counts.len(),
{
    if counts.len() == 0 {
        Some(received)
    } else {
        match received_after(received, size, counts.drop_last()) {
            None => None,
            Some(r) => if counts.last() == 0 && r < size {
                None
            } else {
                Some(r + counts.last())
            },
        }
    }
}

/// A transfer whose every read stays within what remains of the declared size
/// never counts past that size, however small the fragments.
pub proof fn lemma_transfer_never_exceeds(size: nat, counts: Seq<nat>)
    requires
        forall|k: int|
            0 <= k < counts.len() ==> (received_after(0, size, #[trigger] counts.subrange(0, k))
                matches Some(r) ==> counts[k] <= size - r),
    ensures
        received_after(0, size, counts) matches Some(r) ==> r <= size,
    decreases counts.len(),
{
    if counts.len() > 0 {
        let prefix = counts.drop_last();
        assert forall|k: int|
            0 <= k < prefix.len() implies (received_after(0, size, #[trigger] prefix.subrange(0, k))
            matches Some(r) ==> prefix[k] <= size - r) by {
            assert(prefix.subrange(0, k) =~= counts.subrange(0, k));
        }
        lemma_transfer_never_exceeds(size, prefix);
        assert(counts.subrange(0, counts.len() - 1) =~= prefix);
    }
}

} // verus!
