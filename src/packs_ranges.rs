//! Pack ranges as given on the command line ("12-15", "17"), and the pack ids
//! they stand for.
use vstd::prelude::*;
use crate::text::{chars_of, decimal_in, find_char, find_from, parse_decimal};

verus! {

/// The packs from `start` to `end`, both included.
#[derive(Debug, Clone, Copy, PartialEq, Eq, Structural)]
pub struct PackRange {
    pub start: i32,
    pub end: i32,
}

#[derive(Clone)]
pub struct PacksRanges(pub Vec<PackRange>);

/// A pack number: decimal digits, optionally after a `+`, that fit in an `i32`.
pub open spec fn pack_number(s: Seq<char>) -> Option<int> {
    let digits = if s.len() > 0 && s[0] == '+' {
        s.drop_first()
    } else {
        s
    };
    match decimal_in(digits, i32::MAX as nat) {
        Some(n) => Some(n as int),
        None => None,
    }
}

/// The range that one argument describes: `a-b` (what follows a second `-` is
/// ignored) with `a <= b`, or a single pack `p`; anything else describes none.
pub open spec fn range_of(s: Seq<char>) -> Option<(int, int)> {
    match find_from(s, 0, '-') {
        Some(k) => {
            let second_end = match find_from(s, k + 1, '-') {
                Some(k2) => k2,
                None => s.len() as int,
            };
            match (pack_number(s.subrange(0, k)), pack_number(s.subrange(k + 1, second_end))) {
                (Some(a), Some(b)) => if b >= a {
                    Some((a, b))
                } else {
                    None
                },
                _ => None,
            }
        },
        None => match pack_number(s) {
            Some(p) => Some((p, p)),
            None => None,
        },
    }
}

/// The ranges that a list of arguments describes, in order; arguments that
/// describe none are skipped.
pub open spec fn ranges_of(args: Seq<Seq<char>>) -> Seq<(int, int)>
    decreases args.len(),
{
    if args.len() == 0 {
        seq![]
    } else {
        let prev = ranges_of(args.drop_last());
        match range_of(args.last()) {
            Some(r) => prev.push(r),
            None => prev,
        }
    }
}

/// The ids from `a` to `b`, in increasing order; none when `b < a`.
pub open spec fn range_ids(a: int, b: int) -> Seq<int> {
    Seq::new(if b >= a { (b - a + 1) as nat } else { 0 }, |i: int| a + i)
}

/// Every id of every range, range after range.
pub open spec fn expand(rs: Seq<(int, int)>) -> Seq<int>
    decreases rs.len(),
{
    if rs.len() == 0 {
        seq![]
    } else {
        expand(rs.drop_last()) + range_ids(rs.last().0, rs.last().1)
    }
}

fn pack_number_exec(v: &Vec<char>, from: usize, to: usize) -> (r: Option<i32>)
    requires
        from <= to <= v@.len(),
    ensures
        match pack_number(v@.subrange(from as int, to as int)) {
            Some(n) => r == Some(n as i32),
            None => r is None,
        },
{
    let ghost s = v@.subrange(from as int, to as int);
    if from < to && v[from] == '+' {
        assert(s.drop_first() =~= v@.subrange(from + 1, to as int));
        match parse_decimal(v, from + 1, to, i32::MAX as u64) {
            Some(n) => Some(n as i32),
            None => None,
        }
    } else {
        match parse_decimal(v, from, to, i32::MAX as u64) {
            Some(n) => Some(n as i32),
            None => None,
        }
    }
}

fn range_of_exec(arg: &str) -> (r: Option<PackRange>)
    ensures
        match range_of(arg@) {
            Some((a, b)) => r == Some(PackRange { start: a as i32, end: b as i32 }),
            None => r is None,
        },
{
    let v = chars_of(arg);
    match find_char(&v, 0, '-') {
        Some(k) => {
            proof {
                crate::text::lemma_find_found(v@, 0, '-');
                crate::text::lemma_find_found(v@, k + 1, '-');
            }
            let second_end = match find_char(&v, k + 1, '-') {
                Some(k2) => k2,
                None => v.len(),
            };
            let fst = pack_number_exec(&v, 0, k);
            let snd = pack_number_exec(&v, k + 1, second_end);
            match (fst, snd) {
                (Some(a), Some(b)) => if b >= a {
                    Some(PackRange { start: a, end: b })
                } else {
                    None
                },
                _ => None,
            }
        },
        None => {
            assert(v@.subrange(0, v@.len() as int) =~= v@);
            match pack_number_exec(&v, 0, v.len()) {
                Some(p) => Some(PackRange { start: p, end: p }),
                None => None,
            }
        },
    }
}

impl PacksRanges {
    pub open spec fn view_ranges(&self) -> Seq<(int, int)> {
        self.0@.map_values(|r: PackRange| (r.start as int, r.end as int))
    }

    /// The pack ids that the ranges stand for.
    pub open spec fn ids_view(&self) -> Seq<int> {
        expand(self.view_ranges())
    }

    /// Reads each argument as a range `a-b` or a single pack `p`, keeping
    /// those that describe a range, in order.
    pub fn from(s: &[&str]) -> (r: Self)
        ensures
            r.view_ranges() == ranges_of(s@.map_values(|a: &str| a@)),
    {
        let ghost args = s@.map_values(|a: &str| a@);
        let mut ranges: Vec<PackRange> = Vec::new();
        let mut i: usize = 0;
        while i < s.len()
            invariant
                i <= s@.len(),
                args == s@.map_values(|a: &str| a@),
                ranges@.map_values(|r: PackRange| (r.start as int, r.end as int)) == ranges_of(
                    args.subrange(0, i as int),
                ),
            decreases s.len() - i,
        {
            let ghost before = ranges@;
            assert(args.subrange(0, i + 1).drop_last() =~= args.subrange(0, i as int));
            assert(args.subrange(0, i + 1).last() == s@[i as int]@);
            if let Some(r) = range_of_exec(s[i]) {
                ranges.push(r);
                assert(ranges@.map_values(|r: PackRange| (r.start as int, r.end as int))
                    =~= before.map_values(|r: PackRange| (r.start as int, r.end as int)).push(
                    (r.start as int, r.end as int),
                ));
            }
            i = i + 1;
        }
        assert(args.subrange(0, s@.len() as int) =~= args);
        PacksRanges(ranges)
    }

    /// Every pack id of every range, in order.
    pub fn ids(&self) -> (r: Vec<i32>)
        ensures
            r@.map_values(|x: i32| x as int) == self.ids_view(),
    {
        let ghost rs = self.view_ranges();
        let mut out: Vec<i32> = Vec::new();
        let mut i: usize = 0;
        while i < self.0.len()
            invariant
                i <= self.0@.len(),
                rs == self.view_ranges(),
                out@.map_values(|x: i32| x as int) == expand(rs.subrange(0, i as int)),
            decreases self.0.len() - i,
        {
            let range = self.0[i];
            let ghost base = out@.map_values(|x: i32| x as int);
            assert(rs.subrange(0, i + 1).drop_last() =~= rs.subrange(0, i as int));
            assert(rs.subrange(0, i + 1).last() == (range.start as int, range.end as int));
            if range.start <= range.end {
                let mut j = range.start;
                while j < range.end
                    invariant
                        range.start <= j <= range.end,
                        out@.map_values(|x: i32| x as int) =~= base + range_ids(
                            range.start as int,
                            j - 1,
                        ),
                    decreases range.end - j,
                {
                    let ghost prev = out@;
                    out.push(j);
                    assert(out@.map_values(|x: i32| x as int) =~= prev.map_values(
                        |x: i32| x as int,
                    ).push(j as int));
                    assert(range_ids(range.start as int, j as int) =~= range_ids(
                        range.start as int,
                        j - 1,
                    ).push(j as int));
                    j = j + 1;
                }
                let ghost prev = out@;
                out.push(j);
                assert(out@.map_values(|x: i32| x as int) =~= prev.map_values(|x: i32| x as int).push(
                    j as int,
                ));
                assert(range_ids(range.start as int, j as int) =~= range_ids(
                    range.start as int,
                    j - 1,
                ).push(j as int));
            }
            assert(out@.map_values(|x: i32| x as int) =~= base + range_ids(
                range.start as int,
                range.end as int,
            ));
            i = i + 1;
        }
        assert(rs.subrange(0, self.0@.len() as int) =~= rs);
        out
    }
}

} // verus!
