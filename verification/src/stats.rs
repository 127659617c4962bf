//! Order statistics of latencies, and what the process has used.

use vstd::prelude::*;

use crate::text::{
    decimal_text, fields, law_unsigned_round_trip, nth_field, parse_chars, unsigned_up_to,
    unsigned_value,
};

verus! {

pub open spec fn ascending(s: Seq<u64>) -> bool {
    forall|i: int, j: int| 0 <= i <= j < s.len() ==> s[i] <= s[j]
}

proof fn lemma_insert_multiset(s: Seq<u64>, at: int, v: u64)
    requires
        0 <= at <= s.len(),
    ensures
        s.insert(at, v).to_multiset() == s.to_multiset().insert(v),
{
    let t = s.insert(at, v);
    t.to_multiset_ensures();
    assert(t.remove(at) =~= s);
    assert(t[at] == v);
    assert(t.contains(v));
    assert(t.to_multiset().remove(v).insert(v) =~= t.to_multiset());
}

/// The values in ascending order.
pub fn sorted(values: &Vec<u64>) -> (r: Vec<u64>)
    ensures
        ascending(r@),
        r@.to_multiset() == values@.to_multiset(),
        r@.len() == values@.len(),
{
    let mut out: Vec<u64> = Vec::new();
    let mut n: usize = 0;
    assert(values@.take(0) =~= out@);
    while n < values.len()
        invariant
            n <= values@.len(),
            out@.len() == n,
            ascending(out@),
            out@.to_multiset() == values@.take(n as int).to_multiset(),
        decreases values@.len() - n,
    {
        let v = values[n];
        let mut at: usize = n;
        while at > 0 && out[at - 1] > v
            invariant
                at <= n,
                n == out@.len(),
                ascending(out@),
                forall|j: int| at <= j < n ==> out@[j] > v,
            decreases at,
        {
            at -= 1;
        }
        proof {
            lemma_insert_multiset(out@, at as int, v);
            assert(values@.take(n + 1) =~= values@.take(n as int).push(v));
            values@.take(n as int).to_multiset_ensures();
        }
        out.insert(at, v);
        n += 1;
    }
    assert(values@.take(n as int) =~= values@);
    out
}

/// Latencies in ascending order, and those at certain ranks.
pub struct LatencyStats {
    pub sorted: Vec<u64>,
    pub p50: u64,
    pub p95: u64,
    pub min: u64,
    pub max: u64,
}

/// The rank below which half of `n` values lie.
pub open spec fn rank50(n: nat) -> nat {
    n / 2
}

/// The rank below which ninety-five of a hundred of `n` values lie, or the last
/// rank.
pub open spec fn rank95(n: nat) -> nat {
    if n * 95 / 100 < n - 1 {
        n * 95 / 100
    } else {
        (n - 1) as nat
    }
}

/// The statistics of one or more latencies.
pub fn compute_stats(values: &Vec<u64>) -> (r: LatencyStats)
    requires
        0 < values@.len(),
    ensures
        ascending(r.sorted@),
        r.sorted@.to_multiset() == values@.to_multiset(),
        r.sorted@.len() == values@.len(),
        r.p50 == r.sorted@[rank50(values@.len()) as int],
        r.p95 == r.sorted@[rank95(values@.len()) as int],
        r.min == r.sorted@[0],
        r.max == r.sorted@[values@.len() - 1],
{
    let s = sorted(values);
    let n: usize = s.len();
    let high: usize = n / 100 * 95 + n % 100 * 95 / 100;
    assert(high == n * 95 / 100);
    let rank: usize = if high < n - 1 {
        high
    } else {
        n - 1
    };
    let p50 = s[n / 2];
    let p95 = s[rank];
    let min = s[0];
    let max = s[n - 1];
    LatencyStats { sorted: s, p50, p95, min, max }
}

/// The statistics do not depend on the order in which the latencies came: equal
/// collections have one ascending order.
pub proof fn law_one_ascending_order(a: Seq<u64>, b: Seq<u64>)
    requires
        ascending(a),
        ascending(b),
        a.to_multiset() == b.to_multiset(),
    ensures
        a == b,
    decreases a.len(),
{
    a.to_multiset_ensures();
    b.to_multiset_ensures();
    assert(a.len() == b.len());
    if a.len() == 0 {
        assert(a =~= b);
    } else {
        let n = a.len() - 1;
        assert(a.contains(a[n]));
        assert(b.to_multiset().count(a[n]) > 0);
        assert(b.contains(a[n]));
        assert(b.contains(b[n]));
        assert(a.to_multiset().count(b[n]) > 0);
        assert(a.contains(b[n]));
        assert(a[n] == b[n]);
        assert(a.remove(n) =~= a.drop_last());
        assert(b.remove(n) =~= b.drop_last());
        law_one_ascending_order(a.drop_last(), b.drop_last());
        assert(a =~= a.drop_last().push(a[n]));
        assert(b =~= b.drop_last().push(b[n]));
    }
}

/// The smallest latency is at most each latency, and the largest at least.
pub proof fn law_min_and_max(values: Seq<u64>, s: Seq<u64>, v: u64)
    requires
        ascending(s),
        s.to_multiset() == values.to_multiset(),
        values.contains(v),
    ensures
        s[0] <= v <= s[s.len() - 1],
{
    values.to_multiset_ensures();
    s.to_multiset_ensures();
    assert(values.to_multiset().count(v) > 0);
    assert(s.contains(v));
}

// ---------------------------------------------------------------------------
// Use of the process
// ---------------------------------------------------------------------------

/// The number in the field of a status line with a place, counted from zero.
pub open spec fn field_number(line: Seq<char>, place: int) -> Option<nat> {
    if place < fields(line).len() {
        unsigned_up_to(fields(line)[place], u64::MAX as nat)
    } else {
        None
    }
}

fn read_field(line: &str, place: usize) -> (r: Option<u64>)
    ensures
        match r {
            Some(n) => field_number(line@, place as int) == Some(n as nat),
            None => field_number(line@, place as int) is None,
        },
{
    match nth_field(line, place) {
        Some(f) => parse_chars(&f),
        None => None,
    }
}

/// The ticks that a process has run, in user mode and for it in the kernel, by
/// its line in `stat`; zero where the line does not say.
pub open spec fn ticks_of(stat: Option<Seq<char>>) -> nat {
    match stat {
        Some(line) => match (field_number(line, 13), field_number(line, 14)) {
            (Some(user), Some(kernel)) => user + kernel,
            _ => 0,
        },
        None => 0,
    }
}

/// The ticks that the process has run; `None` where they are too many to count.
pub fn cpu_ticks(stat: Option<&str>) -> (r: Option<u64>)
    ensures
        ({
            let ticks = ticks_of(
                match stat {
                    Some(s) => Some(s@),
                    None => None,
                },
            );
            match r {
                Some(n) => n == ticks,
                None => ticks > u64::MAX,
            }
        }),
{
    match stat {
        Some(line) => match (read_field(line, 13), read_field(line, 14)) {
            (Some(user), Some(kernel)) => user.checked_add(kernel),
            _ => Some(0),
        },
        None => Some(0),
    }
}

/// The bytes that a process has in memory, by its line in `statm`, with pages
/// of 4096 bytes; zero where the line does not say.
pub open spec fn resident_bytes_of(statm: Option<Seq<char>>) -> nat {
    match statm {
        Some(line) => match field_number(line, 1) {
            Some(pages) => pages * 4096,
            None => 0,
        },
        None => 0,
    }
}

/// The whole mebibytes that the process has in memory; `None` where the bytes
/// are too many to count.
pub fn resident_mebibytes(statm: Option<&str>) -> (r: Option<u64>)
    ensures
        ({
            let bytes = resident_bytes_of(
                match statm {
                    Some(s) => Some(s@),
                    None => None,
                },
            );
            match r {
                Some(n) => bytes <= u64::MAX && n == bytes / 1048576,
                None => bytes > u64::MAX,
            }
        }),
{
    match statm {
        Some(line) => match read_field(line, 1) {
            Some(pages) => match pages.checked_mul(4096) {
                Some(bytes) => Some(bytes / 1024 / 1024),
                None => None,
            },
            None => Some(0),
        },
        None => Some(0),
    }
}

/// The rank of the median splits the values in halves. The rank of the
/// ninety-fifth percentile is the largest below which lie no more than
/// ninety-five of a hundred values, and never beyond the last.
pub proof fn law_ranks(n: nat)
    requires
        n > 0,
    ensures
        rank50(n) < n,
        2 * rank50(n) <= n < 2 * rank50(n) + 2,
        rank95(n) < n,
        100 * rank95(n) <= 95 * n,
        95 * n < 100 * (rank95(n) + 1) || rank95(n) == n - 1,
{
}

/// The ticks of a process are those of its fourteenth and its fifteenth field
/// together; where its line does not have them as numbers, or there is no line,
/// there are none.
pub proof fn law_ticks(line: Seq<char>, user: nat, kernel: nat)
    ensures
        fields(line).len() > 14 && fields(line)[13] == decimal_text(user) && fields(line)[14]
            == decimal_text(kernel) && user <= u64::MAX && kernel <= u64::MAX ==> ticks_of(
            Some(line),
        ) == user + kernel,
        fields(line).len() <= 14 ==> ticks_of(Some(line)) == 0,
        ticks_of(None) == 0,
{
    law_unsigned_round_trip(user);
    law_unsigned_round_trip(kernel);
}

/// The bytes of a process in memory are its second field times 4096; where its
/// line does not have it as a number, or there is no line, there are none.
pub proof fn law_resident(line: Seq<char>, pages: nat)
    ensures
        fields(line).len() > 1 && fields(line)[1] == decimal_text(pages) && pages <= u64::MAX
            ==> resident_bytes_of(Some(line)) == pages * 4096,
        fields(line).len() <= 1 ==> resident_bytes_of(Some(line)) == 0,
        resident_bytes_of(None) == 0,
{
    law_unsigned_round_trip(pages);
}

/// A field of a line is read as the number that it denotes, where it fits in
/// sixty-four bits; a line that does not reach so far has none there.
pub proof fn law_field_number(line: Seq<char>, place: int)
    ensures
        0 <= place < fields(line).len() ==> field_number(line, place) == (match unsigned_value(
            fields(line)[place],
        ) {
            Some(n) => if n < 0x1_0000_0000_0000_0000 {
                Some(n)
            } else {
                None
            },
            None => None,
        }),
        place >= fields(line).len() ==> field_number(line, place) is None,
        ticks_of(Some(line)) == (if field_number(line, 13) is Some && field_number(
            line,
            14,
        ) is Some {
            field_number(line, 13)->0 + field_number(line, 14)->0
        } else {
            0
        }),
        resident_bytes_of(Some(line)) == (if field_number(line, 1) is Some {
            field_number(line, 1)->0 * 4096
        } else {
            0
        }),
{
}

} // verus!
