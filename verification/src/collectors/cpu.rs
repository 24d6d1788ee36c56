//! CPU time counters from `/proc/stat`.

use crate::scan::{
    chars_of, line_ranges, lines, parse_u64, parse_u64_at, pieces, range_eq,
    range_starts_with, ranges_within, word_ranges, words,
};
use vstd::prelude::*;

verus! {

/// Idle and total jiffies of one CPU line.
#[derive(Debug, Clone, Copy, PartialEq, Eq, Structural)]
pub struct CpuTimes {
    pub idle: u64,
    pub total: u64,
}

/// The numbers among `ws`, in order; words that are not `u64`s are skipped.
pub open spec fn parsed_values(ws: Seq<Seq<char>>) -> Seq<u64>
    decreases ws.len(),
{
    if ws.len() == 0 {
        Seq::empty()
    } else {
        let rest = parsed_values(ws.drop_last());
        match parse_u64(ws.last()) {
            Some(v) => rest.push(v),
            None => rest,
        }
    }
}

pub open spec fn seq_sum(s: Seq<u64>) -> int
    decreases s.len(),
{
    if s.len() == 0 {
        0
    } else {
        seq_sum(s.drop_last()) + s.last()
    }
}

/// The `i`th value, or zero when there are fewer.
pub open spec fn value_or_zero(v: Seq<u64>, i: int) -> int {
    if i < v.len() {
        v[i] as int
    } else {
        0
    }
}

/// The idle time (idle + iowait, the fourth and fifth values) and the total
/// time (the sum of the first eight values: user, nice, system, idle, iowait,
/// irq, softirq, steal) of the values of a CPU line.
pub open spec fn idle_sum(v: Seq<u64>) -> int {
    value_or_zero(v, 3) + value_or_zero(v, 4)
}

pub open spec fn total_sum(v: Seq<u64>) -> int {
    seq_sum(v.take(if v.len() < 8 { v.len() as int } else { 8 }))
}

/// The times of the words of a CPU line after its label, `None` where a sum
/// does not fit in a `u64`.
pub open spec fn times_of(ws: Seq<Seq<char>>) -> Option<CpuTimes> {
    let v = parsed_values(ws);
    if idle_sum(v) <= u64::MAX && total_sum(v) <= u64::MAX {
        Some(CpuTimes { idle: idle_sum(v) as u64, total: total_sum(v) as u64 })
    } else {
        None
    }
}

proof fn lemma_seq_sum_take(s: Seq<u64>, j: int)
    requires
        0 <= j < s.len(),
    ensures
        seq_sum(s.take(j + 1)) == seq_sum(s.take(j)) + s[j],
{
    assert(s.take(j + 1).drop_last() =~= s.take(j));
}

proof fn lemma_seq_sum_take_mono(s: Seq<u64>, j: int, m: int)
    requires
        0 <= j <= m <= s.len(),
    ensures
        seq_sum(s.take(j)) <= seq_sum(s.take(m)),
    decreases m - j,
{
    if j < m {
        lemma_seq_sum_take(s, m - 1);
        lemma_seq_sum_take_mono(s, j, m - 1);
    }
}

/// The times of the words `wr[from..]` of `cs`.
fn times_at(cs: &Vec<char>, wr: &Vec<(usize, usize)>, from: usize) -> (r: Option<CpuTimes>)
    requires
        from <= wr@.len(),
        ranges_within(wr@, 0, cs@.len() as int),
    ensures
        r == times_of(pieces(cs@, wr@).subrange(from as int, wr@.len() as int)),
{
    let ghost ws = pieces(cs@, wr@);
    let n = wr.len();
    let mut vals: Vec<u64> = Vec::new();
    let mut k: usize = from;
    proof {
        assert(ws.subrange(from as int, from as int) =~= Seq::<Seq<char>>::empty());
    }
    while k < n
        invariant
            from <= k <= n == wr@.len(),
            ws == pieces(cs@, wr@),
            ranges_within(wr@, 0, cs@.len() as int),
            vals@ == parsed_values(ws.subrange(from as int, k as int)),
        decreases n - k,
    {
        let (a, b) = wr[k];
        proof {
            assert(ws.subrange(from as int, k + 1).drop_last() =~= ws.subrange(
                from as int,
                k as int,
            ));
            assert(ws.subrange(from as int, k + 1).last() == ws[k as int]);
            assert(ws[k as int] == cs@.subrange(a as int, b as int));
        }
        match parse_u64_at(cs, a, b) {
            Some(v) => vals.push(v),
            None => {},
        }
        k = k + 1;
    }
    let ghost v = vals@;
    let x3: u64 = if vals.len() > 3 {
        vals[3]
    } else {
        0
    };
    let x4: u64 = if vals.len() > 4 {
        vals[4]
    } else {
        0
    };
    let idle = match x3.checked_add(x4) {
        Some(i) => i,
        None => {
            return None;
        },
    };
    let m: usize = if vals.len() < 8 {
        vals.len()
    } else {
        8
    };
    let mut total: u64 = 0;
    let mut j: usize = 0;
    proof {
        assert(v.take(0) =~= Seq::<u64>::empty());
    }
    while j < m
        invariant
            j <= m <= vals@.len(),
            m == (if vals@.len() < 8 { vals@.len() as int } else { 8 }),
            v == vals@,
            v == parsed_values(pieces(cs@, wr@).subrange(from as int, wr@.len() as int)),
            total == seq_sum(v.take(j as int)),
            idle == idle_sum(v),
        decreases m - j,
    {
        proof {
            lemma_seq_sum_take(v, j as int);
        }
        match total.checked_add(vals[j]) {
            Some(t) => {
                total = t;
            },
            None => {
                proof {
                    lemma_seq_sum_take_mono(v, j + 1, m as int);
                }
                return None;
            },
        }
        j = j + 1;
    }
    Some(CpuTimes { idle, total })
}

/// Parse the fields of a `/proc/stat` CPU line that follow its label:
/// idle is idle + iowait, total the sum of the first eight values.
pub fn parse_times(fields: &str) -> (t: CpuTimes)
    requires
        times_of(words(fields@)) is Some,
    ensures
        Some(t) == times_of(words(fields@)),
{
    let cs = chars_of(fields);
    let wr = word_ranges(&cs, 0, cs.len());
    proof {
        assert(cs@.subrange(0, cs@.len() as int) =~= cs@);
        assert(pieces(cs@, wr@).subrange(0, wr@.len() as int) =~= pieces(cs@, wr@));
    }
    match times_at(&cs, &wr, 0) {
        Some(t) => t,
        None => CpuTimes { idle: 0, total: 0 },
    }
}

/// The number of leading lines that start with `cpu`.
pub open spec fn cpu_run(ls: Seq<Seq<char>>) -> int
    decreases ls.len(),
{
    if ls.len() > 0 && ls[0].len() >= 3 && ls[0].take(3) == "cpu"@ {
        1 + cpu_run(ls.drop_first())
    } else {
        0
    }
}

/// The times of a CPU line: of its words after the first.
pub open spec fn line_times(l: Seq<char>) -> Option<CpuTimes> {
    times_of(words(l).drop_first())
}

/// Whether a CPU line is the all-CPU line, labelled `cpu` alone.
pub open spec fn is_aggregate_line(l: Seq<char>) -> bool {
    words(l).len() > 0 && words(l)[0] == "cpu"@
}

/// The times of the last all-CPU line of `ls`, zero where there is none.
pub open spec fn stat_aggregate(ls: Seq<Seq<char>>) -> CpuTimes
    decreases ls.len(),
{
    if ls.len() == 0 {
        CpuTimes { idle: 0, total: 0 }
    } else if is_aggregate_line(ls.last()) {
        line_times(ls.last()).unwrap()
    } else {
        stat_aggregate(ls.drop_last())
    }
}

/// The times of the per-core lines of `ls` (those not labelled `cpu`), in order.
pub open spec fn core_times(ls: Seq<Seq<char>>) -> Seq<CpuTimes>
    decreases ls.len(),
{
    if ls.len() == 0 {
        Seq::empty()
    } else if is_aggregate_line(ls.last()) {
        core_times(ls.drop_last())
    } else {
        core_times(ls.drop_last()).push(line_times(ls.last()).unwrap())
    }
}

/// The CPU lines of a `/proc/stat` text: the leading lines that start with `cpu`.
pub open spec fn cpu_lines(stat: Seq<char>) -> Seq<Seq<char>> {
    lines(stat).take(cpu_run(lines(stat)))
}

/// Every CPU line's sums fit in a `u64`.
pub open spec fn cpu_lines_fit(stat: Seq<char>) -> bool {
    forall|i: int| 0 <= i < cpu_lines(stat).len() ==> #[trigger] line_times(cpu_lines(stat)[i]) is Some
}

/// The counters of one `/proc/stat` reading.
#[derive(Debug, Clone)]
pub struct CpuStat {
    /// The all-CPU line.
    pub aggregate: CpuTimes,
    /// One entry per core line, in order.
    pub cores: Vec<CpuTimes>,
}

proof fn lemma_cpu_run_at(ls: Seq<Seq<char>>, k: int)
    requires
        0 <= k <= ls.len(),
        forall|j: int| 0 <= j < k ==> (#[trigger] ls[j]).len() >= 3 && ls[j].take(3) == "cpu"@,
        k == ls.len() || !(ls[k].len() >= 3 && ls[k].take(3) == "cpu"@),
    ensures
        cpu_run(ls) == k,
    decreases k,
{
    if k > 0 {
        let t = ls.drop_first();
        assert forall|j: int| 0 <= j < k - 1 implies (#[trigger] t[j]).len() >= 3 && t[j].take(3)
            == "cpu"@ by {
            assert(t[j] == ls[j + 1]);
        }
        if k < ls.len() {
            assert(t[k - 1] == ls[k]);
        }
        lemma_cpu_run_at(t, k - 1);
    }
}

/// Parse the CPU lines of a `/proc/stat` text; reading stops at the first
/// line that does not start with `cpu`. `None` where the sums of a CPU line
/// do not fit in a `u64`.
pub fn parse_stat(stat: &str) -> (r: Option<CpuStat>)
    ensures
        match r {
            Some(s) => cpu_lines_fit(stat@) && s.aggregate == stat_aggregate(cpu_lines(stat@))
                && s.cores@ == core_times(cpu_lines(stat@)),
            None => !cpu_lines_fit(stat@),
        },
{
    let cs = chars_of(stat);
    let lr = line_ranges(&cs);
    let ghost ls = lines(stat@);
    let n = lr.len();
    let mut k: usize = 0;
    while k < n && range_starts_with(&cs, lr[k].0, lr[k].1, "cpu")
        invariant
            k <= n == lr@.len(),
            ls == pieces(cs@, lr@),
            ranges_within(lr@, 0, cs@.len() as int),
            forall|j: int| 0 <= j < k ==> (#[trigger] ls[j]).len() >= 3 && ls[j].take(3) == "cpu"@,
        decreases n - k,
    {
        proof {
            assert(ls[k as int] == cs@.subrange(lr@[k as int].0 as int, lr@[k as int].1 as int));
            reveal_strlit("cpu");
            assert(ls[k as int].take(3) =~= cs@.subrange(
                lr@[k as int].0 as int,
                lr@[k as int].0 + 3,
            ));
        }
        k = k + 1;
    }
    proof {
        reveal_strlit("cpu");
        if k < n {
            assert(ls[k as int] == cs@.subrange(lr@[k as int].0 as int, lr@[k as int].1 as int));
            if ls[k as int].len() >= 3 {
                assert(ls[k as int].take(3) =~= cs@.subrange(
                    lr@[k as int].0 as int,
                    lr@[k as int].0 + 3,
                ));
            }
        }
        lemma_cpu_run_at(ls, k as int);
    }
    let ghost run = ls.take(k as int);
    let mut aggregate = CpuTimes { idle: 0, total: 0 };
    let mut cores: Vec<CpuTimes> = Vec::new();
    let mut i: usize = 0;
    proof {
        assert(run.take(0) =~= Seq::<Seq<char>>::empty());
    }
    while i < k
        invariant
            i <= k <= n == lr@.len(),
            ls == pieces(cs@, lr@),
            ranges_within(lr@, 0, cs@.len() as int),
            run == ls.take(k as int),
            run == cpu_lines(stat@),
            forall|j: int| 0 <= j < k ==> (#[trigger] ls[j]).len() >= 3 && ls[j].take(3) == "cpu"@,
            forall|j: int| 0 <= j < i ==> #[trigger] line_times(run[j]) is Some,
            aggregate == stat_aggregate(run.take(i as int)),
            cores@ == core_times(run.take(i as int)),
        decreases k - i,
    {
        let (a, b) = lr[i];
        let wr = word_ranges(&cs, a, b);
        let ghost l = run[i as int];
        proof {
            assert(l == cs@.subrange(a as int, b as int));
            assert(run.take(i + 1).drop_last() =~= run.take(i as int));
            assert(run.take(i + 1).last() == l);
        }
        let wn = wr.len();
        proof {
            reveal_strlit("cpu");
            assert(l == ls[i as int]);
            assert(l.take(3)[0] == 'c');
            assert(l[0] == 'c');
            assert(words(l).len() > 0);
            assert(pieces(cs@, wr@).subrange(1, wn as int) =~= words(l).drop_first());
        }
        let t = match times_at(&cs, &wr, 1) {
            Some(t) => t,
            None => {
                proof {
                    assert(line_times(cpu_lines(stat@)[i as int]) is None);
                }
                return None;
            },
        };
        let is_agg = wn > 0 && range_eq(&cs, wr[0].0, wr[0].1, "cpu");
        proof {
            if wn > 0 {
                assert(words(l)[0] == cs@.subrange(wr@[0].0 as int, wr@[0].1 as int));
            }
        }
        if is_agg {
            aggregate = t;
        } else {
            cores.push(t);
        }
        i = i + 1;
    }
    proof {
        assert(run.take(k as int) =~= run);
    }
    Some(CpuStat { aggregate, cores })
}

/// The sums of the idle and total times of `cores`.
pub open spec fn idle_sum_of(cores: Seq<CpuTimes>) -> int
    decreases cores.len(),
{
    if cores.len() == 0 {
        0
    } else {
        idle_sum_of(cores.drop_last()) + cores.last().idle
    }
}

pub open spec fn total_sum_of(cores: Seq<CpuTimes>) -> int
    decreases cores.len(),
{
    if cores.len() == 0 {
        0
    } else {
        total_sum_of(cores.drop_last()) + cores.last().total
    }
}

pub proof fn lemma_sums_grow(cores: Seq<CpuTimes>, j: int, m: int)
    requires
        0 <= j <= m <= cores.len(),
    ensures
        idle_sum_of(cores.take(j)) <= idle_sum_of(cores.take(m)),
        total_sum_of(cores.take(j)) <= total_sum_of(cores.take(m)),
    decreases m - j,
{
    if j < m {
        assert(cores.take(m).drop_last() =~= cores.take(m - 1));
        lemma_sums_grow(cores, j, m - 1);
    }
}

/// The machine's times: the sums over its cores (where the kernel reports
/// only per-core counters).
pub fn aggregate_times(cores: &Vec<CpuTimes>) -> (t: CpuTimes)
    requires
        idle_sum_of(cores@) <= u64::MAX,
        total_sum_of(cores@) <= u64::MAX,
    ensures
        t.idle == idle_sum_of(cores@),
        t.total == total_sum_of(cores@),
{
    let mut acc = CpuTimes { idle: 0, total: 0 };
    let mut i: usize = 0;
    proof {
        assert(cores@.take(0) =~= Seq::<CpuTimes>::empty());
    }
    while i < cores.len()
        invariant
            i <= cores@.len(),
            idle_sum_of(cores@) <= u64::MAX,
            total_sum_of(cores@) <= u64::MAX,
            acc.idle == idle_sum_of(cores@.take(i as int)),
            acc.total == total_sum_of(cores@.take(i as int)),
        decreases cores@.len() - i,
    {
        proof {
            assert(cores@.take(i + 1).drop_last() =~= cores@.take(i as int));
            lemma_sums_grow(cores@, i + 1, cores@.len() as int);
            assert(cores@.take(cores@.len() as int) =~= cores@);
        }
        acc.idle = acc.idle + cores[i].idle;
        acc.total = acc.total + cores[i].total;
        i = i + 1;
    }
    proof {
        assert(cores@.take(cores@.len() as int) =~= cores@);
    }
    acc
}

/// The change of the counters between two readings of one CPU.
#[derive(Debug, Clone, Copy, PartialEq, Eq, Structural)]
pub struct TickDelta {
    /// Elapsed jiffies.
    pub total: u64,
    /// Of which idle.
    pub idle: u64,
}

pub open spec fn sat_sub(a: u64, b: u64) -> u64 {
    if a >= b {
        (a - b) as u64
    } else {
        0
    }
}

/// The counters' change from `prev` to `cur`, never below zero.
pub fn tick_delta(prev: CpuTimes, cur: CpuTimes) -> (d: TickDelta)
    ensures
        d.total == sat_sub(cur.total, prev.total),
        d.idle == sat_sub(cur.idle, prev.idle),
{
    TickDelta { total: cur.total.saturating_sub(prev.total), idle: cur.idle.saturating_sub(prev.idle) }
}


/// The counter changes of one reading: for the whole machine and per core,
/// `None` where there is no previous reading to compare with.
#[derive(Debug, Clone)]
pub struct CpuTicks {
    pub aggregate: Option<TickDelta>,
    pub cores: Vec<Option<TickDelta>>,
}

pub open spec fn delta_of(prev: CpuTimes, cur: CpuTimes) -> TickDelta {
    TickDelta { total: sat_sub(cur.total, prev.total), idle: sat_sub(cur.idle, prev.idle) }
}

/// The previous reading, kept between ticks.
pub struct CpuCollector {
    prev_agg: Option<CpuTimes>,
    prev_cores: Vec<CpuTimes>,
}

impl CpuCollector {
    /// The all-CPU counters of the previous reading.
    pub closed spec fn previous_aggregate(&self) -> Option<CpuTimes> {
        self.prev_agg
    }

    /// The per-core counters of the previous reading.
    pub closed spec fn previous_cores(&self) -> Seq<CpuTimes> {
        self.prev_cores@
    }

    /// A collector that has read nothing yet.
    pub fn new() -> (c: CpuCollector)
        ensures
            c.previous_aggregate() is None,
            c.previous_cores() == Seq::<CpuTimes>::empty(),
    {
        CpuCollector { prev_agg: None, prev_cores: Vec::new() }
    }

    /// Compare a reading with the previous one (core by core, by position)
    /// and keep it for the next.
    pub fn update(&mut self, stat: CpuStat) -> (t: CpuTicks)
        ensures
            t.aggregate == match old(self).previous_aggregate() {
                Some(p) => Some(delta_of(p, stat.aggregate)),
                None => None::<TickDelta>,
            },
            t.cores@.len() == stat.cores@.len(),
            forall|i: int|
                0 <= i < t.cores@.len() ==> #[trigger] t.cores@[i] == if i < old(
                    self,
                ).previous_cores().len() {
                    Some(delta_of(old(self).previous_cores()[i], stat.cores@[i]))
                } else {
                    None
                },
            final(self).previous_aggregate() == Some(stat.aggregate),
            final(self).previous_cores() == stat.cores@,
    {
        let aggregate = match self.prev_agg {
            Some(p) => Some(tick_delta(p, stat.aggregate)),
            None => None,
        };
        let mut cores: Vec<Option<TickDelta>> = Vec::new();
        let n = stat.cores.len();
        let mut i: usize = 0;
        while i < n
            invariant
                i <= n == stat.cores@.len(),
                self.prev_cores@ == old(self).prev_cores@,
                cores@.len() == i,
                forall|j: int|
                    0 <= j < i ==> #[trigger] cores@[j] == if j < self.prev_cores@.len() {
                        Some(delta_of(self.prev_cores@[j], stat.cores@[j]))
                    } else {
                        None
                    },
            decreases n - i,
        {
            let d = if i < self.prev_cores.len() {
                Some(tick_delta(self.prev_cores[i], stat.cores[i]))
            } else {
                None
            };
            cores.push(d);
            i = i + 1;
        }
        self.prev_agg = Some(stat.aggregate);
        self.prev_cores = stat.cores;
        CpuTicks { aggregate, cores }
    }
}

} // verus!
