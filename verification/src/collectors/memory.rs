//! Memory figures from `/proc/meminfo`.

use crate::scan::{
    char_index, chars_of, find_char, line_ranges, lines, parse_u64, parse_u64_at, pieces,
    range_eq, ranges_within, word_ranges, words,
};
use vstd::prelude::*;

verus! {

/// The key and value of a `/proc/meminfo` line: the text before its first
/// `:`, and the first word after it read as a number.
pub open spec fn meminfo_entry(l: Seq<char>) -> Option<(Seq<char>, u64)> {
    let c = char_index(l, ':');
    if c >= l.len() {
        None
    } else {
        let ws = words(l.subrange(c + 1, l.len() as int));
        if ws.len() == 0 {
            None
        } else {
            match parse_u64(ws[0]) {
                Some(v) => Some((l.subrange(0, c), v)),
                None => None,
            }
        }
    }
}

/// The value recorded for `key`: a later line replaces an earlier one.
pub open spec fn meminfo_value(ls: Seq<Seq<char>>, key: Seq<char>) -> Option<u64>
    decreases ls.len(),
{
    if ls.len() == 0 {
        None
    } else {
        match meminfo_entry(ls.last()) {
            Some(e) => if e.0 == key {
                Some(e.1)
            } else {
                meminfo_value(ls.drop_last(), key)
            },
            None => meminfo_value(ls.drop_last(), key),
        }
    }
}

/// A value in KiB as bytes; a missing value counts as zero.
pub open spec fn kib_bytes(v: Option<u64>) -> int {
    match v {
        Some(x) => x * 1024,
        None => 0,
    }
}

/// Memory and swap in bytes.
#[derive(Debug, Clone, Copy, PartialEq, Eq, Structural)]
pub struct MemoryFigures {
    pub total: u64,
    pub used: u64,
    pub available: u64,
    pub swap_total: u64,
    pub swap_used: u64,
}

pub open spec fn sat_sub(a: int, b: int) -> int {
    if a >= b {
        a - b
    } else {
        0
    }
}

/// The four values read from a `/proc/meminfo` text fit in a `u64` as bytes.
pub open spec fn meminfo_fits(text: Seq<char>) -> bool {
    let ls = lines(text);
    &&& kib_bytes(meminfo_value(ls, "MemTotal"@)) <= u64::MAX
    &&& kib_bytes(meminfo_value(ls, "MemAvailable"@)) <= u64::MAX
    &&& kib_bytes(meminfo_value(ls, "SwapTotal"@)) <= u64::MAX
    &&& kib_bytes(meminfo_value(ls, "SwapFree"@)) <= u64::MAX
}

/// The memory figures of a `/proc/meminfo` text: used is total less
/// available, swap used is swap total less swap free, never below zero.
pub open spec fn figures_of(text: Seq<char>) -> MemoryFigures {
    let ls = lines(text);
    let total = kib_bytes(meminfo_value(ls, "MemTotal"@));
    let available = kib_bytes(meminfo_value(ls, "MemAvailable"@));
    let swap_total = kib_bytes(meminfo_value(ls, "SwapTotal"@));
    let swap_free = kib_bytes(meminfo_value(ls, "SwapFree"@));
    MemoryFigures {
        total: total as u64,
        used: sat_sub(total, available) as u64,
        available: available as u64,
        swap_total: swap_total as u64,
        swap_used: sat_sub(swap_total, swap_free) as u64,
    }
}

fn to_bytes(v: Option<u64>) -> (r: Option<u64>)
    ensures
        match r {
            Some(b) => kib_bytes(v) <= u64::MAX && b == kib_bytes(v),
            None => kib_bytes(v) > u64::MAX,
        },
{
    match v {
        Some(x) => x.checked_mul(1024),
        None => Some(0),
    }
}

/// Read the memory figures from a `/proc/meminfo` text; `None` where a value
/// in bytes does not fit in a `u64`.
pub fn parse_meminfo(text: &str) -> (r: Option<MemoryFigures>)
    ensures
        match r {
            Some(f) => meminfo_fits(text@) && f == figures_of(text@),
            None => !meminfo_fits(text@),
        },
{
    let cs = chars_of(text);
    let lr = line_ranges(&cs);
    let ghost ls = lines(text@);
    let mut total: Option<u64> = None;
    let mut available: Option<u64> = None;
    let mut swap_total: Option<u64> = None;
    let mut swap_free: Option<u64> = None;
    let n = lr.len();
    let mut i: usize = 0;
    while i < n
        invariant
            i <= n == lr@.len(),
            ls == pieces(cs@, lr@),
            ranges_within(lr@, 0, cs@.len() as int),
            total == meminfo_value(ls.take(i as int), "MemTotal"@),
            available == meminfo_value(ls.take(i as int), "MemAvailable"@),
            swap_total == meminfo_value(ls.take(i as int), "SwapTotal"@),
            swap_free == meminfo_value(ls.take(i as int), "SwapFree"@),
        decreases n - i,
    {
        let (a, b) = lr[i];
        let ghost l = ls[i as int];
        proof {
            reveal_strlit("MemTotal");
            reveal_strlit("MemAvailable");
            reveal_strlit("SwapTotal");
            reveal_strlit("SwapFree");
            assert("MemTotal"@.len() != "MemAvailable"@.len());
            assert("MemTotal"@.len() != "SwapTotal"@.len());
            assert("MemTotal"@[0] != "SwapFree"@[0]);
            assert("MemAvailable"@.len() != "SwapTotal"@.len());
            assert("MemAvailable"@.len() != "SwapFree"@.len());
            assert("SwapTotal"@.len() != "SwapFree"@.len());
            assert(l == cs@.subrange(a as int, b as int));
            assert(ls.take(i + 1).drop_last() =~= ls.take(i as int));
            assert(ls.take(i + 1).last() == l);
        }
        let c = find_char(&cs, a, b, ':');
        if c < b {
            let wr = word_ranges(&cs, c + 1, b);
            proof {
                assert(l.subrange(c - a + 1, l.len() as int) =~= cs@.subrange(c + 1, b as int));
            }
            if wr.len() > 0 {
                let v = parse_u64_at(&cs, wr[0].0, wr[0].1);
                proof {
                    assert(l.subrange(0, c - a) =~= cs@.subrange(a as int, c as int));
                }
                match v {
                    Some(x) => {
                        if range_eq(&cs, a, c, "MemTotal") {
                            total = Some(x);
                        } else if range_eq(&cs, a, c, "MemAvailable") {
                            available = Some(x);
                        } else if range_eq(&cs, a, c, "SwapTotal") {
                            swap_total = Some(x);
                        } else if range_eq(&cs, a, c, "SwapFree") {
                            swap_free = Some(x);
                        }
                    },
                    None => {},
                }
            }
        }
        i = i + 1;
    }
    proof {
        assert(ls.take(n as int) =~= ls);
    }
    let total = to_bytes(total)?;
    let available = to_bytes(available)?;
    let swap_total = to_bytes(swap_total)?;
    let swap_free = to_bytes(swap_free)?;
    Some(
        MemoryFigures {
            total,
            used: total.saturating_sub(available),
            available,
            swap_total,
            swap_used: swap_total.saturating_sub(swap_free),
        },
    )
}

/// The virtual-memory counters the Mach kernel reports: total bytes, page
/// size, free, inactive and speculative pages, and swap use in bytes.
#[derive(Debug, Clone, Copy, PartialEq, Eq, Structural)]
pub struct VmCounters {
    pub total: u64,
    pub page_size: u64,
    pub free_pages: u64,
    pub inactive_pages: u64,
    pub speculative_pages: u64,
    pub swap_total: u64,
    pub swap_used: u64,
}

/// The free, inactive and speculative pages fit in a `u64` together.
pub open spec fn vm_pages_fit(c: VmCounters) -> bool {
    c.free_pages + c.inactive_pages + c.speculative_pages <= u64::MAX
}

/// Memory figures from page counts: available is the free, inactive and
/// speculative pages in bytes (saturating), at most the total; used is the
/// rest.
pub open spec fn vm_figures(c: VmCounters) -> MemoryFigures {
    let pages = c.free_pages + c.inactive_pages + c.speculative_pages;
    let bytes = if pages * c.page_size <= u64::MAX { pages * c.page_size } else { u64::MAX as int };
    let available = if bytes < c.total { bytes } else { c.total as int };
    MemoryFigures {
        total: c.total,
        used: (c.total - available) as u64,
        available: available as u64,
        swap_total: c.swap_total,
        swap_used: c.swap_used,
    }
}

/// The memory figures of page-counting kernels; `None` where the page counts'
/// sum does not fit in a `u64`.
pub fn vm_memory_figures(c: VmCounters) -> (r: Option<MemoryFigures>)
    ensures
        match r {
            Some(f) => vm_pages_fit(c) && f == vm_figures(c),
            None => !vm_pages_fit(c),
        },
{
    let pages = match c.free_pages.checked_add(c.inactive_pages) {
        Some(p) => match p.checked_add(c.speculative_pages) {
            Some(q) => q,
            None => {
                return None;
            },
        },
        None => {
            return None;
        },
    };
    let bytes = match pages.checked_mul(c.page_size) {
        Some(b) => b,
        None => u64::MAX,
    };
    let available = if bytes < c.total {
        bytes
    } else {
        c.total
    };
    Some(
        MemoryFigures {
            total: c.total,
            used: c.total - available,
            available,
            swap_total: c.swap_total,
            swap_used: c.swap_used,
        },
    )
}

/// Swap figures come from the swap lines alone: two texts that agree on
/// `SwapTotal` and `SwapFree` give the same swap total and swap used,
/// whatever their other lines say; likewise memory figures come from
/// `MemTotal` and `MemAvailable` alone.
pub proof fn lemma_figures_from_their_lines(t1: Seq<char>, t2: Seq<char>)
    ensures
        meminfo_value(lines(t1), "SwapTotal"@) == meminfo_value(lines(t2), "SwapTotal"@)
            && meminfo_value(lines(t1), "SwapFree"@) == meminfo_value(lines(t2), "SwapFree"@)
            ==> figures_of(t1).swap_total == figures_of(t2).swap_total && figures_of(t1).swap_used
            == figures_of(t2).swap_used,
        meminfo_value(lines(t1), "MemTotal"@) == meminfo_value(lines(t2), "MemTotal"@)
            && meminfo_value(lines(t1), "MemAvailable"@) == meminfo_value(lines(t2), "MemAvailable"@)
            ==> figures_of(t1).total == figures_of(t2).total && figures_of(t1).used
            == figures_of(t2).used && figures_of(t1).available == figures_of(t2).available,
{
}

/// Where the figures fit, swap used and swap free make up the swap total
/// (used is zero where more is free than there is), and used and available
/// memory make up the total likewise; all in bytes, from the KiB values.
pub proof fn lemma_figures_add_up(t: Seq<char>)
    requires
        meminfo_fits(t),
    ensures
        ({
            let f = figures_of(t);
            let ls = lines(t);
            let swap_free = kib_bytes(meminfo_value(ls, "SwapFree"@));
            &&& f.swap_total == kib_bytes(meminfo_value(ls, "SwapTotal"@))
            &&& f.total == kib_bytes(meminfo_value(ls, "MemTotal"@))
            &&& f.available == kib_bytes(meminfo_value(ls, "MemAvailable"@))
            &&& f.swap_used <= f.swap_total
            &&& f.used <= f.total
            &&& swap_free <= f.swap_total ==> f.swap_used + swap_free == f.swap_total
            &&& swap_free > f.swap_total ==> f.swap_used == 0
            &&& f.available <= f.total ==> f.used + f.available == f.total
            &&& f.available > f.total ==> f.used == 0
        }),
{
    let ls = lines(t);
    assert(kib_bytes(meminfo_value(ls, "SwapFree"@)) >= 0);
    assert(kib_bytes(meminfo_value(ls, "SwapTotal"@)) >= 0);
    assert(kib_bytes(meminfo_value(ls, "MemTotal"@)) >= 0);
    assert(kib_bytes(meminfo_value(ls, "MemAvailable"@)) >= 0);
}

} // verus!
