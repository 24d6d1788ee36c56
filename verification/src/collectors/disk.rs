//! Disk counters: `/proc/diskstats` lines, ZFS pool `objset-*` kstat files,
//! and which devices are shown.

use crate::collectors::counters::{counters_view, Counters, CountersModel};
use crate::collectors::net::list_contains;
use crate::scan::{
    chars_of, filter_map, line_ranges, lines, parse_or_zero, parse_or_zero_at, parse_u64,
    parse_u64_at, piece_string, pieces, range_eq, range_starts_with, ranges_within, word_ranges,
    words,
};
use crate::text::str_eq;
use vstd::prelude::*;

verus! {

/// The device of a `/proc/diskstats` line and its sectors read and written:
/// the third, sixth and tenth fields (numbers, zero where not one). Lines of
/// fewer than ten fields give nothing.
pub open spec fn diskstats_entry(l: Seq<char>) -> Option<CountersModel> {
    let ws = words(l);
    if ws.len() < 10 {
        None
    } else {
        Some((ws[2], parse_or_zero(ws[5]), parse_or_zero(ws[9])))
    }
}

/// The device counters of a `/proc/diskstats` text, in order.
pub fn parse_diskstats(text: &str) -> (r: Vec<Counters>)
    ensures
        counters_view(r@) == filter_map(lines(text@), |l: Seq<char>| diskstats_entry(l)),
{
    let cs = chars_of(text);
    let lr = line_ranges(&cs);
    let ghost ls = lines(text@);
    let mut out: Vec<Counters> = Vec::new();
    let n = lr.len();
    let mut i: usize = 0;
    while i < n
        invariant
            i <= n == lr@.len(),
            cs@ == text@,
            ls == pieces(cs@, lr@),
            ranges_within(lr@, 0, cs@.len() as int),
            counters_view(out@) == filter_map(ls.take(i as int), |l: Seq<char>| diskstats_entry(l)),
        decreases n - i,
    {
        let (a, b) = lr[i];
        let ghost l = ls[i as int];
        proof {
            assert(l == cs@.subrange(a as int, b as int));
            assert(ls.take(i + 1).drop_last() =~= ls.take(i as int));
            assert(ls.take(i + 1).last() == l);
        }
        let ghost before = out@;
        let wr = word_ranges(&cs, a, b);
        if wr.len() >= 10 {
            let name = piece_string(text, wr[2].0, wr[2].1);
            let read = parse_or_zero_at(&cs, wr[5].0, wr[5].1);
            let written = parse_or_zero_at(&cs, wr[9].0, wr[9].1);
            out.push(Counters { name, first: read, second: written });
            proof {
                assert(counters_view(out@) =~= counters_view(before).push(
                    diskstats_entry(l).unwrap(),
                ));
            }
        }
        i = i + 1;
    }
    proof {
        assert(ls.take(n as int) =~= ls);
    }
    out
}

/// Which block devices are shown: those of the allow-list when it is set;
/// otherwise whole disks, known by an entry in `/sys/block` (`block_devices`),
/// never `loop` or `ram` devices.
pub open spec fn disk_included(
    allow: Seq<Seq<char>>,
    block_devices: Seq<Seq<char>>,
    name: Seq<char>,
) -> bool {
    if allow.len() > 0 {
        allow.contains(name)
    } else if (name.len() >= 4 && name.take(4) == "loop"@) || (name.len() >= 3 && name.take(3)
        == "ram"@) {
        false
    } else {
        block_devices.contains(name)
    }
}

/// Whether the block device `name` is shown.
pub fn disk_is_included(allow: &Vec<String>, block_devices: &Vec<String>, name: &str) -> (r: bool)
    ensures
        r == disk_included(
            crate::config::strings_model(allow@),
            crate::config::strings_model(block_devices@),
            name@,
        ),
{
    if allow.len() > 0 {
        return list_contains(allow, name);
    }
    let cs = chars_of(name);
    let n = cs.len();
    proof {
        reveal_strlit("loop");
        reveal_strlit("ram");
        assert(cs@.subrange(0, n as int) =~= name@);
    }
    if range_starts_with(&cs, 0, n, "loop") || range_starts_with(&cs, 0, n, "ram") {
        return false;
    }
    list_contains(block_devices, name)
}

/// The third word of the last line of `ls` of at least three words whose
/// first word is `key`.
pub open spec fn last_value(ls: Seq<Seq<char>>, key: Seq<char>) -> Option<Seq<char>>
    decreases ls.len(),
{
    if ls.len() == 0 {
        None
    } else {
        let ws = words(ls.last());
        if ws.len() >= 3 && ws[0] == key {
            Some(ws[2])
        } else {
            last_value(ls.drop_last(), key)
        }
    }
}

pub open spec fn parse_opt(w: Option<Seq<char>>) -> Option<u64> {
    match w {
        Some(x) => parse_u64(x),
        None => None,
    }
}

/// The read and written byte totals of a ZFS `objset-*` kstat text, only
/// when its `dataset_name` is `pool` itself (the pool's root dataset).
pub open spec fn objset_counters(text: Seq<char>, pool: Seq<char>) -> Option<(u64, u64)> {
    let ls = lines(text);
    match last_value(ls, "dataset_name"@) {
        Some(d) => if d == pool {
            match (parse_opt(last_value(ls, "nread"@)), parse_opt(last_value(ls, "nwritten"@))) {
                (Some(r), Some(w)) => Some((r, w)),
                _ => None,
            }
        } else {
            None
        },
        None => None,
    }
}

/// Parse an objset kstat file's text: `(nread, nwritten)` when its
/// `dataset_name` is `expected_pool` (the root dataset), `None` otherwise.
pub fn parse_objset(text: &str, expected_pool: &str) -> (r: Option<(u64, u64)>)
    ensures
        r == objset_counters(text@, expected_pool@),
{
    let cs = chars_of(text);
    let lr = line_ranges(&cs);
    let ghost ls = lines(text@);
    let mut dataset: Option<(usize, usize)> = None;
    let mut nread: Option<u64> = None;
    let mut nwritten: Option<u64> = None;
    let n = lr.len();
    let mut i: usize = 0;
    while i < n
        invariant
            i <= n == lr@.len(),
            cs@ == text@,
            ls == pieces(cs@, lr@),
            ranges_within(lr@, 0, cs@.len() as int),
            match dataset {
                Some(p) => p.0 <= p.1 <= cs@.len() && last_value(ls.take(i as int), "dataset_name"@)
                    == Some(cs@.subrange(p.0 as int, p.1 as int)),
                None => last_value(ls.take(i as int), "dataset_name"@) is None,
            },
            nread == parse_opt(last_value(ls.take(i as int), "nread"@)),
            nwritten == parse_opt(last_value(ls.take(i as int), "nwritten"@)),
        decreases n - i,
    {
        let (a, b) = lr[i];
        let ghost l = ls[i as int];
        proof {
            reveal_strlit("dataset_name");
            reveal_strlit("nread");
            reveal_strlit("nwritten");
            assert("dataset_name"@.len() != "nread"@.len());
            assert("dataset_name"@.len() != "nwritten"@.len());
            assert("nread"@.len() != "nwritten"@.len());
            assert(l == cs@.subrange(a as int, b as int));
            assert(ls.take(i + 1).drop_last() =~= ls.take(i as int));
            assert(ls.take(i + 1).last() == l);
        }
        let wr = word_ranges(&cs, a, b);
        if wr.len() >= 3 {
            let (k0, k1) = wr[0];
            let (v0, v1) = wr[2];
            if range_eq(&cs, k0, k1, "dataset_name") {
                dataset = Some((v0, v1));
            } else if range_eq(&cs, k0, k1, "nread") {
                nread = parse_u64_at(&cs, v0, v1);
            } else if range_eq(&cs, k0, k1, "nwritten") {
                nwritten = parse_u64_at(&cs, v0, v1);
            }
        }
        i = i + 1;
    }
    proof {
        assert(ls.take(n as int) =~= ls);
    }
    match dataset {
        Some((a, b)) => {
            let name = piece_string(text, a, b);
            if str_eq(name.as_str(), expected_pool) {
                match (nread, nwritten) {
                    (Some(r), Some(w)) => Some((r, w)),
                    _ => None,
                }
            } else {
                None
            }
        },
        None => None,
    }
}

/// A whole-disk BSD device name: `disk` followed by one or more ASCII
/// digits (a partition such as `disk0s1`, or a raw `rdisk0`, is not one).
pub open spec fn whole_bsd_disk_name(name: Seq<char>) -> bool {
    &&& name.len() > 4
    &&& name.take(4) == "disk"@
    &&& forall|i: int| 4 <= i < name.len() ==> '0' <= #[trigger] name[i] && name[i] <= '9'
}

/// Whether `name` names a whole disk rather than a partition.
pub fn is_whole_bsd_disk_name(name: &str) -> (r: bool)
    ensures
        r == whole_bsd_disk_name(name@),
{
    let cs = chars_of(name);
    let n = cs.len();
    proof {
        reveal_strlit("disk");
        assert(cs@.subrange(0, n as int) =~= name@);
    }
    if n <= 4 || !range_starts_with(&cs, 0, n, "disk") {
        return false;
    }
    let mut i: usize = 4;
    while i < n
        invariant
            4 <= i <= n == cs@.len(),
            cs@ == name@,
            forall|j: int| 4 <= j < i ==> '0' <= #[trigger] cs@[j] && cs@[j] <= '9',
        decreases n - i,
    {
        let c = cs[i];
        if !('0' <= c && c <= '9') {
            return false;
        }
        i = i + 1;
    }
    true
}

/// Which disks are shown where the kernel lists media: those of the
/// allow-list when it is set; otherwise whole disks that have been written
/// to.
pub open spec fn media_included(allow: Seq<Seq<char>>, name: Seq<char>, written: u64) -> bool {
    if allow.len() > 0 {
        allow.contains(name)
    } else {
        whole_bsd_disk_name(name) && written != 0
    }
}

pub fn media_is_included(allow: &Vec<String>, name: &str, written: u64) -> (r: bool)
    ensures
        r == media_included(crate::config::strings_model(allow@), name@, written),
{
    if allow.len() > 0 {
        list_contains(allow, name)
    } else {
        is_whole_bsd_disk_name(name) && written != 0
    }
}

/// Which ZFS pools are shown: those of the configured list when it is set,
/// otherwise every pool read.
pub open spec fn pool_included(allow: Seq<Seq<char>>, name: Seq<char>) -> bool {
    allow.len() == 0 || allow.contains(name)
}

pub fn pool_is_included(allow: &Vec<String>, name: &str) -> (r: bool)
    ensures
        r == pool_included(crate::config::strings_model(allow@), name@),
{
    allow.len() == 0 || list_contains(allow, name)
}

/// `p` begins `s`.
pub open spec fn has_prefix(s: Seq<char>, p: Seq<char>) -> bool {
    p.len() <= s.len() && s.subrange(0, p.len() as int) == p
}

/// With an allow-list, exactly its devices are shown; without one, exactly
/// the devices listed in `/sys/block` whose names start with neither `loop`
/// nor `ram`.
pub proof fn lemma_disk_filter(allow: Seq<Seq<char>>, block_devices: Seq<Seq<char>>, name: Seq<char>)
    ensures
        allow.len() > 0 ==> (disk_included(allow, block_devices, name) <==> allow.contains(name)),
        allow.len() == 0 ==> (disk_included(allow, block_devices, name) <==> {
            &&& block_devices.contains(name)
            &&& !has_prefix(name, seq!['l', 'o', 'o', 'p'])
            &&& !has_prefix(name, seq!['r', 'a', 'm'])
        }),
{
    reveal_strlit("loop");
    reveal_strlit("ram");
    assert("loop"@ =~= seq!['l', 'o', 'o', 'p']);
    assert("ram"@ =~= seq!['r', 'a', 'm']);
    if name.len() >= 4 {
        assert(name.take(4) =~= name.subrange(0, 4));
    }
    if name.len() >= 3 {
        assert(name.take(3) =~= name.subrange(0, 3));
    }
}

} // verus!
