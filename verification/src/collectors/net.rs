//! Network interface counters: `/proc/net/dev` lines and which interfaces
//! are shown.

use crate::collectors::counters::{counters_view, Counters, CountersModel};
use crate::scan::{
    char_index, chars_of, filter_map, find_char, line_ranges, lines, parse_or_zero,
    parse_or_zero_at, piece_string, pieces, range_starts_with, ranges_within, word_ranges, words,
};
use crate::text::{str_eq, trim, trimmed};
use vstd::prelude::*;

verus! {

/// The interface of a `/proc/net/dev` line and its received and sent byte
/// totals: the name is the trimmed text before the first `:`; of the fields
/// after it, read as numbers (zero where not one), the first is received
/// bytes and the ninth sent bytes. Lines without `:` or with fewer than nine
/// fields give nothing.
pub open spec fn net_dev_entry(l: Seq<char>) -> Option<CountersModel> {
    let c = char_index(l, ':');
    if c >= l.len() {
        None
    } else {
        let ws = words(l.subrange(c + 1, l.len() as int));
        if ws.len() < 9 {
            None
        } else {
            Some((trimmed(l.subrange(0, c)), parse_or_zero(ws[0]), parse_or_zero(ws[8])))
        }
    }
}

/// The interface counters of a `/proc/net/dev` text, in order.
pub fn parse_net_dev(text: &str) -> (r: Vec<Counters>)
    ensures
        counters_view(r@) == filter_map(lines(text@), |l: Seq<char>| net_dev_entry(l)),
{
    let cs = chars_of(text);
    let lr = line_ranges(&cs);
    let ghost ls = lines(text@);
    let mut out: Vec<Counters> = Vec::new();
    let n = lr.len();
    let mut i: usize = 0;
    while i < n
        invariant
            i <= n == lr@.len(),
            cs@ == text@,
            ls == pieces(cs@, lr@),
            ranges_within(lr@, 0, cs@.len() as int),
            counters_view(out@) == filter_map(ls.take(i as int), |l: Seq<char>| net_dev_entry(l)),
        decreases n - i,
    {
        let (a, b) = lr[i];
        let ghost l = ls[i as int];
        proof {
            assert(l == cs@.subrange(a as int, b as int));
            assert(ls.take(i + 1).drop_last() =~= ls.take(i as int));
            assert(ls.take(i + 1).last() == l);
        }
        let ghost before = out@;
        let c = find_char(&cs, a, b, ':');
        if c < b {
            let wr = word_ranges(&cs, c + 1, b);
            proof {
                assert(l.subrange(c - a + 1, l.len() as int) =~= cs@.subrange(c + 1, b as int));
            }
            if wr.len() >= 9 {
                let piece = piece_string(text, a, c);
                let name = trim(piece.as_str()).to_owned();
                let rx = parse_or_zero_at(&cs, wr[0].0, wr[0].1);
                let tx = parse_or_zero_at(&cs, wr[8].0, wr[8].1);
                proof {
                    assert(l.subrange(0, c - a) =~= cs@.subrange(a as int, c as int));
                }
                out.push(Counters { name, first: rx, second: tx });
                proof {
                    assert(counters_view(out@) =~= counters_view(before).push(
                        net_dev_entry(l).unwrap(),
                    ));
                }
            }
        }
        i = i + 1;
    }
    proof {
        assert(ls.take(n as int) =~= ls);
    }
    out
}

/// Which interfaces are shown: those of the allow-list when it is set,
/// otherwise every one but the loopback `lo`.
pub open spec fn net_included(allow: Seq<Seq<char>>, name: Seq<char>) -> bool {
    if allow.len() > 0 {
        allow.contains(name)
    } else {
        name != "lo"@
    }
}

/// Whether `name` is in the list.
pub fn list_contains(list: &Vec<String>, name: &str) -> (r: bool)
    ensures
        r == crate::config::strings_model(list@).contains(name@),
{
    let ghost m = crate::config::strings_model(list@);
    let mut i: usize = 0;
    while i < list.len()
        invariant
            i <= list@.len(),
            m == crate::config::strings_model(list@),
            m.len() == list@.len(),
            forall|j: int| 0 <= j < i ==> m[j] != name@,
        decreases list@.len() - i,
    {
        if str_eq(list[i].as_str(), name) {
            proof {
                assert(m[i as int] == name@);
            }
            return true;
        }
        i = i + 1;
    }
    false
}

/// Whether the interface `name` is shown, given the configured allow-list.
pub fn net_is_included(allow: &Vec<String>, name: &str) -> (r: bool)
    ensures
        r == net_included(crate::config::strings_model(allow@), name@),
{
    if allow.len() > 0 {
        list_contains(allow, name)
    } else {
        !str_eq(name, "lo")
    }
}

/// Interfaces hidden by default where the system names its pseudo
/// interfaces (loopback `lo0`, tunnels, peer-to-peer and bridge links).
pub open spec fn default_excluded(name: Seq<char>) -> bool {
    ||| name == "lo0"@
    ||| name.take(4) == "utun"@ && name.len() >= 4
    ||| name.take(4) == "awdl"@ && name.len() >= 4
    ||| name.take(3) == "llw"@ && name.len() >= 3
    ||| name.take(4) == "anpi"@ && name.len() >= 4
    ||| name.take(2) == "ap"@ && name.len() >= 2
    ||| name.take(6) == "bridge"@ && name.len() >= 6
    ||| name.take(3) == "gif"@ && name.len() >= 3
    ||| name.take(3) == "stf"@ && name.len() >= 3
}

/// Whether an interface is hidden unless it is asked for by name.
pub fn is_default_excluded(name: &str) -> (r: bool)
    ensures
        r == default_excluded(name@),
{
    let cs = chars_of(name);
    let n = cs.len();
    proof {
        reveal_strlit("utun");
        reveal_strlit("awdl");
        reveal_strlit("llw");
        reveal_strlit("anpi");
        reveal_strlit("ap");
        reveal_strlit("bridge");
        reveal_strlit("gif");
        reveal_strlit("stf");
        assert(cs@.subrange(0, n as int) =~= name@);
    }
    str_eq(name, "lo0") || range_starts_with(&cs, 0, n, "utun") || range_starts_with(
        &cs,
        0,
        n,
        "awdl",
    ) || range_starts_with(&cs, 0, n, "llw") || range_starts_with(&cs, 0, n, "anpi")
        || range_starts_with(&cs, 0, n, "ap") || range_starts_with(&cs, 0, n, "bridge")
        || range_starts_with(&cs, 0, n, "gif") || range_starts_with(&cs, 0, n, "stf")
}

/// Which interfaces are shown where the system names pseudo interfaces:
/// those of the allow-list when it is set, otherwise all but the ones hidden
/// by default.
pub open spec fn iface_included(allow: Seq<Seq<char>>, name: Seq<char>) -> bool {
    if allow.len() > 0 {
        allow.contains(name)
    } else {
        !default_excluded(name)
    }
}

pub fn iface_is_included(allow: &Vec<String>, name: &str) -> (r: bool)
    ensures
        r == iface_included(crate::config::strings_model(allow@), name@),
{
    if allow.len() > 0 {
        list_contains(allow, name)
    } else {
        !is_default_excluded(name)
    }
}

} // verus!
