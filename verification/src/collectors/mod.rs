pub mod counters;
pub mod cpu;
pub mod disk;
pub mod memory;
pub mod net;

use crate::collectors::counters::{counters_view, sat_sub, CounterTable, Counters, CountersModel};
use crate::collectors::cpu::{
    aggregate_times, delta_of, idle_sum_of, parse_stat, total_sum_of, CpuCollector, CpuStat,
    CpuTicks, CpuTimes,
};
use crate::collectors::disk::{
    disk_included, disk_is_included, media_included, media_is_included, parse_diskstats,
    pool_included, pool_is_included,
};
use crate::collectors::memory::{
    parse_meminfo, vm_figures, vm_memory_figures, vm_pages_fit, MemoryFigures, VmCounters,
};
use crate::collectors::net::{
    iface_included, iface_is_included, net_included, net_is_included, parse_net_dev,
};
use crate::config::{strings_model, Config};
use crate::order::{is_permutation, key_less, sorted_order};
use std::collections::VecDeque;
use vstd::prelude::*;

verus! {

/// Fixed-capacity history ring buffer for graphing.
///
/// It keeps the newest `capacity()` samples, oldest first.
pub struct History<T> {
    buf: VecDeque<T>,
    cap: usize,
}

impl<T> View for History<T> {
    type V = Seq<T>;

    closed spec fn view(&self) -> Seq<T> {
        self.buf@
    }
}

impl<T> History<T> {
    /// The buffer never holds more samples than its capacity, which is positive.
    #[verifier::type_invariant]
    spec fn holds_at_most_capacity(&self) -> bool {
        &&& self.cap >= 1
        &&& self.buf@.len() <= self.cap
    }

    /// The number of samples the buffer retains.
    pub closed spec fn capacity(&self) -> nat {
        self.cap as nat
    }

    /// An empty history; a requested capacity of zero is raised to one.
    pub fn new(cap: usize) -> (h: Self)
        ensures
            h@ == Seq::<T>::empty(),
            h.capacity() == if cap == 0 { 1 } else { cap as nat },
    {
        History { buf: VecDeque::with_capacity(cap), cap: if cap == 0 { 1 } else { cap } }
    }

    /// Append `v` as the newest sample, dropping the oldest one when full.
    pub fn push(&mut self, v: T)
        ensures
            final(self).capacity() == old(self).capacity(),
            final(self).capacity() >= 1,
            final(self)@.len() <= final(self).capacity(),
            final(self)@ == if old(self)@.len() == old(self).capacity() {
                old(self)@.drop_first().push(v)
            } else {
                old(self)@.push(v)
            },
    {
        proof {
            use_type_invariant(&*self);
        }
        let mut buf = VecDeque::new();
        std::mem::swap(&mut buf, &mut self.buf);
        if buf.len() == self.cap {
            let _ = buf.pop_front();
        }
        buf.push_back(v);
        self.buf = buf;
    }
}

/// The newest `cap` samples of `all`, oldest first.
pub open spec fn newest<T>(all: Seq<T>, cap: nat) -> Seq<T> {
    if all.len() <= cap {
        all
    } else {
        all.skip(all.len() - cap)
    }
}

/// A history holds the newest `capacity()` samples of everything pushed into
/// it: if it did before a push, it does after.
pub proof fn lemma_history_keeps_newest<T>(before: Seq<T>, after: Seq<T>, cap: nat, all: Seq<T>, v: T)
    requires
        cap >= 1,
        before == newest(all, cap),
        after == if before.len() == cap {
            before.drop_first().push(v)
        } else {
            before.push(v)
        },
    ensures
        after == newest(all.push(v), cap),
{
    let n = all.len();
    if n < cap {
        assert(after =~= all.push(v));
    } else if n == cap {
        assert(before == all);
        assert(after =~= all.push(v).skip(n + 1 - cap));
    } else {
        assert(before.len() == cap);
        assert(after =~= all.push(v).skip(n + 1 - cap));
    }
}

impl<T: Copy> History<T> {
    /// Snapshot the history as a Vec (oldest first).
    pub fn to_vec(&self) -> (out: Vec<T>)
        ensures
            out@ == self@,
            1 <= self.capacity(),
            out@.len() <= self.capacity(),
    {
        proof {
            use_type_invariant(self);
        }
        let mut out: Vec<T> = Vec::new();
        let n = self.buf.len();
        let mut i: usize = 0;
        while i < n
            invariant
                n == self.buf@.len(),
                i <= n,
                out@ == self.buf@.subrange(0, i as int),
            decreases n - i,
        {
            out.push(self.buf[i]);
            i = i + 1;
        }
        assert(out@ =~= self.buf@);
        out
    }
}


/// A device's counters and their change since its previous reading (`None`
/// on its first reading).
#[derive(Debug, Clone)]
pub struct DeviceDelta {
    pub name: String,
    pub delta: Option<(u64, u64)>,
}

/// The model of a device's change: its name and the change.
pub type DeltaModel = (Seq<char>, Option<(u64, u64)>);

pub open spec fn deltas_view(s: Seq<DeviceDelta>) -> Seq<DeltaModel> {
    s.map_values(|d: DeviceDelta| (d.name@, d.delta))
}

/// The change of a reading against the previous readings `m`.
pub open spec fn change(m: Map<Seq<char>, (u64, u64)>, e: CountersModel) -> Option<(u64, u64)> {
    match m.get(e.0) {
        Some(p) => Some((sat_sub(e.1, p.0), sat_sub(e.2, p.1))),
        None => None,
    }
}

/// Taking readings `es` in order against the previous readings `m`: the
/// readings afterwards (each device's latest), and each reading's change.
pub open spec fn observe_all(m: Map<Seq<char>, (u64, u64)>, es: Seq<CountersModel>) -> (
    Map<Seq<char>, (u64, u64)>,
    Seq<DeltaModel>,
)
    decreases es.len(),
{
    if es.len() == 0 {
        (m, Seq::empty())
    } else {
        let (m1, ds) = observe_all(m, es.drop_last());
        let e = es.last();
        (m1.insert(e.0, (e.1, e.2)), ds.push((e.0, change(m1, e))))
    }
}

/// The latest reading of `k`: its last one among `es`, else its reading in `m`.
pub open spec fn latest(m: Map<Seq<char>, (u64, u64)>, es: Seq<CountersModel>, k: Seq<char>) -> Option<
    (u64, u64),
>
    decreases es.len(),
{
    if es.len() == 0 {
        m.get(k)
    } else if es.last().0 == k {
        Some((es.last().1, es.last().2))
    } else {
        latest(m, es.drop_last(), k)
    }
}

proof fn lemma_observe_table(m: Map<Seq<char>, (u64, u64)>, es: Seq<CountersModel>, k: Seq<char>)
    ensures
        observe_all(m, es).0.get(k) == latest(m, es, k),
    decreases es.len(),
{
    if es.len() > 0 {
        lemma_observe_table(m, es.drop_last(), k);
    }
}

proof fn lemma_observe_entry(m: Map<Seq<char>, (u64, u64)>, es: Seq<CountersModel>, j: int)
    requires
        0 <= j < es.len(),
    ensures
        observe_all(m, es).1.len() == es.len(),
        observe_all(m, es).1[j] == (es[j].0, change(observe_all(m, es.take(j)).0, es[j])),
    decreases es.len(),
{
    if j < es.len() - 1 {
        lemma_observe_entry(m, es.drop_last(), j);
        assert(es.drop_last().take(j) =~= es.take(j));
    } else {
        assert(es.drop_last() =~= es.take(j));
        lemma_observe_names(m, es.drop_last());
    }
}

proof fn lemma_latest_unseen(m: Map<Seq<char>, (u64, u64)>, es: Seq<CountersModel>, k: Seq<char>)
    requires
        forall|i: int| 0 <= i < es.len() ==> #[trigger] es[i].0 != k,
    ensures
        latest(m, es, k) == m.get(k),
    decreases es.len(),
{
    if es.len() > 0 {
        assert(es.last() == es[es.len() - 1]);
        lemma_latest_unseen(m, es.drop_last(), k);
    }
}

/// Across two consecutive ticks, a device's change is the saturating
/// difference of its counters from its latest earlier reading, or none on
/// its first reading: where the first tick takes readings `es1` against the
/// previous readings `m0` and the second tick takes `es2` against what the
/// first left, the change reported for the `j`-th reading of the second tick
/// (the first of its name in that tick) is measured from the latest
/// reading of that name in the first tick or before.
pub proof fn lemma_consecutive_changes(
    m0: Map<Seq<char>, (u64, u64)>,
    es1: Seq<CountersModel>,
    es2: Seq<CountersModel>,
    j: int,
)
    requires
        0 <= j < es2.len(),
        forall|i: int| 0 <= i < j ==> #[trigger] es2[i].0 != es2[j].0,
    ensures
        observe_all(observe_all(m0, es1).0, es2).1[j] == (
            es2[j].0,
            match latest(m0, es1, es2[j].0) {
                Some(p) => Some((sat_sub(es2[j].1, p.0), sat_sub(es2[j].2, p.1))),
                None => None,
            },
        ),
{
    let m1 = observe_all(m0, es1).0;
    lemma_observe_entry(m1, es2, j);
    let pre = es2.take(j);
    assert forall|i: int| 0 <= i < pre.len() implies #[trigger] pre[i].0 != es2[j].0 by {
        assert(pre[i] == es2[i]);
    }
    lemma_observe_table(m1, pre, es2[j].0);
    lemma_latest_unseen(m1, pre, es2[j].0);
    lemma_observe_table(m0, es1, es2[j].0);
}

/// `ds` listed by name, stably (devices of one name in their given order).
pub open spec fn sorted_by_name(ds: Seq<DeltaModel>, out: Seq<DeltaModel>) -> bool {
    &&& out.len() == ds.len()
    &&& exists|order: Seq<usize>|
        {
            &&& is_permutation(order, ds.len() as int)
            &&& forall|i: int| 0 <= i < out.len() ==> #[trigger] out[i] == ds[order[i] as int]
            &&& forall|i: int, j: int|
                #![trigger order[i], order[j]]
                0 <= i < j < out.len() && out[i].0 == out[j].0 ==> order[i] < order[j]
        }
    &&& forall|i: int, j: int|
        0 <= i < j < out.len() ==> !key_less((false, #[trigger] out[j].0), (false, #[trigger] out[i].0))
}

/// List the devices by name; devices of one name keep their order.
pub fn sort_by_name(ds: Vec<DeviceDelta>) -> (out: Vec<DeviceDelta>)
    ensures
        sorted_by_name(deltas_view(ds@), deltas_view(out@)),
{
    let mut names: Vec<String> = Vec::new();
    let mut ranks: Vec<bool> = Vec::new();
    let mut k: usize = 0;
    while k < ds.len()
        invariant
            k <= ds@.len(),
            names@.len() == k,
            ranks@.len() == k,
            forall|i: int| 0 <= i < k ==> #[trigger] names@[i]@ == ds@[i].name@,
            forall|i: int| 0 <= i < k ==> !#[trigger] ranks@[i],
        decreases ds@.len() - k,
    {
        names.push(ds[k].name.clone());
        ranks.push(false);
        k = k + 1;
    }
    let order = sorted_order(&ranks, &names);
    let mut out: Vec<DeviceDelta> = Vec::new();
    let mut i: usize = 0;
    while i < order.len()
        invariant
            i <= order@.len(),
            is_permutation(order@, ds@.len() as int),
            crate::order::is_stably_sorted(order@, ranks@, names@),
            names@.len() == ds@.len(),
            ranks@.len() == ds@.len(),
            forall|j: int| 0 <= j < ds@.len() ==> #[trigger] names@[j]@ == ds@[j].name@,
            forall|j: int| 0 <= j < ds@.len() ==> !#[trigger] ranks@[j],
            out@.len() == i,
            forall|j: int|
                0 <= j < i ==> (#[trigger] out@[j]).name@ == ds@[order@[j] as int].name@
                    && out@[j].delta == ds@[order@[j] as int].delta,
        decreases order@.len() - i,
    {
        let d = &ds[order[i]];
        out.push(DeviceDelta { name: d.name.clone(), delta: d.delta });
        i = i + 1;
    }
    proof {
        let dv = deltas_view(ds@);
        let ov = deltas_view(out@);
        assert(is_permutation(order@, dv.len() as int));
        assert forall|a: int, b: int|
            #![trigger order@[a], order@[b]]
            0 <= a < b < ov.len() && ov[a].0 == ov[b].0 implies order@[a] < order@[b] by {
            assert(ov[a].0 == names@[order@[a] as int]@);
            assert(ov[b].0 == names@[order@[b] as int]@);
            assert(crate::order::key_at(ranks@, names@, order@[a] as int) == (false, ov[a].0));
            assert(crate::order::key_at(ranks@, names@, order@[b] as int) == (false, ov[b].0));
        }
        assert forall|j: int| 0 <= j < ov.len() implies #[trigger] ov[j] == dv[order@[j] as int] by {
        }
        assert forall|a: int, b: int| 0 <= a < b < ov.len() implies !key_less(
            (false, #[trigger] ov[b].0),
            (false, #[trigger] ov[a].0),
        ) by {
            assert(ov[a].0 == names@[order@[a] as int]@);
            assert(ov[b].0 == names@[order@[b] as int]@);
            assert(crate::order::key_at(ranks@, names@, order@[a] as int) == (false, ov[a].0));
            assert(crate::order::key_at(ranks@, names@, order@[b] as int) == (false, ov[b].0));
        }
    }
    out
}

/// A copy of a list of names.
fn copy_names(v: &Vec<String>) -> (r: Vec<String>)
    ensures
        strings_model(r@) == strings_model(v@),
{
    let mut r: Vec<String> = Vec::new();
    let mut i: usize = 0;
    while i < v.len()
        invariant
            i <= v@.len(),
            r@.len() == i,
            forall|j: int| 0 <= j < i ==> #[trigger] r@[j]@ == v@[j]@,
        decreases v@.len() - i,
    {
        r.push(v[i].clone());
        i = i + 1;
    }
    proof {
        assert(strings_model(r@) =~= strings_model(v@));
    }
    r
}

/// The readings of `s` whose flag in `keep` is set, in order.
pub open spec fn select(s: Seq<CountersModel>, keep: Seq<bool>) -> Seq<CountersModel>
    decreases s.len(),
{
    if s.len() == 0 || keep.len() == 0 {
        Seq::empty()
    } else {
        let rest = select(s.drop_last(), keep.drop_last());
        if keep.last() {
            rest.push(s.last())
        } else {
            rest
        }
    }
}

proof fn lemma_select_filter(s: Seq<CountersModel>, keep: Seq<bool>, pred: spec_fn(CountersModel) -> bool)
    requires
        keep.len() == s.len(),
        forall|i: int| 0 <= i < s.len() ==> #[trigger] keep[i] == pred(s[i]),
    ensures
        select(s, keep) == s.filter(pred),
    decreases s.len(),
{
    reveal(Seq::filter);
    if s.len() > 0 {
        let (d, k) = (s.drop_last(), keep.drop_last());
        assert forall|i: int| 0 <= i < d.len() implies #[trigger] k[i] == pred(d[i]) by {
            assert(k[i] == keep[i] && d[i] == s[i]);
        }
        lemma_select_filter(d, k, pred);
        assert(keep.last() == pred(s.last()));
    }
}

/// The readings' changes come in the readings' order, under their names.
proof fn lemma_observe_names(m: Map<Seq<char>, (u64, u64)>, es: Seq<CountersModel>)
    ensures
        observe_all(m, es).1.len() == es.len(),
        forall|j: int| 0 <= j < es.len() ==> #[trigger] observe_all(m, es).1[j].0 == es[j].0,
    decreases es.len(),
{
    if es.len() > 0 {
        lemma_observe_names(m, es.drop_last());
    }
}

/// Listing by name keeps what holds of every name.
proof fn lemma_sorted_names(ds: Seq<DeltaModel>, out: Seq<DeltaModel>, p: spec_fn(Seq<char>) -> bool)
    requires
        sorted_by_name(ds, out),
        forall|j: int| 0 <= j < ds.len() ==> p(#[trigger] ds[j].0),
    ensures
        forall|i: int| 0 <= i < out.len() ==> p(#[trigger] out[i].0),
{
    let order = choose|order: Seq<usize>|
        {
            &&& is_permutation(order, ds.len() as int)
            &&& forall|i: int| 0 <= i < out.len() ==> #[trigger] out[i] == ds[order[i] as int]
            &&& forall|i: int, j: int|
                #![trigger order[i], order[j]]
                0 <= i < j < out.len() && out[i].0 == out[j].0 ==> order[i] < order[j]
        };
    assert forall|i: int| 0 <= i < out.len() implies p(#[trigger] out[i].0) by {
        assert(out[i] == ds[order[i] as int]);
        assert(order[i] < ds.len());
    }
}

/// Every change taken from readings filtered by `p` is of a name that `p`
/// admits.
proof fn lemma_observed_filtered(
    m: Map<Seq<char>, (u64, u64)>,
    es: Seq<CountersModel>,
    p: spec_fn(CountersModel) -> bool,
    q: spec_fn(Seq<char>) -> bool,
)
    requires
        forall|e: CountersModel| #[trigger] p(e) ==> q(e.0),
    ensures
        forall|j: int|
            0 <= j < observe_all(m, es.filter(p)).1.len() ==> q(
                #[trigger] observe_all(m, es.filter(p)).1[j].0,
            ),
{
    let f = es.filter(p);
    lemma_observe_names(m, f);
    broadcast use vstd::seq_lib::group_filter_ensures;
    assert forall|j: int| 0 <= j < observe_all(m, f).1.len() implies q(
        #[trigger] observe_all(m, f).1[j].0,
    ) by {
        assert(p(f[j]));
    }
}

/// Take the readings flagged in `keep`, in order: record each and give its
/// change since the device's previous reading.
fn observe_readings(table: &mut CounterTable, entries: &Vec<Counters>, keep: &Vec<bool>) -> (out: Vec<DeviceDelta>)
    requires
        keep@.len() == entries@.len(),
    ensures
        (final(table)@, deltas_view(out@)) == observe_all(
            old(table)@,
            select(counters_view(entries@), keep@),
        ),
{
    let ghost es = counters_view(entries@);
    let mut out: Vec<DeviceDelta> = Vec::new();
    let mut i: usize = 0;
    proof {
        assert(es.take(0) =~= Seq::<CountersModel>::empty());
        assert(keep@.take(0) =~= Seq::<bool>::empty());
        assert(deltas_view(out@) =~= Seq::<DeltaModel>::empty());
    }
    while i < entries.len()
        invariant
            i <= entries@.len() == keep@.len(),
            es == counters_view(entries@),
            (table@, deltas_view(out@)) == observe_all(
                old(table)@,
                select(es.take(i as int), keep@.take(i as int)),
            ),
        decreases entries@.len() - i,
    {
        proof {
            assert(es.take(i + 1).drop_last() =~= es.take(i as int));
            assert(keep@.take(i + 1).drop_last() =~= keep@.take(i as int));
            assert(es.take(i + 1).last() == es[i as int]);
            assert(keep@.take(i + 1).last() == keep@[i as int]);
        }
        if keep[i] {
            let e = &entries[i];
            let ghost m1 = table@;
            let d = table.observe(e.name.as_str(), e.first, e.second);
            let ghost before = out@;
            out.push(DeviceDelta { name: e.name.clone(), delta: d });
            proof {
                assert(deltas_view(out@) =~= deltas_view(before).push((e.name@, d)));
                assert(es[i as int] == (e.name@, e.first, e.second));
                let sel = select(es.take(i as int), keep@.take(i as int));
                assert(select(es.take(i + 1), keep@.take(i + 1)) == sel.push(es[i as int]));
                assert(sel.push(es[i as int]).drop_last() =~= sel);
                assert(sel.push(es[i as int]).last() == es[i as int]);
                assert(d == change(m1, es[i as int]));
                assert(observe_all(old(table)@, sel.push(es[i as int])) == (
                    m1.insert(e.name@, (e.first, e.second)),
                    deltas_view(before).push((e.name@, d)),
                ));
            }
        } else {
            proof {
                assert(select(es.take(i + 1), keep@.take(i + 1)) == select(
                    es.take(i as int),
                    keep@.take(i as int),
                ));
            }
        }
        i = i + 1;
    }
    proof {
        assert(es.take(entries@.len() as int) =~= es);
        assert(keep@.take(entries@.len() as int) =~= keep@);
    }
    out
}

/// What one tick reads from the system.
pub struct Readings {
    /// The text of `/proc/stat`.
    pub stat: String,
    /// The text of `/proc/meminfo`.
    pub meminfo: String,
    /// The text of `/proc/diskstats`.
    pub diskstats: String,
    /// The entries of `/sys/block`.
    pub block_devices: Vec<String>,
    /// The counters of each ZFS pool to show, named by pool.
    pub zfs_pools: Vec<Counters>,
    /// The text of `/proc/net/dev`.
    pub net_dev: String,
}

/// What one tick reads from a kernel that reports per-core times, page
/// counts, and byte totals of disk media and interfaces.
pub struct CounterReadings {
    pub cores: Vec<CpuTimes>,
    pub vm: VmCounters,
    /// Each disk medium once: name, bytes read, bytes written.
    pub disks: Vec<Counters>,
    /// Each interface once: name, bytes received, bytes sent.
    pub ifaces: Vec<Counters>,
}

/// The counter changes of one tick.
pub struct Snapshot {
    pub cpu: CpuTicks,
    pub memory: MemoryFigures,
    /// Block devices (sectors) and ZFS pools (`zfs:` and the pool, bytes), by name.
    pub disk: Vec<DeviceDelta>,
    /// Interfaces (bytes received, sent), by name.
    pub net: Vec<DeviceDelta>,
}

/// Owns every collector's state between ticks.
pub struct Monitor {
    history: usize,
    disk_allow: Vec<String>,
    zfs_allow: Vec<String>,
    net_allow: Vec<String>,
    cpu: CpuCollector,
    disk_prev: CounterTable,
    zfs_prev: CounterTable,
    net_prev: CounterTable,
}

pub open spec fn zfs_label(pool: Seq<char>) -> Seq<char> {
    "zfs:"@ + pool
}

pub open spec fn label_pools(ds: Seq<DeltaModel>) -> Seq<DeltaModel> {
    ds.map_values(|d: DeltaModel| (zfs_label(d.0), d.1))
}

/// A reported disk is a block device, on the device list where that is set,
/// or a pool (`zfs:` and the pool's name), on the pool list where that is set.
pub open spec fn disk_from(disks: Seq<Seq<char>>, pools: Seq<Seq<char>>, n: Seq<char>) -> bool {
    ||| (disks.len() > 0 ==> disks.contains(n))
    ||| exists|p: Seq<char>| n == #[trigger] zfs_label(p) && (pools.len() > 0 ==> pools.contains(p))
}

/// Every reported interface is on the interface list where that is set, and
/// every reported disk is as `disk_from` says.
pub open spec fn reported_from(
    disks: Seq<Seq<char>>,
    pools: Seq<Seq<char>>,
    ifaces: Seq<Seq<char>>,
    s: Snapshot,
) -> bool {
    &&& forall|i: int|
        0 <= i < s.net@.len() && ifaces.len() > 0 ==> ifaces.contains(#[trigger] s.net@[i].name@)
    &&& forall|i: int| 0 <= i < s.disk@.len() ==> disk_from(disks, pools, #[trigger] s.disk@[i].name@)
}

/// The monitor keeps the history length and the allow-lists of `config`.
pub open spec fn configured(config: Config, m: Monitor) -> bool {
    &&& m.history_len() == config.settings.history
    &&& m.disk_allow() == strings_model(config.widgets.disk.devices@)
    &&& m.zfs_allow() == strings_model(config.widgets.disk.zfs_pools@)
    &&& m.net_allow() == strings_model(config.widgets.network.interfaces@)
}

/// A monitor made for a configuration stays so through every update that
/// keeps its history length and allow-lists, and every snapshot such an
/// update reports names only interfaces and disks that the configuration's
/// lists admit. `Monitor::new` makes a configured monitor, and `update` and
/// `update_from_counters` are such updates; so every snapshot of a monitor,
/// from its first update on, draws its names from the configuration.
pub proof fn lemma_snapshots_follow_configuration(
    config: Config,
    before: Monitor,
    after: Monitor,
    s: Snapshot,
)
    requires
        configured(config, before),
        after.history_len() == before.history_len(),
        after.disk_allow() == before.disk_allow(),
        after.zfs_allow() == before.zfs_allow(),
        after.net_allow() == before.net_allow(),
        reported_from(before.disk_allow(), before.zfs_allow(), before.net_allow(), s),
    ensures
        configured(config, after),
        reported_from(
            strings_model(config.widgets.disk.devices@),
            strings_model(config.widgets.disk.zfs_pools@),
            strings_model(config.widgets.network.interfaces@),
            s,
        ),
{
}

impl Monitor {
    /// History length (samples) retained for graphs.
    pub closed spec fn history_len(&self) -> usize {
        self.history
    }

    /// History length (samples) retained for graphs.
    pub fn history(&self) -> (h: usize)
        ensures
            h == self.history_len(),
    {
        self.history
    }

    /// The configured block devices (empty: automatic).
    pub closed spec fn disk_allow(&self) -> Seq<Seq<char>> {
        strings_model(self.disk_allow@)
    }

    /// The configured ZFS pools (empty: every imported pool).
    pub closed spec fn zfs_allow(&self) -> Seq<Seq<char>> {
        strings_model(self.zfs_allow@)
    }

    /// The configured interfaces (empty: every one but loopback).
    pub closed spec fn net_allow(&self) -> Seq<Seq<char>> {
        strings_model(self.net_allow@)
    }

    pub closed spec fn cpu_state(&self) -> CpuCollector {
        self.cpu
    }

    /// The previous reading of each block device.
    pub closed spec fn disk_previous(&self) -> Map<Seq<char>, (u64, u64)> {
        self.disk_prev@
    }

    /// The previous reading of each ZFS pool.
    pub closed spec fn zfs_previous(&self) -> Map<Seq<char>, (u64, u64)> {
        self.zfs_prev@
    }

    /// The previous reading of each interface.
    pub closed spec fn net_previous(&self) -> Map<Seq<char>, (u64, u64)> {
        self.net_prev@
    }

    /// A monitor for a configuration, with no previous readings.
    pub fn new(config: &Config) -> (m: Monitor)
        ensures
            configured(*config, m),
            m.history_len() == config.settings.history,
            m.disk_allow() == strings_model(config.widgets.disk.devices@),
            m.zfs_allow() == strings_model(config.widgets.disk.zfs_pools@),
            m.net_allow() == strings_model(config.widgets.network.interfaces@),
            m.cpu_state().previous_aggregate() is None,
            m.cpu_state().previous_cores() == Seq::<crate::collectors::cpu::CpuTimes>::empty(),
            m.disk_previous() == Map::<Seq<char>, (u64, u64)>::empty(),
            m.zfs_previous() == Map::<Seq<char>, (u64, u64)>::empty(),
            m.net_previous() == Map::<Seq<char>, (u64, u64)>::empty(),
    {
        Monitor {
            history: config.settings.history,
            disk_allow: copy_names(&config.widgets.disk.devices),
            zfs_allow: copy_names(&config.widgets.disk.zfs_pools),
            net_allow: copy_names(&config.widgets.network.interfaces),
            cpu: CpuCollector::new(),
            disk_prev: CounterTable::new(),
            zfs_prev: CounterTable::new(),
            net_prev: CounterTable::new(),
        }
    }

    /// The configured ZFS pools, for choosing which pools to read.
    pub fn zfs_pools(&self) -> (r: &Vec<String>)
        ensures
            strings_model(r@) == self.zfs_allow(),
    {
        &self.zfs_allow
    }

    /// Take one tick's readings: the CPU and memory figures, and the change
    /// of every shown device since its previous reading, devices by name.
    /// `None`, with nothing changed, where a CPU line's or a memory value's
    /// sum does not fit in a `u64`.
    pub fn update(&mut self, r: &Readings) -> (s: Option<Snapshot>)
        ensures
            match s {
                None => {
                    &&& !crate::collectors::cpu::cpu_lines_fit(r.stat@)
                        || !crate::collectors::memory::meminfo_fits(r.meminfo@)
                    &&& *final(self) == *old(self)
                },
                Some(s) => {
                    let disk_in = crate::scan::filter_map(
                        crate::scan::lines(r.diskstats@),
                        |l: Seq<char>| crate::collectors::disk::diskstats_entry(l),
                    ).filter(
                        |e: CountersModel|
                            disk_included(old(self).disk_allow(), strings_model(r.block_devices@), e.0),
                    );
                    let net_in = crate::scan::filter_map(
                        crate::scan::lines(r.net_dev@),
                        |l: Seq<char>| crate::collectors::net::net_dev_entry(l),
                    ).filter(|e: CountersModel| net_included(old(self).net_allow(), e.0));
                    let disk_obs = observe_all(old(self).disk_previous(), disk_in);
                    let zfs_obs = observe_all(
                        old(self).zfs_previous(),
                        counters_view(r.zfs_pools@).filter(
                            |e: CountersModel| pool_included(old(self).zfs_allow(), e.0),
                        ),
                    );
                    let net_obs = observe_all(old(self).net_previous(), net_in);
                    let cpu_lines = crate::collectors::cpu::cpu_lines(r.stat@);
                    let aggregate = crate::collectors::cpu::stat_aggregate(cpu_lines);
                    let cores = crate::collectors::cpu::core_times(cpu_lines);
                    let prev_cores = old(self).cpu_state().previous_cores();
                    &&& crate::collectors::cpu::cpu_lines_fit(r.stat@)
                    &&& crate::collectors::memory::meminfo_fits(r.meminfo@)
                    &&& s.cpu.aggregate == match old(self).cpu_state().previous_aggregate() {
                        Some(p) => Some(delta_of(p, aggregate)),
                        None => None::<crate::collectors::cpu::TickDelta>,
                    }
                    &&& s.cpu.cores@.len() == cores.len()
                    &&& forall|i: int|
                        0 <= i < cores.len() ==> #[trigger] s.cpu.cores@[i] == if i < prev_cores.len() {
                            Some(delta_of(prev_cores[i], cores[i]))
                        } else {
                            None
                        }
                    &&& final(self).cpu_state().previous_aggregate() == Some(aggregate)
                    &&& final(self).cpu_state().previous_cores() == cores
                    &&& s.memory == crate::collectors::memory::figures_of(r.meminfo@)
                    &&& sorted_by_name(disk_obs.1 + label_pools(zfs_obs.1), deltas_view(s.disk@))
                    &&& sorted_by_name(net_obs.1, deltas_view(s.net@))
                    &&& reported_from(old(self).disk_allow(), old(self).zfs_allow(), old(self).net_allow(), s)
                    &&& final(self).disk_previous() == disk_obs.0
                    &&& final(self).zfs_previous() == zfs_obs.0
                    &&& final(self).net_previous() == net_obs.0
                    &&& final(self).history_len() == old(self).history_len()
                    &&& final(self).disk_allow() == old(self).disk_allow()
                    &&& final(self).zfs_allow() == old(self).zfs_allow()
                    &&& final(self).net_allow() == old(self).net_allow()
                },
            },
    {
        let ghost disk_start = self.disk_prev@;
        let ghost zfs_start = self.zfs_prev@;
        let ghost net_start = self.net_prev@;
        let stat = match parse_stat(r.stat.as_str()) {
            Some(st) => st,
            None => {
                return None;
            },
        };
        let memory = match parse_meminfo(r.meminfo.as_str()) {
            Some(m) => m,
            None => {
                return None;
            },
        };
        let cpu = self.cpu.update(stat);
        let ghost disk_allow = strings_model(self.disk_allow@);
        let ghost net_allow = strings_model(self.net_allow@);
        let ghost blocks = strings_model(r.block_devices@);
        let disks = parse_diskstats(r.diskstats.as_str());
        let mut keep: Vec<bool> = Vec::new();
        let mut k: usize = 0;
        while k < disks.len()
            invariant
                k <= disks@.len(),
                disk_allow == strings_model(self.disk_allow@),
                blocks == strings_model(r.block_devices@),
                keep@.len() == k,
                forall|j: int|
                    0 <= j < k ==> #[trigger] keep@[j] == disk_included(
                        disk_allow,
                        blocks,
                        counters_view(disks@)[j].0,
                    ),
            decreases disks@.len() - k,
        {
            keep.push(disk_is_included(&self.disk_allow, &r.block_devices, disks[k].name.as_str()));
            k = k + 1;
        }
        proof {
            lemma_select_filter(
                counters_view(disks@),
                keep@,
                |e: CountersModel| disk_included(disk_allow, blocks, e.0),
            );
        }
        let mut disk = observe_readings(&mut self.disk_prev, &disks, &keep);
        let ghost zfs_allow = strings_model(self.zfs_allow@);
        let mut all: Vec<bool> = Vec::new();
        let mut k: usize = 0;
        while k < r.zfs_pools.len()
            invariant
                k <= r.zfs_pools@.len(),
                zfs_allow == strings_model(self.zfs_allow@),
                all@.len() == k,
                forall|j: int|
                    0 <= j < k ==> #[trigger] all@[j] == pool_included(
                        zfs_allow,
                        counters_view(r.zfs_pools@)[j].0,
                    ),
            decreases r.zfs_pools@.len() - k,
        {
            all.push(pool_is_included(&self.zfs_allow, r.zfs_pools[k].name.as_str()));
            k = k + 1;
        }
        proof {
            lemma_select_filter(
                counters_view(r.zfs_pools@),
                all@,
                |e: CountersModel| pool_included(zfs_allow, e.0),
            );
        }
        let zfs = observe_readings(&mut self.zfs_prev, &r.zfs_pools, &all);
        let mut i: usize = 0;
        let ghost disk_before = deltas_view(disk@);
        while i < zfs.len()
            invariant
                i <= zfs@.len(),
                deltas_view(disk@) == disk_before + label_pools(deltas_view(zfs@).take(i as int)),
            decreases zfs@.len() - i,
        {
            let mut name = "zfs:".to_owned();
            name.append(zfs[i].name.as_str());
            let ghost before = disk@;
            disk.push(DeviceDelta { name, delta: zfs[i].delta });
            proof {
                assert(deltas_view(zfs@).take(i + 1) =~= deltas_view(zfs@).take(i as int).push(
                    deltas_view(zfs@)[i as int],
                ));
                assert(deltas_view(disk@) =~= deltas_view(before).push(
                    (zfs_label(zfs@[i as int].name@), zfs@[i as int].delta),
                ));
                assert(label_pools(deltas_view(zfs@).take(i + 1)) =~= label_pools(
                    deltas_view(zfs@).take(i as int),
                ).push((zfs_label(zfs@[i as int].name@), zfs@[i as int].delta)));
                assert(deltas_view(disk@) =~= disk_before + label_pools(
                    deltas_view(zfs@).take(i + 1),
                ));
            }
            i = i + 1;
        }
        proof {
            assert(deltas_view(zfs@).take(zfs@.len() as int) =~= deltas_view(zfs@));
        }
        let nets = parse_net_dev(r.net_dev.as_str());
        let mut keep: Vec<bool> = Vec::new();
        let mut k: usize = 0;
        while k < nets.len()
            invariant
                k <= nets@.len(),
                net_allow == strings_model(self.net_allow@),
                keep@.len() == k,
                forall|j: int|
                    0 <= j < k ==> #[trigger] keep@[j] == net_included(
                        net_allow,
                        counters_view(nets@)[j].0,
                    ),
            decreases nets@.len() - k,
        {
            keep.push(net_is_included(&self.net_allow, nets[k].name.as_str()));
            k = k + 1;
        }
        proof {
            lemma_select_filter(
                counters_view(nets@),
                keep@,
                |e: CountersModel| net_included(net_allow, e.0),
            );
        }
        let net = observe_readings(&mut self.net_prev, &nets, &keep);
        let disk = sort_by_name(disk);
        let net = sort_by_name(net);
        let s = Snapshot { cpu, memory, disk, net };
        proof {
            let pn = |e: CountersModel| net_included(net_allow, e.0);
            let qn = |n: Seq<char>| net_allow.len() > 0 ==> net_allow.contains(n);
            let net_obs = observe_all(net_start, counters_view(nets@).filter(pn));
            lemma_observed_filtered(net_start, counters_view(nets@), pn, qn);
            lemma_sorted_names(net_obs.1, deltas_view(s.net@), qn);
            assert forall|i: int| 0 <= i < s.net@.len() && net_allow.len() > 0 implies net_allow.contains(
                #[trigger] s.net@[i].name@,
            ) by {
                assert(qn(deltas_view(s.net@)[i].0));
            }
            let zfs_allow = strings_model(self.zfs_allow@);
            let pd = |e: CountersModel| disk_included(disk_allow, blocks, e.0);
            let qd = |n: Seq<char>| disk_allow.len() > 0 ==> disk_allow.contains(n);
            let pz = |e: CountersModel| pool_included(zfs_allow, e.0);
            let qz = |n: Seq<char>| zfs_allow.len() > 0 ==> zfs_allow.contains(n);
            let q = |n: Seq<char>| disk_from(disk_allow, zfs_allow, n);
            let d1 = observe_all(disk_start, counters_view(disks@).filter(pd)).1;
            let z1 = observe_all(zfs_start, counters_view(r.zfs_pools@).filter(pz)).1;
            lemma_observed_filtered(disk_start, counters_view(disks@), pd, qd);
            lemma_observed_filtered(zfs_start, counters_view(r.zfs_pools@), pz, qz);
            let ds = d1 + label_pools(z1);
            assert forall|j: int| 0 <= j < ds.len() implies q(#[trigger] ds[j].0) by {
                if j < d1.len() {
                    assert(ds[j] == d1[j]);
                    assert(qd(d1[j].0));
                } else {
                    let k = j - d1.len();
                    assert(ds[j] == label_pools(z1)[k]);
                    let p = z1[k].0;
                    assert(qz(p));
                    assert(ds[j].0 == zfs_label(p) && (zfs_allow.len() > 0 ==> zfs_allow.contains(p)));
                    assert(disk_from(disk_allow, zfs_allow, ds[j].0));
                }
            }
            lemma_sorted_names(ds, deltas_view(s.disk@), q);
            assert forall|i: int| 0 <= i < s.disk@.len() implies disk_from(
                disk_allow,
                zfs_allow,
                #[trigger] s.disk@[i].name@,
            ) by {
                assert(q(deltas_view(s.disk@)[i].0));
            }
        }
        Some(s)
    }
}

impl Monitor {
    /// Take one tick's readings from per-core and per-device counters: the
    /// machine's times are the sums over its cores, and disks and interfaces
    /// are filtered, compared with their previous readings and listed by
    /// name as `update` does. `None`, with nothing changed, where a sum does
    /// not fit in a `u64`.
    pub fn update_from_counters(&mut self, r: &CounterReadings) -> (s: Option<Snapshot>)
        ensures
            match s {
                None => {
                    &&& idle_sum_of(r.cores@) > u64::MAX || total_sum_of(r.cores@) > u64::MAX
                        || !vm_pages_fit(r.vm)
                    &&& *final(self) == *old(self)
                },
                Some(s) => {
                    let aggregate = CpuTimes {
                        idle: idle_sum_of(r.cores@) as u64,
                        total: total_sum_of(r.cores@) as u64,
                    };
                    let prev_cores = old(self).cpu_state().previous_cores();
                    let disk_in = counters_view(r.disks@).filter(
                        |e: CountersModel| media_included(old(self).disk_allow(), e.0, e.2),
                    );
                    let net_in = counters_view(r.ifaces@).filter(
                        |e: CountersModel| iface_included(old(self).net_allow(), e.0),
                    );
                    let disk_obs = observe_all(old(self).disk_previous(), disk_in);
                    let net_obs = observe_all(old(self).net_previous(), net_in);
                    &&& idle_sum_of(r.cores@) <= u64::MAX
                    &&& total_sum_of(r.cores@) <= u64::MAX
                    &&& vm_pages_fit(r.vm)
                    &&& s.memory == vm_figures(r.vm)
                    &&& s.cpu.aggregate == match old(self).cpu_state().previous_aggregate() {
                        Some(p) => Some(delta_of(p, aggregate)),
                        None => None::<crate::collectors::cpu::TickDelta>,
                    }
                    &&& s.cpu.cores@.len() == r.cores@.len()
                    &&& forall|i: int|
                        0 <= i < r.cores@.len() ==> #[trigger] s.cpu.cores@[i] == if i < prev_cores.len() {
                            Some(delta_of(prev_cores[i], r.cores@[i]))
                        } else {
                            None
                        }
                    &&& final(self).cpu_state().previous_aggregate() == Some(aggregate)
                    &&& final(self).cpu_state().previous_cores() == r.cores@
                    &&& sorted_by_name(disk_obs.1, deltas_view(s.disk@))
                    &&& sorted_by_name(net_obs.1, deltas_view(s.net@))
                    &&& reported_from(old(self).disk_allow(), old(self).zfs_allow(), old(self).net_allow(), s)
                    &&& final(self).disk_previous() == disk_obs.0
                    &&& final(self).zfs_previous() == old(self).zfs_previous()
                    &&& final(self).net_previous() == net_obs.0
                    &&& final(self).history_len() == old(self).history_len()
                    &&& final(self).disk_allow() == old(self).disk_allow()
                    &&& final(self).zfs_allow() == old(self).zfs_allow()
                    &&& final(self).net_allow() == old(self).net_allow()
                },
            },
    {
        if idle_or_total_overflows(&r.cores) {
            return None;
        }
        let memory = match vm_memory_figures(r.vm) {
            Some(m) => m,
            None => {
                return None;
            },
        };
        let ghost disk_start = self.disk_prev@;
        let ghost net_start = self.net_prev@;
        let aggregate = aggregate_times(&r.cores);
        let cores = copy_times(&r.cores);
        let cpu = self.cpu.update(CpuStat { aggregate, cores });
        let ghost disk_allow = strings_model(self.disk_allow@);
        let ghost net_allow = strings_model(self.net_allow@);
        let mut keep: Vec<bool> = Vec::new();
        let mut k: usize = 0;
        while k < r.disks.len()
            invariant
                k <= r.disks@.len(),
                disk_allow == strings_model(self.disk_allow@),
                keep@.len() == k,
                forall|j: int|
                    0 <= j < k ==> #[trigger] keep@[j] == media_included(
                        disk_allow,
                        counters_view(r.disks@)[j].0,
                        counters_view(r.disks@)[j].2,
                    ),
            decreases r.disks@.len() - k,
        {
            keep.push(media_is_included(&self.disk_allow, r.disks[k].name.as_str(), r.disks[k].second));
            k = k + 1;
        }
        proof {
            lemma_select_filter(
                counters_view(r.disks@),
                keep@,
                |e: CountersModel| media_included(disk_allow, e.0, e.2),
            );
        }
        let disk = observe_readings(&mut self.disk_prev, &r.disks, &keep);
        let mut keep: Vec<bool> = Vec::new();
        let mut k: usize = 0;
        while k < r.ifaces.len()
            invariant
                k <= r.ifaces@.len(),
                net_allow == strings_model(self.net_allow@),
                keep@.len() == k,
                forall|j: int|
                    0 <= j < k ==> #[trigger] keep@[j] == iface_included(
                        net_allow,
                        counters_view(r.ifaces@)[j].0,
                    ),
            decreases r.ifaces@.len() - k,
        {
            keep.push(iface_is_included(&self.net_allow, r.ifaces[k].name.as_str()));
            k = k + 1;
        }
        proof {
            lemma_select_filter(
                counters_view(r.ifaces@),
                keep@,
                |e: CountersModel| iface_included(net_allow, e.0),
            );
        }
        let net = observe_readings(&mut self.net_prev, &r.ifaces, &keep);
        let disk = sort_by_name(disk);
        let net = sort_by_name(net);
        let s = Snapshot { cpu, memory, disk, net };
        proof {
            let pn = |e: CountersModel| iface_included(net_allow, e.0);
            let qn = |n: Seq<char>| net_allow.len() > 0 ==> net_allow.contains(n);
            let net_obs = observe_all(net_start, counters_view(r.ifaces@).filter(pn));
            lemma_observed_filtered(net_start, counters_view(r.ifaces@), pn, qn);
            lemma_sorted_names(net_obs.1, deltas_view(s.net@), qn);
            assert forall|i: int| 0 <= i < s.net@.len() && net_allow.len() > 0 implies net_allow.contains(
                #[trigger] s.net@[i].name@,
            ) by {
                assert(qn(deltas_view(s.net@)[i].0));
            }
            let pd = |e: CountersModel| media_included(disk_allow, e.0, e.2);
            let qd = |n: Seq<char>| disk_allow.len() > 0 ==> disk_allow.contains(n);
            let disk_obs = observe_all(disk_start, counters_view(r.disks@).filter(pd));
            lemma_observed_filtered(disk_start, counters_view(r.disks@), pd, qd);
            lemma_sorted_names(disk_obs.1, deltas_view(s.disk@), qd);
            assert forall|i: int| 0 <= i < s.disk@.len() implies disk_from(
                disk_allow,
                strings_model(self.zfs_allow@),
                #[trigger] s.disk@[i].name@,
            ) by {
                assert(qd(deltas_view(s.disk@)[i].0));
            }
        }
        Some(s)
    }
}

/// Whether the idle or total times of `cores` sum past `u64::MAX`.
fn idle_or_total_overflows(cores: &Vec<CpuTimes>) -> (r: bool)
    ensures
        r == (idle_sum_of(cores@) > u64::MAX || total_sum_of(cores@) > u64::MAX),
{
    let mut idle: u64 = 0;
    let mut total: u64 = 0;
    let mut i: usize = 0;
    proof {
        assert(cores@.take(0) =~= Seq::<CpuTimes>::empty());
    }
    while i < cores.len()
        invariant
            i <= cores@.len(),
            idle == idle_sum_of(cores@.take(i as int)),
            total == total_sum_of(cores@.take(i as int)),
        decreases cores@.len() - i,
    {
        proof {
            assert(cores@.take(i + 1).drop_last() =~= cores@.take(i as int));
        }
        match (idle.checked_add(cores[i].idle), total.checked_add(cores[i].total)) {
            (Some(a), Some(b)) => {
                idle = a;
                total = b;
            },
            _ => {
                proof {
                    crate::collectors::cpu::lemma_sums_grow(cores@, i + 1, cores@.len() as int);
                    assert(cores@.take(cores@.len() as int) =~= cores@);
                }
                return true;
            },
        }
        i = i + 1;
    }
    proof {
        assert(cores@.take(cores@.len() as int) =~= cores@);
    }
    false
}

/// A copy of a list of CPU times.
fn copy_times(v: &Vec<CpuTimes>) -> (r: Vec<CpuTimes>)
    ensures
        r@ == v@,
{
    let mut r: Vec<CpuTimes> = Vec::new();
    let mut i: usize = 0;
    while i < v.len()
        invariant
            i <= v@.len(),
            r@ == v@.take(i as int),
        decreases v@.len() - i,
    {
        r.push(v[i]);
        proof {
            assert(v@.take(i + 1) =~= v@.take(i as int).push(v@[i as int]));
        }
        i = i + 1;
    }
    proof {
        assert(v@.take(v@.len() as int) =~= v@);
    }
    r
}

} // verus!
