use crate::config::value::{
    entries_view, key_index, lemma_entries_view, lemma_key_index_absent, lemma_key_index_found,
    lemma_key_index_some, lookup, toml_view, Entry, Toml, TomlValue, first_key_at,
};
use crate::config::{
    Child, SizeSpec, Split, children_model, size_model, split_model,
    ChildModel, ConfigModel, Direction, GpuMode, GraphStyle, SettingsModel, SizeModel,
    SplitModel, WidgetKind, WidgetsModel,
};
use crate::order::{seq_less, str_less};
use crate::text::str_eq;
use vstd::prelude::*;

verus! {

/// What is wrong with a configuration value.
#[derive(Debug, Clone, Copy, PartialEq, Eq, Structural)]
pub enum DecodeErrorKind {
    /// A table holds a key the configuration does not know.
    UnknownField,
    /// A required key is missing.
    MissingField,
    /// A value has the wrong type, is out of range, or names no known variant.
    InvalidValue,
}

/// A configuration value that does not decode, and the key concerned.
#[derive(Debug, Clone)]
pub struct DecodeError {
    pub kind: DecodeErrorKind,
    pub key: String,
}

/// The model of a decoding failure.
pub type Failure = (DecodeErrorKind, Seq<char>);

impl View for DecodeError {
    type V = Failure;

    open spec fn view(&self) -> Failure {
        (self.kind, self.key@)
    }
}

/// The tables of the configuration, each with its own keys.
#[derive(Debug, Clone, Copy, PartialEq, Eq, Structural)]
pub enum TableKind {
    Config,
    Settings,
    Split,
    Child,
    Widgets,
    Cpu,
    Memory,
    Gpu,
    Disk,
    Network,
}

/// The keys a table of the given kind accepts.
pub open spec fn known_key(kind: TableKind, k: Seq<char>) -> bool {
    match kind {
        TableKind::Config => config_key(k),
        TableKind::Settings => settings_key(k),
        TableKind::Split => split_key(k),
        TableKind::Child => child_key(k),
        TableKind::Widgets => widgets_key(k),
        TableKind::Cpu => cpu_key(k),
        TableKind::Memory => memory_key(k),
        TableKind::Gpu => gpu_key(k),
        TableKind::Disk => disk_key(k),
        TableKind::Network => network_key(k),
    }
}

/// A failure found at an entry of a table, with the entry's key.
pub type Found = Option<(Seq<char>, Failure)>;

/// Of two findings, the one whose key comes first (tables are read in key
/// order).
pub open spec fn earlier(a: Found, b: Found) -> Found {
    match (a, b) {
        (Some(x), Some(y)) => if seq_less(y.0, x.0) {
            b
        } else {
            a
        },
        (None, _) => b,
        _ => a,
    }
}

/// The first key of `es`, in key order, that a table of this kind does not
/// accept.
pub open spec fn least_unknown(es: Seq<Entry>, kind: TableKind) -> Found
    decreases es.len(),
{
    if es.len() == 0 {
        None
    } else {
        let k = es.last().0;
        earlier(
            least_unknown(es.drop_last(), kind),
            if known_key(kind, k) {
                None
            } else {
                Some((k, (DecodeErrorKind::UnknownField, k)))
            },
        )
    }
}

/// A field's failure, found at its entry where the field is present.
pub open spec fn at_entry(es: Seq<Entry>, name: Seq<char>, f: Option<Failure>) -> Found {
    match (lookup(es, name), f) {
        (Some(_), Some(x)) => Some((name, x)),
        _ => None,
    }
}

pub open spec fn fail_of<A>(r: Result<A, Failure>) -> Option<Failure> {
    match r {
        Ok(_) => None,
        Err(e) => Some(e),
    }
}

/// The first of `acc` and the failures of the present fields `fs`, in key order.
pub open spec fn fields_found(es: Seq<Entry>, fs: Seq<(Seq<char>, Option<Failure>)>, acc: Found) -> Found
    decreases fs.len(),
{
    if fs.len() == 0 {
        acc
    } else {
        earlier(fields_found(es, fs.drop_last(), acc), at_entry(es, fs.last().0, fs.last().1))
    }
}

/// What a table is refused for while its entries are read in key order: the
/// first entry whose key is unknown, or whose field refuses its value (`fs`
/// holds each field's name and failure).
pub open spec fn entry_failure(
    es: Seq<Entry>,
    kind: TableKind,
    fs: Seq<(Seq<char>, Option<Failure>)>,
) -> Option<Failure> {
    match fields_found(es, fs, least_unknown(es, kind)) {
        Some(x) => Some(x.1),
        None => None,
    }
}

/// A field of a table: decoded with `dec` when present, `default` when absent
/// (a missing field when there is no default).
pub open spec fn field<A>(
    es: Seq<Entry>,
    name: Seq<char>,
    dec: spec_fn(Toml) -> Option<A>,
    default: Option<A>,
) -> Result<A, Failure> {
    match lookup(es, name) {
        Some(v) => match dec(v) {
            Some(a) => Ok(a),
            None => Err((DecodeErrorKind::InvalidValue, name)),
        },
        None => match default {
            Some(d) => Ok(d),
            None => Err((DecodeErrorKind::MissingField, name)),
        },
    }
}

pub open spec fn toml_u64(v: Toml) -> Option<u64> {
    match v {
        Toml::Int(i) => if 0 <= i <= u64::MAX {
            Some(i as u64)
        } else {
            None
        },
        _ => None,
    }
}

pub open spec fn toml_usize(v: Toml) -> Option<usize> {
    match v {
        Toml::Int(i) => if 0 <= i <= usize::MAX {
            Some(i as usize)
        } else {
            None
        },
        _ => None,
    }
}

pub open spec fn toml_u16(v: Toml) -> Option<u16> {
    match v {
        Toml::Int(i) => if 0 <= i <= u16::MAX {
            Some(i as u16)
        } else {
            None
        },
        _ => None,
    }
}

pub open spec fn toml_u32(v: Toml) -> Option<u32> {
    match v {
        Toml::Int(i) => if 0 <= i <= u32::MAX {
            Some(i as u32)
        } else {
            None
        },
        _ => None,
    }
}

pub open spec fn toml_bool(v: Toml) -> Option<bool> {
    match v {
        Toml::Bool(b) => Some(b),
        _ => None,
    }
}

pub open spec fn toml_string(v: Toml) -> Option<Seq<char>> {
    match v {
        Toml::Str(s) => Some(s),
        _ => None,
    }
}

/// A list of strings.
pub open spec fn toml_strings(v: Toml) -> Option<Seq<Seq<char>>> {
    match v {
        Toml::Array(a) => if forall|i: int| 0 <= i < a.len() ==> a[i] is Str {
            Some(a.map_values(|t: Toml| t->Str_0))
        } else {
            None
        },
        _ => None,
    }
}

pub open spec fn toml_graph_style(v: Toml) -> Option<GraphStyle> {
    match v {
        Toml::Str(s) => if s == "braille"@ {
            Some(GraphStyle::Braille)
        } else if s == "bar"@ {
            Some(GraphStyle::Bar)
        } else {
            None
        },
        _ => None,
    }
}

/// An optional field: present means the value must decode.
pub open spec fn toml_opt_graph_style(v: Toml) -> Option<Option<GraphStyle>> {
    match toml_graph_style(v) {
        Some(g) => Some(Some(g)),
        None => None,
    }
}

pub open spec fn toml_direction(v: Toml) -> Option<Direction> {
    match v {
        Toml::Str(s) => if s == "horizontal"@ {
            Some(Direction::Horizontal)
        } else if s == "vertical"@ {
            Some(Direction::Vertical)
        } else {
            None
        },
        _ => None,
    }
}

pub open spec fn toml_gpu_mode(v: Toml) -> Option<GpuMode> {
    match v {
        Toml::Str(s) => if s == "auto"@ {
            Some(GpuMode::Auto)
        } else if s == "compact"@ {
            Some(GpuMode::Compact)
        } else if s == "per_device"@ {
            Some(GpuMode::PerDevice)
        } else {
            None
        },
        _ => None,
    }
}

pub open spec fn toml_widget(v: Toml) -> Option<WidgetKind> {
    match v {
        Toml::Str(s) => if s == "cpu"@ {
            Some(WidgetKind::Cpu)
        } else if s == "memory"@ {
            Some(WidgetKind::Memory)
        } else if s == "gpu"@ {
            Some(WidgetKind::Gpu)
        } else if s == "gpu_util"@ {
            Some(WidgetKind::GpuUtil)
        } else if s == "gpu_memory"@ || s == "gpu_mem"@ {
            Some(WidgetKind::GpuMemory)
        } else if s == "gpu_pcie"@ {
            Some(WidgetKind::GpuPcie)
        } else if s == "gpu_nvlink"@ {
            Some(WidgetKind::GpuNvlink)
        } else if s == "disk"@ {
            Some(WidgetKind::Disk)
        } else if s == "network"@ {
            Some(WidgetKind::Network)
        } else {
            None
        },
        _ => None,
    }
}

pub open spec fn toml_opt_widget(v: Toml) -> Option<Option<WidgetKind>> {
    match toml_widget(v) {
        Some(w) => Some(Some(w)),
        None => None,
    }
}

/// A pair `[a, b]` of `u32`.
pub open spec fn toml_u32_pair(v: Toml) -> Option<(u32, u32)> {
    match v {
        Toml::Array(a) => if a.len() == 2 && toml_u32(a[0]) is Some && toml_u32(a[1]) is Some {
            Some((toml_u32(a[0])->Some_0, toml_u32(a[1])->Some_0))
        } else {
            None
        },
        _ => None,
    }
}

/// A size: a keyword string, a table with a `u16` `length`, or else a table
/// with a `[u32, u32]` `ratio` (other keys of the table are ignored).
pub open spec fn toml_size(v: Toml) -> Option<SizeModel> {
    match v {
        Toml::Str(s) => Some(SizeModel::Keyword(s)),
        Toml::Table(es) => match lookup(es, "length"@) {
            Some(l) if toml_u16(l) is Some => Some(SizeModel::Length(toml_u16(l)->Some_0)),
            _ => match lookup(es, "ratio"@) {
                Some(r) if toml_u32_pair(r) is Some => Some(
                    SizeModel::Ratio(toml_u32_pair(r)->Some_0.0, toml_u32_pair(r)->Some_0.1),
                ),
                _ => None,
            },
        },
        _ => None,
    }
}

/// The size of a child that does not set one.
pub open spec fn default_size() -> SizeModel {
    SizeModel::Keyword("fill"@)
}

pub open spec fn settings_key(k: Seq<char>) -> bool {
    k == "update_ms"@ || k == "history"@ || k == "theme"@ || k == "graph_style"@
}

pub open spec fn default_settings() -> SettingsModel {
    SettingsModel {
        update_ms: 1000,
        history: 240,
        theme: "default"@,
        graph_style: GraphStyle::Braille,
    }
}

/// The `[settings]` table: every key optional, unknown keys refused.
pub open spec fn decode_settings(v: Toml) -> Result<SettingsModel, Failure> {
    match v {
        Toml::Table(es) => {
            let update_ms = field(es, "update_ms"@, |t| toml_u64(t), Some(1000u64));
            let history = field(es, "history"@, |t| toml_usize(t), Some(240usize));
            let theme = field(es, "theme"@, |t| toml_string(t), Some("default"@));
            let graph_style = field(
                es,
                "graph_style"@,
                |t| toml_graph_style(t),
                Some(GraphStyle::Braille),
            );
            match entry_failure(
                es,
                TableKind::Settings,
                seq![
                    ("update_ms"@, fail_of(update_ms)),
                    ("history"@, fail_of(history)),
                    ("theme"@, fail_of(theme)),
                    ("graph_style"@, fail_of(graph_style)),
                ],
            ) {
                Some(f) => Err(f),
                None => match (update_ms, history, theme, graph_style) {
                    (Err(e), _, _, _) => Err(e),
                    (_, Err(e), _, _) => Err(e),
                    (_, _, Err(e), _) => Err(e),
                    (_, _, _, Err(e)) => Err(e),
                    (Ok(u), Ok(h), Ok(t), Ok(g)) => Ok(
                        SettingsModel { update_ms: u, history: h, theme: t, graph_style: g },
                    ),
                },
            }
        },
        _ => Err((DecodeErrorKind::InvalidValue, "settings"@)),
    }
}

pub open spec fn split_key(k: Seq<char>) -> bool {
    k == "direction"@ || k == "children"@
}

pub open spec fn child_key(k: Seq<char>) -> bool {
    k == "size"@ || k == "widget"@ || k == "split"@
}

/// A layout split: a table with a `direction` and an array of `children`.
/// `key` names the field holding it, for the error when it is no table.
pub open spec fn decode_split(v: Toml, key: Seq<char>) -> Result<SplitModel, Failure>
    decreases v,
{
    match v {
        Toml::Table(es) => {
            let direction = field(es, "direction"@, |t| toml_direction(t), None);
            let children = match key_index(es, "children"@) {
                None => Err((DecodeErrorKind::MissingField, "children"@)),
                Some(i) => {
                    proof {
                        lemma_key_index_some(es, "children"@);
                        assert(decreases_to!(v => es));
                        assert(decreases_to!(es => es[i]));
                    }
                    match es[i].1 {
                        Toml::Array(a) => decode_children(a),
                        _ => Err((DecodeErrorKind::InvalidValue, "children"@)),
                    }
                },
            };
            match entry_failure(
                es,
                TableKind::Split,
                seq![("direction"@, fail_of(direction)), ("children"@, fail_of(children))],
            ) {
                Some(f) => Err(f),
                None => match (direction, children) {
                    (Err(e), _) => Err(e),
                    (_, Err(e)) => Err(e),
                    (Ok(d), Ok(cs)) => Ok(SplitModel { direction: d, children: cs }),
                },
            }
        },
        _ => Err((DecodeErrorKind::InvalidValue, key)),
    }
}

/// The children of a split, first error first.
pub open spec fn decode_children(a: Seq<Toml>) -> Result<Seq<ChildModel>, Failure>
    decreases a,
{
    if a.len() == 0 {
        Ok(Seq::empty())
    } else {
        proof {
            assert(decreases_to!(a => a[0]));
            assert(decreases_to!(a => a.subrange(1, a.len() as int)));
        }
        match decode_child(a[0]) {
            Err(e) => Err(e),
            Ok(c) => match decode_children(a.subrange(1, a.len() as int)) {
                Err(e) => Err(e),
                Ok(cs) => Ok(seq![c] + cs),
            },
        }
    }
}

/// A layout child: `size` (default `"fill"`), optional `widget` and `split`.
pub open spec fn decode_child(v: Toml) -> Result<ChildModel, Failure>
    decreases v,
{
    match v {
        Toml::Table(es) => {
            let size = field(es, "size"@, |t| toml_size(t), Some(default_size()));
            let widget = field(es, "widget"@, |t| toml_opt_widget(t), Some(None));
            let split = match key_index(es, "split"@) {
                None => Ok(None),
                Some(i) => {
                    proof {
                        lemma_key_index_some(es, "split"@);
                        assert(decreases_to!(v => es));
                        assert(decreases_to!(es => es[i]));
                    }
                    match decode_split(es[i].1, "split"@) {
                        Ok(n) => Ok(Some(n)),
                        Err(e) => Err(e),
                    }
                },
            };
            match entry_failure(
                es,
                TableKind::Child,
                seq![
                    ("size"@, fail_of(size)),
                    ("widget"@, fail_of(widget)),
                    ("split"@, fail_of(split)),
                ],
            ) {
                Some(f) => Err(f),
                None => match (size, widget, split) {
                    (Err(e), _, _) => Err(e),
                    (_, Err(e), _) => Err(e),
                    (_, _, Err(e)) => Err(e),
                    (Ok(size), Ok(widget), Ok(split)) => Ok(ChildModel { size, widget, split }),
                },
            }
        },
        _ => Err((DecodeErrorKind::InvalidValue, "children"@)),
    }
}


pub open spec fn cpu_key(k: Seq<char>) -> bool {
    k == "show_per_core"@ || k == "graph_style"@
}

/// `[widgets.cpu]`: `(show_per_core, graph_style)`.
pub open spec fn decode_cpu(v: Toml) -> Result<(bool, Option<GraphStyle>), Failure> {
    match v {
        Toml::Table(es) => {
            let a = field(es, "show_per_core"@, |t| toml_bool(t), Some(false));
            let b = field(es, "graph_style"@, |t| toml_opt_graph_style(t), Some(None));
            match entry_failure(
                es,
                TableKind::Cpu,
                seq![("show_per_core"@, fail_of(a)), ("graph_style"@, fail_of(b))],
            ) {
                Some(f) => Err(f),
                None => match (a, b) {
                    (Err(e), _) => Err(e),
                    (_, Err(e)) => Err(e),
                    (Ok(a), Ok(b)) => Ok((a, b)),
                },
            }
        },
        _ => Err((DecodeErrorKind::InvalidValue, "cpu"@)),
    }
}

pub open spec fn memory_key(k: Seq<char>) -> bool {
    k == "show_swap"@ || k == "show_usage_bar"@ || k == "graph_style"@
}

/// `[widgets.memory]`: `(show_swap, show_usage_bar, graph_style)`.
pub open spec fn decode_memory(v: Toml) -> Result<(bool, bool, Option<GraphStyle>), Failure> {
    match v {
        Toml::Table(es) => {
            let a = field(es, "show_swap"@, |t| toml_bool(t), Some(true));
            let b = field(es, "show_usage_bar"@, |t| toml_bool(t), Some(true));
            let c = field(es, "graph_style"@, |t| toml_opt_graph_style(t), Some(None));
            match entry_failure(
                es,
                TableKind::Memory,
                seq![("show_swap"@, fail_of(a)), ("show_usage_bar"@, fail_of(b)), ("graph_style"@, fail_of(c))],
            ) {
                Some(f) => Err(f),
                None => match (a, b, c) {
                    (Err(e), _, _) => Err(e),
                    (_, Err(e), _) => Err(e),
                    (_, _, Err(e)) => Err(e),
                    (Ok(a), Ok(b), Ok(c)) => Ok((a, b, c)),
                },
            }
        },
        _ => Err((DecodeErrorKind::InvalidValue, "memory"@)),
    }
}

pub open spec fn gpu_key(k: Seq<char>) -> bool {
    k == "show_per_process"@ || k == "mode"@ || k == "graph_style"@
}

/// `[widgets.gpu]`: `(show_per_process, mode, graph_style)`.
pub open spec fn decode_gpu(v: Toml) -> Result<(bool, GpuMode, Option<GraphStyle>), Failure> {
    match v {
        Toml::Table(es) => {
            let a = field(es, "show_per_process"@, |t| toml_bool(t), Some(false));
            let b = field(es, "mode"@, |t| toml_gpu_mode(t), Some(GpuMode::Auto));
            let c = field(es, "graph_style"@, |t| toml_opt_graph_style(t), Some(None));
            match entry_failure(
                es,
                TableKind::Gpu,
                seq![("show_per_process"@, fail_of(a)), ("mode"@, fail_of(b)), ("graph_style"@, fail_of(c))],
            ) {
                Some(f) => Err(f),
                None => match (a, b, c) {
                    (Err(e), _, _) => Err(e),
                    (_, Err(e), _) => Err(e),
                    (_, _, Err(e)) => Err(e),
                    (Ok(a), Ok(b), Ok(c)) => Ok((a, b, c)),
                },
            }
        },
        _ => Err((DecodeErrorKind::InvalidValue, "gpu"@)),
    }
}

pub open spec fn disk_key(k: Seq<char>) -> bool {
    k == "devices"@ || k == "zfs_pools"@ || k == "graph_style"@
}

/// `[widgets.disk]`: `(devices, zfs_pools, graph_style)`.
pub open spec fn decode_disk(v: Toml) -> Result<
    (Seq<Seq<char>>, Seq<Seq<char>>, Option<GraphStyle>),
    Failure,
> {
    match v {
        Toml::Table(es) => {
            let a = field(es, "devices"@, |t| toml_strings(t), Some(Seq::empty()));
            let b = field(es, "zfs_pools"@, |t| toml_strings(t), Some(Seq::empty()));
            let c = field(es, "graph_style"@, |t| toml_opt_graph_style(t), Some(None));
            match entry_failure(
                es,
                TableKind::Disk,
                seq![("devices"@, fail_of(a)), ("zfs_pools"@, fail_of(b)), ("graph_style"@, fail_of(c))],
            ) {
                Some(f) => Err(f),
                None => match (a, b, c) {
                    (Err(e), _, _) => Err(e),
                    (_, Err(e), _) => Err(e),
                    (_, _, Err(e)) => Err(e),
                    (Ok(a), Ok(b), Ok(c)) => Ok((a, b, c)),
                },
            }
        },
        _ => Err((DecodeErrorKind::InvalidValue, "disk"@)),
    }
}

pub open spec fn network_key(k: Seq<char>) -> bool {
    k == "interfaces"@ || k == "graph_style"@
}

/// `[widgets.network]`: `(interfaces, graph_style)`.
pub open spec fn decode_network(v: Toml) -> Result<(Seq<Seq<char>>, Option<GraphStyle>), Failure> {
    match v {
        Toml::Table(es) => {
            let a = field(es, "interfaces"@, |t| toml_strings(t), Some(Seq::empty()));
            let b = field(es, "graph_style"@, |t| toml_opt_graph_style(t), Some(None));
            match entry_failure(
                es,
                TableKind::Network,
                seq![("interfaces"@, fail_of(a)), ("graph_style"@, fail_of(b))],
            ) {
                Some(f) => Err(f),
                None => match (a, b) {
                    (Err(e), _) => Err(e),
                    (_, Err(e)) => Err(e),
                    (Ok(a), Ok(b)) => Ok((a, b)),
                },
            }
        },
        _ => Err((DecodeErrorKind::InvalidValue, "network"@)),
    }
}

/// A sub-table of a table: decoded when present, `default` when absent.
pub open spec fn sub_table<A>(
    es: Seq<Entry>,
    name: Seq<char>,
    dec: spec_fn(Toml) -> Result<A, Failure>,
    default: A,
) -> Result<A, Failure> {
    match lookup(es, name) {
        Some(v) => dec(v),
        None => Ok(default),
    }
}

pub open spec fn widgets_key(k: Seq<char>) -> bool {
    k == "cpu"@ || k == "memory"@ || k == "gpu"@ || k == "disk"@ || k == "network"@
}

/// `[widgets]`: every sub-table optional, unknown keys refused.
pub open spec fn decode_widgets(v: Toml) -> Result<WidgetsModel, Failure> {
    match v {
        Toml::Table(es) => {
            {
                let cpu = sub_table(es, "cpu"@, |t| decode_cpu(t), (false, None));
                let mem = sub_table(es, "memory"@, |t| decode_memory(t), (true, true, None));
                let gpu = sub_table(es, "gpu"@, |t| decode_gpu(t), (false, GpuMode::Auto, None));
                let disk = sub_table(
                    es,
                    "disk"@,
                    |t| decode_disk(t),
                    (Seq::empty(), Seq::empty(), None),
                );
                let net = sub_table(es, "network"@, |t| decode_network(t), (Seq::empty(), None));
                match entry_failure(
                    es,
                    TableKind::Widgets,
                    seq![
                        ("cpu"@, fail_of(cpu)),
                        ("memory"@, fail_of(mem)),
                        ("gpu"@, fail_of(gpu)),
                        ("disk"@, fail_of(disk)),
                        ("network"@, fail_of(net)),
                    ],
                ) {
                Some(f) => Err(f),
                None => match (cpu, mem, gpu, disk, net) {
                    (Err(e), _, _, _, _) => Err(e),
                    (_, Err(e), _, _, _) => Err(e),
                    (_, _, Err(e), _, _) => Err(e),
                    (_, _, _, Err(e), _) => Err(e),
                    (_, _, _, _, Err(e)) => Err(e),
                    (Ok(c), Ok(m), Ok(g), Ok(d), Ok(n)) => Ok(
                        WidgetsModel {
                            cpu_show_per_core: c.0,
                            cpu_graph_style: c.1,
                            memory_show_swap: m.0,
                            memory_show_usage_bar: m.1,
                            memory_graph_style: m.2,
                            gpu_show_per_process: g.0,
                            gpu_mode: g.1,
                            gpu_graph_style: g.2,
                            disk_devices: d.0,
                            disk_zfs_pools: d.1,
                            disk_graph_style: d.2,
                            network_interfaces: n.0,
                            network_graph_style: n.1,
                        },
                    ),
                },
                }
            }
        },
        _ => Err((DecodeErrorKind::InvalidValue, "widgets"@)),
    }
}

/// The options of every widget when `[widgets]` sets nothing.
pub open spec fn default_widgets() -> WidgetsModel {
    WidgetsModel {
        cpu_show_per_core: false,
        cpu_graph_style: None,
        memory_show_swap: true,
        memory_show_usage_bar: true,
        memory_graph_style: None,
        gpu_show_per_process: false,
        gpu_mode: GpuMode::Auto,
        gpu_graph_style: None,
        disk_devices: Seq::empty(),
        disk_zfs_pools: Seq::empty(),
        disk_graph_style: None,
        network_interfaces: Seq::empty(),
        network_graph_style: None,
    }
}

pub open spec fn config_key(k: Seq<char>) -> bool {
    k == "settings"@ || k == "layout"@ || k == "widgets"@
}

/// A whole configuration document: `[settings]` and `[widgets]` optional,
/// `[layout]` required, unknown keys refused.
pub open spec fn decode_config(v: Toml) -> Result<ConfigModel, Failure> {
    match v {
        Toml::Table(es) => {
            {
                let settings = sub_table(
                    es,
                    "settings"@,
                    |t| decode_settings(t),
                    default_settings(),
                );
                let layout = match lookup(es, "layout"@) {
                    Some(t) => decode_split(t, "layout"@),
                    None => Err((DecodeErrorKind::MissingField, "layout"@)),
                };
                let widgets = sub_table(es, "widgets"@, |t| decode_widgets(t), default_widgets());
                match entry_failure(
                    es,
                    TableKind::Config,
                    seq![
                        ("settings"@, fail_of(settings)),
                        ("layout"@, fail_of(layout)),
                        ("widgets"@, fail_of(widgets)),
                    ],
                ) {
                    Some(f) => Err(f),
                    None => match (settings, layout, widgets) {
                        (Err(e), _, _) => Err(e),
                        (_, Err(e), _) => Err(e),
                        (_, _, Err(e)) => Err(e),
                        (Ok(s), Ok(l), Ok(w)) => Ok(ConfigModel { settings: s, layout: l, widgets: w }),
                    },
                }
            }
        },
        _ => Err((DecodeErrorKind::InvalidValue, "layout"@)),
    }
}


fn err(kind: DecodeErrorKind, key: &str) -> (e: DecodeError)
    ensures
        e@ == (kind, key@),
{
    DecodeError { kind, key: key.to_owned() }
}

/// The position of the first entry whose key is `name`.
fn field_index(es: &Vec<(String, TomlValue)>, name: &str) -> (r: Option<usize>)
    ensures
        match r {
            Some(i) => i < es@.len() && key_index(entries_view(es@), name@) == Some(i as int)
                && lookup(entries_view(es@), name@) == Some(es@[i as int].1@),
            None => lookup(entries_view(es@), name@) is None,
        },
{
    proof {
        lemma_entries_view(es@);
    }
    let ghost tv = entries_view(es@);
    let mut i: usize = 0;
    while i < es.len()
        invariant
            i <= es@.len(),
            tv == entries_view(es@),
            tv.len() == es@.len(),
            forall|j: int| 0 <= j < es@.len() ==> #[trigger] tv[j] == (es@[j].0@, es@[j].1@),
            forall|j: int| 0 <= j < i ==> tv[j].0 != name@,
        decreases es.len() - i,
    {
        if str_eq(es[i].0.as_str(), name) {
            proof {
                assert(first_key_at(tv, name@, i as int));
                lemma_key_index_found(tv, name@, i as int);
            }
            return Some(i);
        }
        i = i + 1;
    }
    proof {
        lemma_key_index_absent(tv, name@);
    }
    None
}

fn known_key_exec(kind: TableKind, k: &str) -> (r: bool)
    ensures
        r == known_key(kind, k@),
{
    match kind {
        TableKind::Config => str_eq(k, "settings") || str_eq(k, "layout") || str_eq(k, "widgets"),
        TableKind::Settings => str_eq(k, "update_ms") || str_eq(k, "history") || str_eq(k, "theme")
            || str_eq(k, "graph_style"),
        TableKind::Split => str_eq(k, "direction") || str_eq(k, "children"),
        TableKind::Child => str_eq(k, "size") || str_eq(k, "widget") || str_eq(k, "split"),
        TableKind::Widgets => str_eq(k, "cpu") || str_eq(k, "memory") || str_eq(k, "gpu") || str_eq(
            k,
            "disk",
        ) || str_eq(k, "network"),
        TableKind::Cpu => str_eq(k, "show_per_core") || str_eq(k, "graph_style"),
        TableKind::Memory => str_eq(k, "show_swap") || str_eq(k, "show_usage_bar") || str_eq(
            k,
            "graph_style",
        ),
        TableKind::Gpu => str_eq(k, "show_per_process") || str_eq(k, "mode") || str_eq(
            k,
            "graph_style",
        ),
        TableKind::Disk => str_eq(k, "devices") || str_eq(k, "zfs_pools") || str_eq(
            k,
            "graph_style",
        ),
        TableKind::Network => str_eq(k, "interfaces") || str_eq(k, "graph_style"),
    }
}

pub open spec fn found_view(f: Option<(String, DecodeError)>) -> Found {
    match f {
        Some(x) => Some((x.0@, x.1@)),
        None => None,
    }
}

pub open spec fn opt_failure(f: Option<DecodeError>) -> Option<Failure> {
    match f {
        Some(e) => Some(e@),
        None => None,
    }
}

pub open spec fn fields_view(fs: Seq<(&str, Option<DecodeError>)>) -> Seq<(Seq<char>, Option<Failure>)> {
    fs.map_values(|p: (&str, Option<DecodeError>)| (p.0@, opt_failure(p.1)))
}

fn copy_error(e: &DecodeError) -> (c: DecodeError)
    ensures
        c@ == e@,
{
    DecodeError { kind: e.kind, key: e.key.clone() }
}

/// The failure of a field's result, if it failed.
fn err_of<A>(r: &Result<A, DecodeError>) -> (f: Option<DecodeError>)
    ensures
        match r {
            Ok(_) => f is None,
            Err(e) => f matches Some(g) && g@ == e@,
        },
{
    match r {
        Ok(_) => None,
        Err(e) => Some(copy_error(e)),
    }
}

fn earlier_exec(a: Option<(String, DecodeError)>, b: Option<(String, DecodeError)>) -> (r: Option<
    (String, DecodeError),
>)
    ensures
        found_view(r) == earlier(found_view(a), found_view(b)),
{
    match (a, b) {
        (Some(x), Some(y)) => if str_less(y.0.as_str(), x.0.as_str()) {
            Some(y)
        } else {
            Some(x)
        },
        (None, b) => b,
        (a, None) => a,
    }
}

/// The failure a table's entries are refused for, read in key order.
fn entry_failure_exec(
    es: &Vec<(String, TomlValue)>,
    kind: TableKind,
    fs: &Vec<(&str, Option<DecodeError>)>,
) -> (r: Option<DecodeError>)
    ensures
        opt_failure(r) == entry_failure(entries_view(es@), kind, fields_view(fs@)),
{
    proof {
        lemma_entries_view(es@);
    }
    let ghost tv = entries_view(es@);
    let mut acc: Option<(String, DecodeError)> = None;
    let mut i: usize = 0;
    while i < es.len()
        invariant
            i <= es@.len(),
            tv == entries_view(es@),
            tv.len() == es@.len(),
            forall|j: int| 0 <= j < es@.len() ==> #[trigger] tv[j] == (es@[j].0@, es@[j].1@),
            found_view(acc) == least_unknown(tv.take(i as int), kind),
        decreases es@.len() - i,
    {
        proof {
            assert(tv.take(i + 1).drop_last() =~= tv.take(i as int));
            assert(tv.take(i + 1).last() == tv[i as int]);
        }
        let here = if known_key_exec(kind, es[i].0.as_str()) {
            None
        } else {
            Some(
                (
                    es[i].0.clone(),
                    DecodeError { kind: DecodeErrorKind::UnknownField, key: es[i].0.clone() },
                ),
            )
        };
        acc = earlier_exec(acc, here);
        i = i + 1;
    }
    proof {
        assert(tv.take(es@.len() as int) =~= tv);
    }
    let ghost start = least_unknown(tv, kind);
    let ghost fv = fields_view(fs@);
    let mut i: usize = 0;
    proof {
        assert(fv.take(0) =~= Seq::<(Seq<char>, Option<Failure>)>::empty());
    }
    while i < fs.len()
        invariant
            i <= fs@.len(),
            tv == entries_view(es@),
            fv == fields_view(fs@),
            fv.len() == fs@.len(),
            found_view(acc) == fields_found(tv, fv.take(i as int), start),
        decreases fs@.len() - i,
    {
        proof {
            assert(fv.take(i + 1).drop_last() =~= fv.take(i as int));
            assert(fv.take(i + 1).last() == fv[i as int]);
        }
        let name = fs[i].0;
        let here = match &fs[i].1 {
            Some(e) => match field_index(es, name) {
                Some(_) => Some((name.to_owned(), copy_error(e))),
                None => None,
            },
            None => None,
        };
        acc = earlier_exec(acc, here);
        i = i + 1;
    }
    proof {
        assert(fv.take(fs@.len() as int) =~= fv);
    }
    match acc {
        Some(x) => Some(x.1),
        None => None,
    }
}

fn toml_u64_exec(v: &TomlValue) -> (r: Option<u64>)
    ensures
        r == toml_u64(v@),
{
    match v {
        TomlValue::Int(i) => if *i >= 0 {
            Some(*i as u64)
        } else {
            None
        },
        _ => None,
    }
}

fn toml_usize_exec(v: &TomlValue) -> (r: Option<usize>)
    ensures
        r == toml_usize(v@),
{
    match v {
        TomlValue::Int(i) => if *i >= 0 && (*i as u64) <= (usize::MAX as u64) {
            Some(*i as usize)
        } else {
            None
        },
        _ => None,
    }
}

fn toml_u16_exec(v: &TomlValue) -> (r: Option<u16>)
    ensures
        r == toml_u16(v@),
{
    match v {
        TomlValue::Int(i) => if *i >= 0 && *i <= 65535 {
            Some(*i as u16)
        } else {
            None
        },
        _ => None,
    }
}

fn toml_u32_exec(v: &TomlValue) -> (r: Option<u32>)
    ensures
        r == toml_u32(v@),
{
    match v {
        TomlValue::Int(i) => if *i >= 0 && *i <= 4294967295 {
            Some(*i as u32)
        } else {
            None
        },
        _ => None,
    }
}

fn toml_bool_exec(v: &TomlValue) -> (r: Option<bool>)
    ensures
        r == toml_bool(v@),
{
    match v {
        TomlValue::Bool(b) => Some(*b),
        _ => None,
    }
}

fn toml_string_exec(v: &TomlValue) -> (r: Option<String>)
    ensures
        match r {
            Some(s) => toml_string(v@) == Some(s@),
            None => toml_string(v@) is None,
        },
{
    match v {
        TomlValue::Str(s) => Some(s.clone()),
        _ => None,
    }
}

fn toml_graph_style_exec(v: &TomlValue) -> (r: Option<GraphStyle>)
    ensures
        r == toml_graph_style(v@),
{
    match v {
        TomlValue::Str(s) => if str_eq(s.as_str(), "braille") {
            Some(GraphStyle::Braille)
        } else if str_eq(s.as_str(), "bar") {
            Some(GraphStyle::Bar)
        } else {
            None
        },
        _ => None,
    }
}

fn toml_direction_exec(v: &TomlValue) -> (r: Option<Direction>)
    ensures
        r == toml_direction(v@),
{
    match v {
        TomlValue::Str(s) => if str_eq(s.as_str(), "horizontal") {
            Some(Direction::Horizontal)
        } else if str_eq(s.as_str(), "vertical") {
            Some(Direction::Vertical)
        } else {
            None
        },
        _ => None,
    }
}

fn toml_gpu_mode_exec(v: &TomlValue) -> (r: Option<GpuMode>)
    ensures
        r == toml_gpu_mode(v@),
{
    match v {
        TomlValue::Str(s) => if str_eq(s.as_str(), "auto") {
            Some(GpuMode::Auto)
        } else if str_eq(s.as_str(), "compact") {
            Some(GpuMode::Compact)
        } else if str_eq(s.as_str(), "per_device") {
            Some(GpuMode::PerDevice)
        } else {
            None
        },
        _ => None,
    }
}

fn toml_widget_exec(v: &TomlValue) -> (r: Option<WidgetKind>)
    ensures
        r == toml_widget(v@),
{
    match v {
        TomlValue::Str(s) => {
            let s = s.as_str();
            if str_eq(s, "cpu") {
                Some(WidgetKind::Cpu)
            } else if str_eq(s, "memory") {
                Some(WidgetKind::Memory)
            } else if str_eq(s, "gpu") {
                Some(WidgetKind::Gpu)
            } else if str_eq(s, "gpu_util") {
                Some(WidgetKind::GpuUtil)
            } else if str_eq(s, "gpu_memory") || str_eq(s, "gpu_mem") {
                Some(WidgetKind::GpuMemory)
            } else if str_eq(s, "gpu_pcie") {
                Some(WidgetKind::GpuPcie)
            } else if str_eq(s, "gpu_nvlink") {
                Some(WidgetKind::GpuNvlink)
            } else if str_eq(s, "disk") {
                Some(WidgetKind::Disk)
            } else if str_eq(s, "network") {
                Some(WidgetKind::Network)
            } else {
                None
            }
        },
        _ => None,
    }
}

fn toml_strings_exec(v: &TomlValue) -> (r: Option<Vec<String>>)
    ensures
        match r {
            Some(out) => toml_strings(v@) == Some(crate::config::strings_model(out@)),
            None => toml_strings(v@) is None,
        },
{
    match v {
        TomlValue::Array(a) => {
            proof {
                crate::config::value::lemma_array_view(a@);
            }
            let ghost av = crate::config::value::array_view(a@);
            assert(v@ == Toml::Array(av));
            let mut out: Vec<String> = Vec::new();
            let mut i: usize = 0;
            while i < a.len()
                invariant
                    i <= a@.len(),
                    av == crate::config::value::array_view(a@),
                    av.len() == a@.len(),
                    v@ == Toml::Array(av),
                    forall|j: int| 0 <= j < a@.len() ==> #[trigger] av[j] == a@[j]@,
                    out@.len() == i,
                    forall|j: int| 0 <= j < i ==> (#[trigger] av[j]) == Toml::Str(out@[j]@),
                decreases a.len() - i,
            {
                match &a[i] {
                    TomlValue::Str(s) => {
                        out.push(s.clone());
                    },
                    _ => {
                        proof {
                            assert(!(av[i as int] is Str));
                            assert(!(forall|j: int| 0 <= j < av.len() ==> av[j] is Str));
                        }
                        return None;
                    },
                }
                i = i + 1;
            }
            proof {
                assert(crate::config::strings_model(out@) =~= av.map_values(|t: Toml| t->Str_0));
            }
            Some(out)
        },
        _ => None,
    }
}


fn field_u64(es: &Vec<(String, TomlValue)>, name: &str, default: u64) -> (r: Result<u64, DecodeError>)
    ensures
        match r {
            Ok(x) => field(entries_view(es@), name@, |t| toml_u64(t), Some(default)) == Ok::<
                u64,
                Failure,
            >(x),
            Err(e) => field(entries_view(es@), name@, |t| toml_u64(t), Some(default)) == Err::<
                u64,
                Failure,
            >(e@),
        },
{
    match field_index(es, name) {
        Some(i) => match toml_u64_exec(&es[i].1) {
            Some(x) => Ok(x),
            None => Err(err(DecodeErrorKind::InvalidValue, name)),
        },
        None => Ok(default),
    }
}

fn field_usize(es: &Vec<(String, TomlValue)>, name: &str, default: usize) -> (r: Result<
    usize,
    DecodeError,
>)
    ensures
        match r {
            Ok(x) => field(entries_view(es@), name@, |t| toml_usize(t), Some(default)) == Ok::<
                usize,
                Failure,
            >(x),
            Err(e) => field(entries_view(es@), name@, |t| toml_usize(t), Some(default)) == Err::<
                usize,
                Failure,
            >(e@),
        },
{
    match field_index(es, name) {
        Some(i) => match toml_usize_exec(&es[i].1) {
            Some(x) => Ok(x),
            None => Err(err(DecodeErrorKind::InvalidValue, name)),
        },
        None => Ok(default),
    }
}

fn field_bool(es: &Vec<(String, TomlValue)>, name: &str, default: bool) -> (r: Result<
    bool,
    DecodeError,
>)
    ensures
        match r {
            Ok(x) => field(entries_view(es@), name@, |t| toml_bool(t), Some(default)) == Ok::<
                bool,
                Failure,
            >(x),
            Err(e) => field(entries_view(es@), name@, |t| toml_bool(t), Some(default)) == Err::<
                bool,
                Failure,
            >(e@),
        },
{
    match field_index(es, name) {
        Some(i) => match toml_bool_exec(&es[i].1) {
            Some(x) => Ok(x),
            None => Err(err(DecodeErrorKind::InvalidValue, name)),
        },
        None => Ok(default),
    }
}

fn field_string(es: &Vec<(String, TomlValue)>, name: &str, default: &str) -> (r: Result<
    String,
    DecodeError,
>)
    ensures
        match r {
            Ok(x) => field(entries_view(es@), name@, |t| toml_string(t), Some(default@))
                == Ok::<Seq<char>, Failure>(x@),
            Err(e) => field(entries_view(es@), name@, |t| toml_string(t), Some(default@))
                == Err::<Seq<char>, Failure>(e@),
        },
{
    match field_index(es, name) {
        Some(i) => match toml_string_exec(&es[i].1) {
            Some(x) => Ok(x),
            None => Err(err(DecodeErrorKind::InvalidValue, name)),
        },
        None => Ok(default.to_owned()),
    }
}

fn field_graph_style(es: &Vec<(String, TomlValue)>, name: &str, default: GraphStyle) -> (r:
    Result<GraphStyle, DecodeError>)
    ensures
        match r {
            Ok(x) => field(entries_view(es@), name@, |t| toml_graph_style(t), Some(default))
                == Ok::<GraphStyle, Failure>(x),
            Err(e) => field(entries_view(es@), name@, |t| toml_graph_style(t), Some(default))
                == Err::<GraphStyle, Failure>(e@),
        },
{
    match field_index(es, name) {
        Some(i) => match toml_graph_style_exec(&es[i].1) {
            Some(x) => Ok(x),
            None => Err(err(DecodeErrorKind::InvalidValue, name)),
        },
        None => Ok(default),
    }
}

fn field_opt_graph_style(es: &Vec<(String, TomlValue)>, name: &str) -> (r: Result<
    Option<GraphStyle>,
    DecodeError,
>)
    ensures
        match r {
            Ok(x) => field(entries_view(es@), name@, |t| toml_opt_graph_style(t), Some(None))
                == Ok::<Option<GraphStyle>, Failure>(x),
            Err(e) => field(entries_view(es@), name@, |t| toml_opt_graph_style(t), Some(None))
                == Err::<Option<GraphStyle>, Failure>(e@),
        },
{
    match field_index(es, name) {
        Some(i) => match toml_graph_style_exec(&es[i].1) {
            Some(x) => Ok(Some(x)),
            None => Err(err(DecodeErrorKind::InvalidValue, name)),
        },
        None => Ok(None),
    }
}

fn field_strings(es: &Vec<(String, TomlValue)>, name: &str) -> (r: Result<
    Vec<String>,
    DecodeError,
>)
    ensures
        match r {
            Ok(x) => field(entries_view(es@), name@, |t| toml_strings(t), Some(Seq::empty()))
                == Ok::<Seq<Seq<char>>, Failure>(crate::config::strings_model(x@)),
            Err(e) => field(entries_view(es@), name@, |t| toml_strings(t), Some(Seq::empty()))
                == Err::<Seq<Seq<char>>, Failure>(e@),
        },
{
    match field_index(es, name) {
        Some(i) => match toml_strings_exec(&es[i].1) {
            Some(x) => Ok(x),
            None => Err(err(DecodeErrorKind::InvalidValue, name)),
        },
        None => {
            let v: Vec<String> = Vec::new();
            proof {
                assert(crate::config::strings_model(v@) =~= Seq::<Seq<char>>::empty());
            }
            Ok(v)
        },
    }
}

/// Decode the `[settings]` table.
pub fn decode_settings_exec(v: &TomlValue) -> (r: Result<crate::config::Settings, DecodeError>)
    ensures
        match r {
            Ok(s) => decode_settings(v@) == Ok::<SettingsModel, Failure>(s@),
            Err(e) => decode_settings(v@) == Err::<SettingsModel, Failure>(e@),
        },
{
    match v {
        TomlValue::Table(es) => {
            let update_ms = field_u64(es, "update_ms", crate::config::default_update_ms());
            let history = field_usize(es, "history", crate::config::default_history());
            let theme = field_string(es, "theme", "default");
            let graph_style = field_graph_style(es, "graph_style", GraphStyle::default());
            let fs = vec![
                ("update_ms", err_of(&update_ms)),
                ("history", err_of(&history)),
                ("theme", err_of(&theme)),
                ("graph_style", err_of(&graph_style)),
            ];
            proof {
                let ev = entries_view(es@);
                assert(fields_view(fs@) =~= seq![
                    ("update_ms"@, fail_of(field(ev, "update_ms"@, |t| toml_u64(t), Some(1000u64)))),
                    ("history"@, fail_of(field(ev, "history"@, |t| toml_usize(t), Some(240usize)))),
                    ("theme"@, fail_of(field(ev, "theme"@, |t| toml_string(t), Some("default"@)))),
                    ("graph_style"@, fail_of(
                        field(ev, "graph_style"@, |t| toml_graph_style(t), Some(GraphStyle::Braille)),
                    )),
                ]);
            }
            if let Some(e) = entry_failure_exec(es, TableKind::Settings, &fs) {
                return Err(e);
            }
            let update_ms = update_ms?;
            let history = history?;
            let theme = theme?;
            let graph_style = graph_style?;
            Ok(crate::config::Settings { update_ms, history, theme, graph_style })
        },
        _ => Err(err(DecodeErrorKind::InvalidValue, "settings")),
    }
}


fn toml_u32_pair_exec(v: &TomlValue) -> (r: Option<(u32, u32)>)
    ensures
        r == toml_u32_pair(v@),
{
    match v {
        TomlValue::Array(a) => {
            proof {
                crate::config::value::lemma_array_view(a@);
            }
            if a.len() != 2 {
                return None;
            }
            match (toml_u32_exec(&a[0]), toml_u32_exec(&a[1])) {
                (Some(x), Some(y)) => Some((x, y)),
                _ => None,
            }
        },
        _ => None,
    }
}

fn toml_size_exec(v: &TomlValue) -> (r: Option<SizeSpec>)
    ensures
        match r {
            Some(s) => toml_size(v@) == Some(size_model(s)),
            None => toml_size(v@) is None,
        },
{
    match v {
        TomlValue::Str(s) => Some(SizeSpec::Keyword(s.clone())),
        TomlValue::Table(es) => {
            if let Some(i) = field_index(es, "length") {
                if let Some(l) = toml_u16_exec(&es[i].1) {
                    return Some(SizeSpec::Length { length: l });
                }
            }
            if let Some(i) = field_index(es, "ratio") {
                if let Some((a, b)) = toml_u32_pair_exec(&es[i].1) {
                    let ratio = [a, b];
                    proof {
                        vstd::array::lemma_array_index(ratio, 0);
                        vstd::array::lemma_array_index(ratio, 1);
                    }
                    return Some(SizeSpec::Ratio { ratio });
                }
            }
            None
        },
        _ => None,
    }
}

fn field_size(es: &Vec<(String, TomlValue)>) -> (r: Result<SizeSpec, DecodeError>)
    ensures
        match r {
            Ok(x) => field(entries_view(es@), "size"@, |t| toml_size(t), Some(default_size()))
                == Ok::<SizeModel, Failure>(size_model(x)),
            Err(e) => field(entries_view(es@), "size"@, |t| toml_size(t), Some(default_size()))
                == Err::<SizeModel, Failure>(e@),
        },
{
    match field_index(es, "size") {
        Some(i) => match toml_size_exec(&es[i].1) {
            Some(x) => Ok(x),
            None => Err(err(DecodeErrorKind::InvalidValue, "size")),
        },
        None => Ok(SizeSpec::default()),
    }
}

fn field_opt_widget(es: &Vec<(String, TomlValue)>) -> (r: Result<Option<WidgetKind>, DecodeError>)
    ensures
        match r {
            Ok(x) => field(entries_view(es@), "widget"@, |t| toml_opt_widget(t), Some(None))
                == Ok::<Option<WidgetKind>, Failure>(x),
            Err(e) => field(entries_view(es@), "widget"@, |t| toml_opt_widget(t), Some(None))
                == Err::<Option<WidgetKind>, Failure>(e@),
        },
{
    match field_index(es, "widget") {
        Some(i) => match toml_widget_exec(&es[i].1) {
            Some(x) => Ok(Some(x)),
            None => Err(err(DecodeErrorKind::InvalidValue, "widget")),
        },
        None => Ok(None),
    }
}

fn field_direction(es: &Vec<(String, TomlValue)>) -> (r: Result<Direction, DecodeError>)
    ensures
        match r {
            Ok(x) => field(entries_view(es@), "direction"@, |t| toml_direction(t), None)
                == Ok::<Direction, Failure>(x),
            Err(e) => field(entries_view(es@), "direction"@, |t| toml_direction(t), None)
                == Err::<Direction, Failure>(e@),
        },
{
    match field_index(es, "direction") {
        Some(i) => match toml_direction_exec(&es[i].1) {
            Some(x) => Ok(x),
            None => Err(err(DecodeErrorKind::InvalidValue, "direction")),
        },
        None => Err(err(DecodeErrorKind::MissingField, "direction")),
    }
}

/// Decode a layout split held by the field `key`.
pub fn decode_split_exec(v: &TomlValue, key: &str) -> (r: Result<Split, DecodeError>)
    ensures
        match r {
            Ok(s) => decode_split(v@, key@) == Ok::<SplitModel, Failure>(split_model(s)),
            Err(e) => decode_split(v@, key@) == Err::<SplitModel, Failure>(e@),
        },
    decreases v,
{
    match v {
        TomlValue::Table(es) => {
            proof {
                lemma_entries_view(es@);
            }
            let direction = field_direction(es);
            let children = match field_index(es, "children") {
                None => Err(err(DecodeErrorKind::MissingField, "children")),
                Some(i) => match &es[i].1 {
                    TomlValue::Array(a) => {
                        proof {
                            crate::config::value::lemma_array_view(a@);
                            assert(decreases_to!(*v => *es));
                            assert(decreases_to!(*es => es@));
                            assert(decreases_to!(es@ => es@[i as int]));
                            assert(decreases_to!(es@[i as int] => es@[i as int].1));
                            assert(decreases_to!(es@[i as int].1 => *a));
                            assert(decreases_to!(*a => a@));
                            assert(es@[i as int].1@ == Toml::Array(crate::config::value::array_view(a@)));
                        }
                        decode_children_exec(a)
                    },
                    _ => Err(err(DecodeErrorKind::InvalidValue, "children")),
                },
            };
            let fs = vec![("direction", err_of(&direction)), ("children", err_of(&children))];
            proof {
                let ev = entries_view(es@);
                let children_spec = match key_index(ev, "children"@) {
                    None => Err((DecodeErrorKind::MissingField, "children"@)),
                    Some(i) => match ev[i].1 {
                        Toml::Array(a) => decode_children(a),
                        _ => Err((DecodeErrorKind::InvalidValue, "children"@)),
                    },
                };
                assert(fields_view(fs@) =~= seq![
                    ("direction"@, fail_of(field(ev, "direction"@, |t| toml_direction(t), None))),
                    ("children"@, fail_of(children_spec)),
                ]);
            }
            if let Some(e) = entry_failure_exec(es, TableKind::Split, &fs) {
                return Err(e);
            }
            let direction = direction?;
            let children = children?;
            proof {
                crate::config::lemma_children_model(children@);
            }
            Ok(Split { direction, children })
        },
        _ => Err(err(DecodeErrorKind::InvalidValue, key)),
    }
}

/// Decode the children of a split, first error first.
fn decode_children_exec(a: &Vec<TomlValue>) -> (r: Result<Vec<Child>, DecodeError>)
    ensures
        match r {
            Ok(cs) => decode_children(crate::config::value::array_view(a@)) == Ok::<
                Seq<ChildModel>,
                Failure,
            >(children_model(cs@)),
            Err(e) => decode_children(crate::config::value::array_view(a@)) == Err::<
                Seq<ChildModel>,
                Failure,
            >(e@),
        },
    decreases a@,
{
    proof {
        crate::config::value::lemma_array_view(a@);
    }
    let ghost av = crate::config::value::array_view(a@);
    let n = a.len();
    let mut children: Vec<Child> = Vec::new();
    let mut j: usize = 0;
    proof {
        assert(av.subrange(0, n as int) =~= av);
        assert(children_model(children@) =~= Seq::<ChildModel>::empty());
    }
    while j < n
        invariant
            n == a@.len(),
            j <= n,
            av == crate::config::value::array_view(a@),
            av.len() == n,
            forall|k: int| 0 <= k < n ==> #[trigger] av[k] == a@[k]@,
            decode_children(av) == match decode_children(av.subrange(j as int, n as int)) {
                Ok(cs) => Ok::<Seq<ChildModel>, Failure>(children_model(children@) + cs),
                Err(e) => Err(e),
            },
        decreases n - j,
    {
        let ghost rest = av.subrange(j as int, n as int);
        proof {
            assert(rest[0] == av[j as int]);
            assert(rest.subrange(1, rest.len() as int) =~= av.subrange(j + 1, n as int));
            assert(decreases_to!(a@ => a@[j as int]));
        }
        let c = match decode_child_exec(&a[j]) {
            Ok(c) => c,
            Err(e) => {
                return Err(e);
            },
        };
        let ghost before = children@;
        children.push(c);
        proof {
            crate::config::lemma_children_model(children@);
            crate::config::lemma_children_model(before);
            assert(children@.subrange(0, children@.len() - 1) =~= before);
            match decode_children(av.subrange(j + 1, n as int)) {
                Ok(cs) => {
                    assert(children_model(before) + (seq![children_model(children@).last()] + cs)
                        =~= children_model(children@) + cs);
                },
                Err(e) => {},
            }
        }
        j = j + 1;
    }
    proof {
        assert(av.subrange(n as int, n as int) =~= Seq::<Toml>::empty());
        assert(children_model(children@) + Seq::<ChildModel>::empty() =~= children_model(children@));
    }
    Ok(children)
}

/// Decode one layout child.
fn decode_child_exec(v: &TomlValue) -> (r: Result<Child, DecodeError>)
    ensures
        match r {
            Ok(c) => decode_child(v@) == Ok::<ChildModel, Failure>(
                ChildModel {
                    size: size_model(c.size),
                    widget: c.widget,
                    split: match c.split {
                        Some(n) => Some(split_model(n)),
                        None => None,
                    },
                },
            ),
            Err(e) => decode_child(v@) == Err::<ChildModel, Failure>(e@),
        },
    decreases v,
{
    match v {
        TomlValue::Table(es) => {
            proof {
                lemma_entries_view(es@);
            }
            let size = field_size(es);
            let widget = field_opt_widget(es);
            let split = match field_index(es, "split") {
                None => Ok(None),
                Some(i) => {
                    proof {
                        assert(decreases_to!(*v => *es));
                        assert(decreases_to!(*es => es@));
                        assert(decreases_to!(es@ => es@[i as int]));
                        assert(decreases_to!(es@[i as int] => es@[i as int].1));
                    }
                    match decode_split_exec(&es[i].1, "split") {
                        Ok(n) => Ok(Some(n)),
                        Err(e) => Err(e),
                    }
                },
            };
            let fs = vec![("size", err_of(&size)), ("widget", err_of(&widget)), ("split", err_of(&split))];
            proof {
                let ev = entries_view(es@);
                let split_spec = match key_index(ev, "split"@) {
                    None => Ok(None),
                    Some(i) => match decode_split(ev[i].1, "split"@) {
                        Ok(n) => Ok(Some(n)),
                        Err(e) => Err(e),
                    },
                };
                assert(fields_view(fs@) =~= seq![
                    ("size"@, fail_of(field(ev, "size"@, |t| toml_size(t), Some(default_size())))),
                    ("widget"@, fail_of(field(ev, "widget"@, |t| toml_opt_widget(t), Some(None)))),
                    ("split"@, fail_of(split_spec)),
                ]);
            }
            if let Some(e) = entry_failure_exec(es, TableKind::Child, &fs) {
                return Err(e);
            }
            let size = size?;
            let widget = widget?;
            let split = split?;
            Ok(Child { size, widget, split })
        },
        _ => Err(err(DecodeErrorKind::InvalidValue, "children")),
    }
}


fn field_gpu_mode(es: &Vec<(String, TomlValue)>) -> (r: Result<GpuMode, DecodeError>)
    ensures
        match r {
            Ok(x) => field(entries_view(es@), "mode"@, |t| toml_gpu_mode(t), Some(GpuMode::Auto))
                == Ok::<GpuMode, Failure>(x),
            Err(e) => field(entries_view(es@), "mode"@, |t| toml_gpu_mode(t), Some(GpuMode::Auto))
                == Err::<GpuMode, Failure>(e@),
        },
{
    match field_index(es, "mode") {
        Some(i) => match toml_gpu_mode_exec(&es[i].1) {
            Some(x) => Ok(x),
            None => Err(err(DecodeErrorKind::InvalidValue, "mode")),
        },
        None => Ok(GpuMode::default()),
    }
}

fn decode_cpu_exec(v: &TomlValue) -> (r: Result<crate::config::CpuOpts, DecodeError>)
    ensures
        match r {
            Ok(o) => decode_cpu(v@) == Ok::<(bool, Option<GraphStyle>), Failure>(
                (o.show_per_core, o.graph_style),
            ),
            Err(e) => decode_cpu(v@) == Err::<(bool, Option<GraphStyle>), Failure>(e@),
        },
{
    match v {
        TomlValue::Table(es) => {
            let show_per_core = field_bool(es, "show_per_core", false);
            let graph_style = field_opt_graph_style(es, "graph_style");
            let fs = vec![("show_per_core", err_of(&show_per_core)), ("graph_style", err_of(&graph_style))];
            proof {
                let ev = entries_view(es@);
                assert(fields_view(fs@) =~= seq![
                    ("show_per_core"@, fail_of(field(ev, "show_per_core"@, |t| toml_bool(t), Some(false)))),
                    ("graph_style"@, fail_of(field(ev, "graph_style"@, |t| toml_opt_graph_style(t), Some(None)))),
                ]);
            }
            if let Some(e) = entry_failure_exec(es, TableKind::Cpu, &fs) {
                return Err(e);
            }
            let show_per_core = show_per_core?;
            let graph_style = graph_style?;
            Ok(crate::config::CpuOpts { show_per_core, graph_style })
        },
        _ => Err(err(DecodeErrorKind::InvalidValue, "cpu")),
    }
}

fn decode_memory_exec(v: &TomlValue) -> (r: Result<crate::config::MemoryOpts, DecodeError>)
    ensures
        match r {
            Ok(o) => decode_memory(v@) == Ok::<(bool, bool, Option<GraphStyle>), Failure>(
                (o.show_swap, o.show_usage_bar, o.graph_style),
            ),
            Err(e) => decode_memory(v@) == Err::<(bool, bool, Option<GraphStyle>), Failure>(e@),
        },
{
    match v {
        TomlValue::Table(es) => {
            let show_swap = field_bool(es, "show_swap", crate::config::default_true());
            let show_usage_bar = field_bool(es, "show_usage_bar", crate::config::default_true());
            let graph_style = field_opt_graph_style(es, "graph_style");
            let fs = vec![
                ("show_swap", err_of(&show_swap)),
                ("show_usage_bar", err_of(&show_usage_bar)),
                ("graph_style", err_of(&graph_style)),
            ];
            proof {
                let ev = entries_view(es@);
                assert(fields_view(fs@) =~= seq![
                    ("show_swap"@, fail_of(field(ev, "show_swap"@, |t| toml_bool(t), Some(true)))),
                    ("show_usage_bar"@, fail_of(field(ev, "show_usage_bar"@, |t| toml_bool(t), Some(true)))),
                    ("graph_style"@, fail_of(field(ev, "graph_style"@, |t| toml_opt_graph_style(t), Some(None)))),
                ]);
            }
            if let Some(e) = entry_failure_exec(es, TableKind::Memory, &fs) {
                return Err(e);
            }
            let show_swap = show_swap?;
            let show_usage_bar = show_usage_bar?;
            let graph_style = graph_style?;
            Ok(crate::config::MemoryOpts { show_swap, show_usage_bar, graph_style })
        },
        _ => Err(err(DecodeErrorKind::InvalidValue, "memory")),
    }
}

fn decode_gpu_exec(v: &TomlValue) -> (r: Result<crate::config::GpuOpts, DecodeError>)
    ensures
        match r {
            Ok(o) => decode_gpu(v@) == Ok::<(bool, GpuMode, Option<GraphStyle>), Failure>(
                (o.show_per_process, o.mode, o.graph_style),
            ),
            Err(e) => decode_gpu(v@) == Err::<(bool, GpuMode, Option<GraphStyle>), Failure>(e@),
        },
{
    match v {
        TomlValue::Table(es) => {
            let show_per_process = field_bool(es, "show_per_process", false);
            let mode = field_gpu_mode(es);
            let graph_style = field_opt_graph_style(es, "graph_style");
            let fs = vec![
                ("show_per_process", err_of(&show_per_process)),
                ("mode", err_of(&mode)),
                ("graph_style", err_of(&graph_style)),
            ];
            proof {
                let ev = entries_view(es@);
                assert(fields_view(fs@) =~= seq![
                    ("show_per_process"@, fail_of(field(ev, "show_per_process"@, |t| toml_bool(t), Some(false)))),
                    ("mode"@, fail_of(field(ev, "mode"@, |t| toml_gpu_mode(t), Some(GpuMode::Auto)))),
                    ("graph_style"@, fail_of(field(ev, "graph_style"@, |t| toml_opt_graph_style(t), Some(None)))),
                ]);
            }
            if let Some(e) = entry_failure_exec(es, TableKind::Gpu, &fs) {
                return Err(e);
            }
            let show_per_process = show_per_process?;
            let mode = mode?;
            let graph_style = graph_style?;
            Ok(crate::config::GpuOpts { show_per_process, mode, graph_style })
        },
        _ => Err(err(DecodeErrorKind::InvalidValue, "gpu")),
    }
}

fn decode_disk_exec(v: &TomlValue) -> (r: Result<crate::config::DiskOpts, DecodeError>)
    ensures
        match r {
            Ok(o) => decode_disk(v@) == Ok::<
                (Seq<Seq<char>>, Seq<Seq<char>>, Option<GraphStyle>),
                Failure,
            >(
                (
                    crate::config::strings_model(o.devices@),
                    crate::config::strings_model(o.zfs_pools@),
                    o.graph_style,
                ),
            ),
            Err(e) => decode_disk(v@) == Err::<
                (Seq<Seq<char>>, Seq<Seq<char>>, Option<GraphStyle>),
                Failure,
            >(e@),
        },
{
    match v {
        TomlValue::Table(es) => {
            let devices = field_strings(es, "devices");
            let zfs_pools = field_strings(es, "zfs_pools");
            let graph_style = field_opt_graph_style(es, "graph_style");
            let fs = vec![
                ("devices", err_of(&devices)),
                ("zfs_pools", err_of(&zfs_pools)),
                ("graph_style", err_of(&graph_style)),
            ];
            proof {
                let ev = entries_view(es@);
                assert(fields_view(fs@) =~= seq![
                    ("devices"@, fail_of(field(ev, "devices"@, |t| toml_strings(t), Some(Seq::empty())))),
                    ("zfs_pools"@, fail_of(field(ev, "zfs_pools"@, |t| toml_strings(t), Some(Seq::empty())))),
                    ("graph_style"@, fail_of(field(ev, "graph_style"@, |t| toml_opt_graph_style(t), Some(None)))),
                ]);
            }
            if let Some(e) = entry_failure_exec(es, TableKind::Disk, &fs) {
                return Err(e);
            }
            let devices = devices?;
            let zfs_pools = zfs_pools?;
            let graph_style = graph_style?;
            Ok(crate::config::DiskOpts { devices, zfs_pools, graph_style })
        },
        _ => Err(err(DecodeErrorKind::InvalidValue, "disk")),
    }
}

fn decode_network_exec(v: &TomlValue) -> (r: Result<crate::config::NetworkOpts, DecodeError>)
    ensures
        match r {
            Ok(o) => decode_network(v@) == Ok::<(Seq<Seq<char>>, Option<GraphStyle>), Failure>(
                (crate::config::strings_model(o.interfaces@), o.graph_style),
            ),
            Err(e) => decode_network(v@) == Err::<(Seq<Seq<char>>, Option<GraphStyle>), Failure>(
                e@,
            ),
        },
{
    match v {
        TomlValue::Table(es) => {
            let interfaces = field_strings(es, "interfaces");
            let graph_style = field_opt_graph_style(es, "graph_style");
            let fs = vec![("interfaces", err_of(&interfaces)), ("graph_style", err_of(&graph_style))];
            proof {
                let ev = entries_view(es@);
                assert(fields_view(fs@) =~= seq![
                    ("interfaces"@, fail_of(field(ev, "interfaces"@, |t| toml_strings(t), Some(Seq::empty())))),
                    ("graph_style"@, fail_of(field(ev, "graph_style"@, |t| toml_opt_graph_style(t), Some(None)))),
                ]);
            }
            if let Some(e) = entry_failure_exec(es, TableKind::Network, &fs) {
                return Err(e);
            }
            let interfaces = interfaces?;
            let graph_style = graph_style?;
            Ok(crate::config::NetworkOpts { interfaces, graph_style })
        },
        _ => Err(err(DecodeErrorKind::InvalidValue, "network")),
    }
}

/// Decode the `[widgets]` table.
pub fn decode_widgets_exec(v: &TomlValue) -> (r: Result<crate::config::Widgets, DecodeError>)
    ensures
        match r {
            Ok(w) => decode_widgets(v@) == Ok::<WidgetsModel, Failure>(w@),
            Err(e) => decode_widgets(v@) == Err::<WidgetsModel, Failure>(e@),
        },
{
    match v {
        TomlValue::Table(es) => {
            proof {
                lemma_entries_view(es@);
            }
            let defaults = crate::config::Widgets::default();
            let cpu = match field_index(es, "cpu") {
                Some(i) => decode_cpu_exec(&es[i].1),
                None => Ok(defaults.cpu),
            };
            let memory = match field_index(es, "memory") {
                Some(i) => decode_memory_exec(&es[i].1),
                None => Ok(defaults.memory),
            };
            let gpu = match field_index(es, "gpu") {
                Some(i) => decode_gpu_exec(&es[i].1),
                None => Ok(defaults.gpu),
            };
            let disk = match field_index(es, "disk") {
                Some(i) => decode_disk_exec(&es[i].1),
                None => Ok(defaults.disk),
            };
            let network = match field_index(es, "network") {
                Some(i) => decode_network_exec(&es[i].1),
                None => Ok(defaults.network),
            };
            let fs = vec![
                ("cpu", err_of(&cpu)),
                ("memory", err_of(&memory)),
                ("gpu", err_of(&gpu)),
                ("disk", err_of(&disk)),
                ("network", err_of(&network)),
            ];
            proof {
                let ev = entries_view(es@);
                assert(fields_view(fs@) =~= seq![
                    ("cpu"@, fail_of(sub_table(ev, "cpu"@, |t| decode_cpu(t), (false, None)))),
                    ("memory"@, fail_of(sub_table(ev, "memory"@, |t| decode_memory(t), (true, true, None)))),
                    ("gpu"@, fail_of(sub_table(ev, "gpu"@, |t| decode_gpu(t), (false, GpuMode::Auto, None)))),
                    ("disk"@, fail_of(
                        sub_table(ev, "disk"@, |t| decode_disk(t), (Seq::empty(), Seq::empty(), None)),
                    )),
                    ("network"@, fail_of(sub_table(ev, "network"@, |t| decode_network(t), (Seq::empty(), None)))),
                ]);
            }
            if let Some(e) = entry_failure_exec(es, TableKind::Widgets, &fs) {
                return Err(e);
            }
            let cpu = cpu?;
            let memory = memory?;
            let gpu = gpu?;
            let disk = disk?;
            let network = network?;
            Ok(crate::config::Widgets { cpu, memory, gpu, disk, network })
        },
        _ => Err(err(DecodeErrorKind::InvalidValue, "widgets")),
    }
}

/// Decode a whole configuration document.
pub fn decode_config_exec(v: &TomlValue) -> (r: Result<crate::config::Config, DecodeError>)
    ensures
        match r {
            Ok(c) => decode_config(v@) == Ok::<ConfigModel, Failure>(c@),
            Err(e) => decode_config(v@) == Err::<ConfigModel, Failure>(e@),
        },
{
    match v {
        TomlValue::Table(es) => {
            proof {
                lemma_entries_view(es@);
            }
            let settings = match field_index(es, "settings") {
                Some(i) => decode_settings_exec(&es[i].1),
                None => Ok(crate::config::Settings::default()),
            };
            let layout = match field_index(es, "layout") {
                Some(i) => decode_split_exec(&es[i].1, "layout"),
                None => Err(err(DecodeErrorKind::MissingField, "layout")),
            };
            let widgets = match field_index(es, "widgets") {
                Some(i) => decode_widgets_exec(&es[i].1),
                None => Ok(crate::config::Widgets::default()),
            };
            let fs = vec![
                ("settings", err_of(&settings)),
                ("layout", err_of(&layout)),
                ("widgets", err_of(&widgets)),
            ];
            proof {
                let ev = entries_view(es@);
                let layout_spec = match lookup(ev, "layout"@) {
                    Some(t) => decode_split(t, "layout"@),
                    None => Err((DecodeErrorKind::MissingField, "layout"@)),
                };
                assert(fields_view(fs@) =~= seq![
                    ("settings"@, fail_of(sub_table(ev, "settings"@, |t| decode_settings(t), default_settings()))),
                    ("layout"@, fail_of(layout_spec)),
                    ("widgets"@, fail_of(sub_table(ev, "widgets"@, |t| decode_widgets(t), default_widgets()))),
                ]);
            }
            if let Some(e) = entry_failure_exec(es, TableKind::Config, &fs) {
                return Err(e);
            }
            let settings = settings?;
            let layout = layout?;
            let widgets = widgets?;
            Ok(crate::config::Config { settings, layout, widgets })
        },
        _ => Err(err(DecodeErrorKind::InvalidValue, "layout")),
    }
}

/// The name a configuration gives each widget kind.
pub open spec fn widget_config_name(k: WidgetKind) -> Seq<char> {
    match k {
        WidgetKind::Cpu => seq!['c', 'p', 'u'],
        WidgetKind::Memory => seq!['m', 'e', 'm', 'o', 'r', 'y'],
        WidgetKind::Gpu => seq!['g', 'p', 'u'],
        WidgetKind::GpuUtil => seq!['g', 'p', 'u', '_', 'u', 't', 'i', 'l'],
        WidgetKind::GpuMemory => seq!['g', 'p', 'u', '_', 'm', 'e', 'm', 'o', 'r', 'y'],
        WidgetKind::GpuPcie => seq!['g', 'p', 'u', '_', 'p', 'c', 'i', 'e'],
        WidgetKind::GpuNvlink => seq!['g', 'p', 'u', '_', 'n', 'v', 'l', 'i', 'n', 'k'],
        WidgetKind::Disk => seq!['d', 'i', 's', 'k'],
        WidgetKind::Network => seq!['n', 'e', 't', 'w', 'o', 'r', 'k'],
    }
}

/// Each widget's name decodes to the widget of that name, and a name decodes
/// to a widget only if it is that widget's name (or `gpu_mem`, the short
/// name of `gpu_memory`).
pub proof fn lemma_widget_names_round_trip(k: WidgetKind, s: Seq<char>)
    ensures
        toml_widget(Toml::Str(widget_config_name(k))) == Some(k),
        toml_widget(Toml::Str(s)) == Some(k) ==> s == widget_config_name(k) || (k
            == WidgetKind::GpuMemory && s == seq!['g', 'p', 'u', '_', 'm', 'e', 'm']),
{
    reveal_strlit("cpu");
    reveal_strlit("memory");
    reveal_strlit("gpu");
    reveal_strlit("gpu_util");
    reveal_strlit("gpu_memory");
    reveal_strlit("gpu_mem");
    reveal_strlit("gpu_pcie");
    reveal_strlit("gpu_nvlink");
    reveal_strlit("disk");
    reveal_strlit("network");
    assert("cpu"@ =~= seq!['c', 'p', 'u']);
    assert("memory"@ =~= seq!['m', 'e', 'm', 'o', 'r', 'y']);
    assert("gpu"@ =~= seq!['g', 'p', 'u']);
    assert("gpu_util"@ =~= seq!['g', 'p', 'u', '_', 'u', 't', 'i', 'l']);
    assert("gpu_memory"@ =~= seq!['g', 'p', 'u', '_', 'm', 'e', 'm', 'o', 'r', 'y']);
    assert("gpu_mem"@ =~= seq!['g', 'p', 'u', '_', 'm', 'e', 'm']);
    assert("gpu_pcie"@ =~= seq!['g', 'p', 'u', '_', 'p', 'c', 'i', 'e']);
    assert("gpu_nvlink"@ =~= seq!['g', 'p', 'u', '_', 'n', 'v', 'l', 'i', 'n', 'k']);
    assert("disk"@ =~= seq!['d', 'i', 's', 'k']);
    assert("network"@ =~= seq!['n', 'e', 't', 'w', 'o', 'r', 'k']);
}

} // verus!
