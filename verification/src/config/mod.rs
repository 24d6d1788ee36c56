pub mod decode;
pub mod load;
pub mod profile;
pub mod value;

use crate::layout::{size_result, Constraint, SizeError};
use crate::text::{eq_ignore_ascii_case_exec, parse_u16_exec, trim};
use vstd::prelude::*;

verus! {

/// A selectable configuration profile: a TOML file of the configuration
/// directory.
#[derive(Debug, Clone, PartialEq, Eq)]
pub struct ProfileInfo {
    pub name: String,
    pub path: String,
}

/// The whole configuration: settings, the layout tree and per-widget options.
#[derive(Debug)]
pub struct Config {
    pub settings: Settings,
    pub layout: Split,
    pub widgets: Widgets,
}

#[derive(Debug)]
pub struct Settings {
    /// Sampling/redraw interval in milliseconds.
    pub update_ms: u64,
    /// History length (samples) retained for graphs.
    pub history: usize,
    pub theme: String,
    pub graph_style: GraphStyle,
}

#[derive(Debug, Clone, Copy, PartialEq, Eq, Structural)]
pub enum GraphStyle {
    Braille,
    Bar,
}

#[derive(Debug, Clone, Copy, PartialEq, Eq, Structural)]
pub enum Direction {
    Horizontal,
    Vertical,
}

/// A split node: lays its children out along `direction`.
#[derive(Debug)]
pub struct Split {
    pub direction: Direction,
    pub children: Vec<Child>,
}

/// One slot inside a split. It is either a widget leaf (`widget = "cpu"`) or a
/// nested split (`split = { .. }`), sized by `size`.
#[derive(Debug)]
pub struct Child {
    pub size: SizeSpec,
    pub widget: Option<WidgetKind>,
    pub split: Option<Split>,
}

#[derive(Debug, Clone, Copy, PartialEq, Eq, Structural)]
pub enum WidgetKind {
    Cpu,
    Memory,
    Gpu,
    GpuUtil,
    GpuMemory,
    GpuPcie,
    GpuNvlink,
    Disk,
    Network,
}

#[derive(Debug, Clone, Copy, PartialEq, Eq, Structural)]
pub enum GpuMode {
    Auto,
    Compact,
    PerDevice,
}

/// A size constraint for a layout slot:
///   - "NN%"            -> percentage of the parent
///   - "fill" / "min"   -> take the remaining space
///   - { length = N }   -> fixed rows/cols
///   - { ratio = [a,b] }-> proportional share
#[derive(Debug, Clone)]
pub enum SizeSpec {
    Keyword(String),
    Length { length: u16 },
    Ratio { ratio: [u32; 2] },
}

#[derive(Debug)]
pub struct Widgets {
    pub cpu: CpuOpts,
    pub memory: MemoryOpts,
    pub gpu: GpuOpts,
    pub disk: DiskOpts,
    pub network: NetworkOpts,
}

#[derive(Debug)]
pub struct CpuOpts {
    /// Accepted for older configurations; the CPU panel always shows the
    /// joint all-core utilization.
    pub show_per_core: bool,
    pub graph_style: Option<GraphStyle>,
}

#[derive(Debug)]
pub struct MemoryOpts {
    /// Show swap usage text and gauge in the memory widget.
    pub show_swap: bool,
    /// Show the instantaneous RAM usage bar above the history graph.
    pub show_usage_bar: bool,
    pub graph_style: Option<GraphStyle>,
}

#[derive(Debug)]
pub struct GpuOpts {
    pub show_per_process: bool,
    pub mode: GpuMode,
    pub graph_style: Option<GraphStyle>,
}

#[derive(Debug)]
pub struct DiskOpts {
    /// Explicit device allow-list. Empty = auto (physical devices only).
    pub devices: Vec<String>,
    /// ZFS pool names to monitor. Empty = auto-detect all imported pools.
    pub zfs_pools: Vec<String>,
    pub graph_style: Option<GraphStyle>,
}

#[derive(Debug)]
pub struct NetworkOpts {
    /// Explicit interface allow-list. Empty = all non-loopback interfaces.
    pub interfaces: Vec<String>,
    pub graph_style: Option<GraphStyle>,
}

/// The default sampling interval, in milliseconds.
pub fn default_update_ms() -> (r: u64)
    ensures
        r == 1000,
{
    1000
}

/// The default number of samples kept for graphs.
pub fn default_history() -> (r: usize)
    ensures
        r == 240,
{
    240
}

/// The default palette's name.
pub fn default_theme() -> (r: String)
    ensures
        r@ == "default"@,
{
    "default".to_owned()
}

pub fn default_true() -> (r: bool)
    ensures
        r,
{
    true
}

impl Default for GraphStyle {
    fn default() -> (g: GraphStyle)
        ensures
            g == GraphStyle::Braille,
    {
        GraphStyle::Braille
    }
}

impl Default for GpuMode {
    fn default() -> (m: GpuMode)
        ensures
            m == GpuMode::Auto,
    {
        GpuMode::Auto
    }
}

impl Default for Settings {
    fn default() -> (s: Settings)
        ensures
            s@ == crate::config::decode::default_settings(),
    {
        Settings {
            update_ms: default_update_ms(),
            history: default_history(),
            theme: default_theme(),
            graph_style: GraphStyle::default(),
        }
    }
}

impl Default for SizeSpec {
    fn default() -> (s: SizeSpec)
        ensures
            size_model(s) == crate::config::decode::default_size(),
    {
        proof {
            reveal_strlit("fill");
        }
        SizeSpec::Keyword("fill".to_owned())
    }
}

impl Default for CpuOpts {
    fn default() -> (o: CpuOpts)
        ensures
            !o.show_per_core,
            o.graph_style is None,
    {
        CpuOpts { show_per_core: false, graph_style: None }
    }
}

impl Default for MemoryOpts {
    fn default() -> (o: MemoryOpts)
        ensures
            o.show_swap,
            o.show_usage_bar,
            o.graph_style is None,
    {
        MemoryOpts { show_swap: default_true(), show_usage_bar: default_true(), graph_style: None }
    }
}

impl Default for GpuOpts {
    fn default() -> (o: GpuOpts)
        ensures
            !o.show_per_process,
            o.mode == GpuMode::Auto,
            o.graph_style is None,
    {
        GpuOpts { show_per_process: false, mode: GpuMode::Auto, graph_style: None }
    }
}

impl Default for DiskOpts {
    fn default() -> (o: DiskOpts)
        ensures
            o.devices@.len() == 0,
            o.zfs_pools@.len() == 0,
            o.graph_style is None,
    {
        DiskOpts { devices: Vec::new(), zfs_pools: Vec::new(), graph_style: None }
    }
}

impl Default for NetworkOpts {
    fn default() -> (o: NetworkOpts)
        ensures
            o.interfaces@.len() == 0,
            o.graph_style is None,
    {
        NetworkOpts { interfaces: Vec::new(), graph_style: None }
    }
}

impl Default for Widgets {
    fn default() -> (w: Widgets)
        ensures
            w@ == crate::config::decode::default_widgets(),
    {
        let w = Widgets {
            cpu: CpuOpts::default(),
            memory: MemoryOpts::default(),
            gpu: GpuOpts::default(),
            disk: DiskOpts::default(),
            network: NetworkOpts::default(),
        };
        proof {
            assert(strings_model(w.disk.devices@) =~= Seq::<Seq<char>>::empty());
            assert(strings_model(w.disk.zfs_pools@) =~= Seq::<Seq<char>>::empty());
            assert(strings_model(w.network.interfaces@) =~= Seq::<Seq<char>>::empty());
        }
        w
    }
}

/// Why a layout tree is refused.
#[derive(Debug, Clone, Copy, PartialEq, Eq, Structural)]
pub enum LayoutError {
    /// A child sets both `widget` and `split`.
    WidgetAndSplit,
    /// A child sets neither `widget` nor `split`.
    NeitherWidgetNorSplit,
    /// A split has no children.
    EmptySplit,
}

impl LayoutError {
    /// The explanation shown to the user.
    pub fn message(&self) -> (m: &'static str)
        ensures
            m@ == match self {
                LayoutError::WidgetAndSplit => "a layout child cannot set both `widget` and `split`"@,
                LayoutError::NeitherWidgetNorSplit => "a layout child must set either `widget` or `split`"@,
                LayoutError::EmptySplit => "layout split has no children"@,
            },
    {
        match self {
            LayoutError::WidgetAndSplit => "a layout child cannot set both `widget` and `split`",
            LayoutError::NeitherWidgetNorSplit => "a layout child must set either `widget` or `split`",
            LayoutError::EmptySplit => "layout split has no children",
        }
    }
}

/// The error of a single child, looking at that child alone.
pub open spec fn child_error(c: Child) -> Option<LayoutError> {
    if c.widget is Some && c.split is Some {
        Some(LayoutError::WidgetAndSplit)
    } else if c.widget is None && c.split is None {
        Some(LayoutError::NeitherWidgetNorSplit)
    } else {
        None
    }
}

/// The first error met when walking the tree depth first, children in order.
pub open spec fn split_error(s: Split) -> Option<LayoutError>
    decreases s, 0int,
{
    if s.children@.len() == 0 {
        Some(LayoutError::EmptySplit)
    } else {
        proof {
            assert(decreases_to!(s => s.children));
            assert(decreases_to!(s.children => s.children@));
        }
        children_error(s.children@)
    }
}

/// The first error among `cs`, each child checked before the split it nests.
pub open spec fn children_error(cs: Seq<Child>) -> Option<LayoutError>
    decreases cs, 0int,
{
    if cs.len() == 0 {
        None
    } else {
        proof {
            assert(decreases_to!(cs => cs[0]));
            assert(decreases_to!(cs => cs.subrange(1, cs.len() as int)));
        }
        match child_error(cs[0]) {
            Some(e) => Some(e),
            None => match cs[0].split {
                Some(n) => match split_error(n) {
                    Some(e) => Some(e),
                    None => children_error(cs.subrange(1, cs.len() as int)),
                },
                None => children_error(cs.subrange(1, cs.len() as int)),
            },
        }
    }
}

/// Every split of the tree has children, and every child sets exactly one of
/// `widget` and `split`.
pub open spec fn layout_valid(s: Split) -> bool
    decreases s, 0int,
{
    proof {
        assert(decreases_to!(s => s.children));
        assert(decreases_to!(s.children => s.children@));
    }
    s.children@.len() > 0 && children_valid(s.children@)
}

pub open spec fn children_valid(cs: Seq<Child>) -> bool
    decreases cs, 0int,
{
    if cs.len() == 0 {
        true
    } else {
        proof {
            assert(decreases_to!(cs => cs[0]));
            assert(decreases_to!(cs => cs.subrange(1, cs.len() as int)));
        }
        &&& (cs[0].widget is Some) != (cs[0].split is Some)
        &&& (cs[0].split matches Some(n) ==> layout_valid(n))
        &&& children_valid(cs.subrange(1, cs.len() as int))
    }
}

/// A layout tree is accepted exactly when every split has children and every
/// child sets exactly one of `widget` and `split`.
pub proof fn lemma_layout_valid_iff_no_error(s: Split)
    ensures
        layout_valid(s) <==> split_error(s) is None,
    decreases s, 1int,
{
    assert(decreases_to!(s => s.children));
    assert(decreases_to!(s.children => s.children@));
    lemma_children_valid_iff_no_error(s.children@);
}

pub proof fn lemma_children_valid_iff_no_error(cs: Seq<Child>)
    ensures
        children_valid(cs) <==> children_error(cs) is None,
    decreases cs, 1int,
{
    if cs.len() > 0 {
        assert(decreases_to!(cs => cs[0]));
        assert(decreases_to!(cs => cs.subrange(1, cs.len() as int)));
        lemma_children_valid_iff_no_error(cs.subrange(1, cs.len() as int));
        if let Some(n) = cs[0].split {
            assert(decreases_to!(cs[0] => cs[0].split));
            lemma_layout_valid_iff_no_error(n);
        }
    }
}

impl Child {
    /// A child must set exactly one of `widget` and `split`.
    pub fn validate(&self) -> (r: Result<(), LayoutError>)
        ensures
            r == match child_error(*self) {
                Some(e) => Err::<(), LayoutError>(e),
                None => Ok(()),
            },
    {
        match (&self.widget, &self.split) {
            (Some(_), Some(_)) => Err(LayoutError::WidgetAndSplit),
            (None, None) => Err(LayoutError::NeitherWidgetNorSplit),
            _ => Ok(()),
        }
    }
}

impl Config {
    /// Check the configuration's layout tree.
    pub fn validate(&self) -> (r: Result<(), LayoutError>)
        ensures
            r == match split_error(self.layout) {
                Some(e) => Err::<(), LayoutError>(e),
                None => Ok(()),
            },
    {
        validate_split(&self.layout)
    }
}

/// Check a layout tree: every split has children and every child sets exactly
/// one of `widget` and `split`. Reports the first problem met depth first.
pub fn validate_split(split: &Split) -> (r: Result<(), LayoutError>)
    ensures
        r == match split_error(*split) {
            Some(e) => Err::<(), LayoutError>(e),
            None => Ok(()),
        },
    decreases split,
{
    if split.children.len() == 0 {
        return Err(LayoutError::EmptySplit);
    }
    let n = split.children.len();
    let mut i: usize = 0;
    proof {
        assert(split.children@.subrange(0, n as int) == split.children@);
    }
    while i < n
        invariant
            n == split.children@.len(),
            i <= n,
            n > 0,
            split_error(*split) == children_error(split.children@.subrange(i as int, n as int)),
        decreases n - i,
    {
        let ghost rest = split.children@.subrange(i as int, n as int);
        let child = &split.children[i];
        proof {
            assert(rest[0] == *child);
            assert(rest.subrange(1, rest.len() as int) =~= split.children@.subrange(
                i + 1,
                n as int,
            ));
        }
        child.validate()?;
        if let Some(nested) = &child.split {
            proof {
                assert(decreases_to!(*split => split.children));
                assert(decreases_to!(split.children => split.children@));
                assert(decreases_to!(split.children@ => split.children@[i as int]));
                assert(decreases_to!(split.children@[i as int] => split.children@[i as int].split));
            }
            validate_split(nested)?;
        }
        i = i + 1;
    }
    Ok(())
}


impl SizeSpec {
    /// The layout constraint of a size: `Length`, `Ratio`, or from the keyword
    /// `"NN%"` (a percentage), `"fill"` or `"min"` (any case, surrounding
    /// whitespace ignored).
    pub fn to_constraint(&self) -> (r: Result<Constraint, SizeError>)
        ensures
            match r {
                Ok(c) => size_result(*self) == Ok::<Constraint, (bool, Seq<char>)>(c),
                Err(e) => size_result(*self) == Err::<Constraint, (bool, Seq<char>)>(e@),
            },
    {
        match self {
            SizeSpec::Length { length } => Ok(Constraint::Length(*length)),
            SizeSpec::Ratio { ratio } => Ok(Constraint::Ratio(ratio[0], ratio[1])),
            SizeSpec::Keyword(k) => {
                let k = trim(k.as_str());
                let n = k.unicode_len();
                proof {
                    reveal_strlit("fill");
                    reveal_strlit("min");
                }
                if n > 0 && k.get_char(n - 1) == '%' {
                    let pct = trim(k.substring_char(0, n - 1));
                    match parse_u16_exec(pct) {
                        Some(v) => Ok(Constraint::Percentage(v)),
                        None => Err(SizeError::InvalidPercentage(k.to_owned())),
                    }
                } else if eq_ignore_ascii_case_exec(k, "fill") || eq_ignore_ascii_case_exec(k, "min") {
                    Ok(Constraint::Fill(1))
                } else {
                    Err(SizeError::InvalidKeyword(k.to_owned()))
                }
            },
        }
    }
}


/// The model of a size.
pub enum SizeModel {
    Keyword(Seq<char>),
    Length(u16),
    Ratio(u32, u32),
}

pub open spec fn size_model(s: SizeSpec) -> SizeModel {
    match s {
        SizeSpec::Keyword(k) => SizeModel::Keyword(k@),
        SizeSpec::Length { length } => SizeModel::Length(length),
        SizeSpec::Ratio { ratio } => SizeModel::Ratio(ratio@[0], ratio@[1]),
    }
}

/// The model of a layout child.
pub struct ChildModel {
    pub size: SizeModel,
    pub widget: Option<WidgetKind>,
    pub split: Option<SplitModel>,
}

/// The model of a layout split.
pub struct SplitModel {
    pub direction: Direction,
    pub children: Seq<ChildModel>,
}

pub open spec fn split_model(s: Split) -> SplitModel
    decreases s, 1int,
{
    proof {
        assert(decreases_to!(s => s.children));
        assert(decreases_to!(s.children => s.children@));
    }
    SplitModel { direction: s.direction, children: children_model(s.children@) }
}

pub open spec fn children_model(cs: Seq<Child>) -> Seq<ChildModel>
    decreases cs, 0int,
{
    if cs.len() == 0 {
        Seq::empty()
    } else {
        proof {
            assert(decreases_to!(cs => cs[cs.len() - 1]));
            assert(decreases_to!(cs => cs.subrange(0, cs.len() - 1)));
        }
        let c = cs[cs.len() - 1];
        children_model(cs.subrange(0, cs.len() - 1)).push(
            ChildModel {
                size: size_model(c.size),
                widget: c.widget,
                split: match c.split {
                    Some(n) => Some(split_model(n)),
                    None => None,
                },
            },
        )
    }
}

/// The model of a list of children is taken child by child.
pub proof fn lemma_children_model(cs: Seq<Child>)
    ensures
        children_model(cs).len() == cs.len(),
        forall|i: int|
            0 <= i < cs.len() ==> #[trigger] children_model(cs)[i] == (ChildModel {
                size: size_model(cs[i].size),
                widget: cs[i].widget,
                split: match cs[i].split {
                    Some(n) => Some(split_model(n)),
                    None => None,
                },
            }),
    decreases cs.len(),
{
    if cs.len() > 0 {
        lemma_children_model(cs.subrange(0, cs.len() - 1));
    }
}

impl View for Split {
    type V = SplitModel;

    open spec fn view(&self) -> SplitModel {
        split_model(*self)
    }
}

/// The model of the settings.
pub struct SettingsModel {
    pub update_ms: u64,
    pub history: usize,
    pub theme: Seq<char>,
    pub graph_style: GraphStyle,
}

impl View for Settings {
    type V = SettingsModel;

    open spec fn view(&self) -> SettingsModel {
        SettingsModel {
            update_ms: self.update_ms,
            history: self.history,
            theme: self.theme@,
            graph_style: self.graph_style,
        }
    }
}

/// The views of a list of strings.
pub open spec fn strings_model(v: Seq<String>) -> Seq<Seq<char>> {
    v.map_values(|s: String| s@)
}

/// The model of the per-widget options.
pub struct WidgetsModel {
    pub cpu_show_per_core: bool,
    pub cpu_graph_style: Option<GraphStyle>,
    pub memory_show_swap: bool,
    pub memory_show_usage_bar: bool,
    pub memory_graph_style: Option<GraphStyle>,
    pub gpu_show_per_process: bool,
    pub gpu_mode: GpuMode,
    pub gpu_graph_style: Option<GraphStyle>,
    pub disk_devices: Seq<Seq<char>>,
    pub disk_zfs_pools: Seq<Seq<char>>,
    pub disk_graph_style: Option<GraphStyle>,
    pub network_interfaces: Seq<Seq<char>>,
    pub network_graph_style: Option<GraphStyle>,
}

impl View for Widgets {
    type V = WidgetsModel;

    open spec fn view(&self) -> WidgetsModel {
        WidgetsModel {
            cpu_show_per_core: self.cpu.show_per_core,
            cpu_graph_style: self.cpu.graph_style,
            memory_show_swap: self.memory.show_swap,
            memory_show_usage_bar: self.memory.show_usage_bar,
            memory_graph_style: self.memory.graph_style,
            gpu_show_per_process: self.gpu.show_per_process,
            gpu_mode: self.gpu.mode,
            gpu_graph_style: self.gpu.graph_style,
            disk_devices: strings_model(self.disk.devices@),
            disk_zfs_pools: strings_model(self.disk.zfs_pools@),
            disk_graph_style: self.disk.graph_style,
            network_interfaces: strings_model(self.network.interfaces@),
            network_graph_style: self.network.graph_style,
        }
    }
}

/// The model of a whole configuration.
pub struct ConfigModel {
    pub settings: SettingsModel,
    pub layout: SplitModel,
    pub widgets: WidgetsModel,
}

impl View for Config {
    type V = ConfigModel;

    open spec fn view(&self) -> ConfigModel {
        ConfigModel { settings: self.settings@, layout: self.layout@, widgets: self.widgets@ }
    }
}

} // verus!
