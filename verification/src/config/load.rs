use crate::config::decode::{decode_config, decode_config_exec, DecodeError, Failure};
use crate::config::value::{
    keys_unique, lemma_merge_entries_lookup, lookup, merge, merge_entries, merge_value,
    parse_document, toml_document, Entry, Toml,
};
use crate::config::{
    children_error, children_model, lemma_children_model, split_error, split_model,
    Child, ChildModel, Config, ConfigModel, LayoutError, Split, SplitModel,
};
use vstd::prelude::*;

verus! {

/// The built-in configuration. Every key a profile leaves out is taken from
/// here.
pub const DEFAULT_CONFIG: &'static str = "[settings]
update_ms = 1000   # sampling + redraw interval
history   = 240    # samples kept for graphs
theme     = \"default\"   # or \"mono\"
graph_style = \"braille\" # braille / bar

[layout]
direction = \"vertical\"
children = [
  { size = \"58%\", split = { direction = \"horizontal\", children = [
      { size = \"50%\", split = { direction = \"vertical\", children = [
          { size = \"50%\", widget = \"cpu\" },
          { size = \"50%\", widget = \"memory\" },
      ] } },
      { size = \"50%\", split = { direction = \"vertical\", children = [
          { size = \"50%\", widget = \"gpu_util\" },
          { size = \"50%\", widget = \"gpu_memory\" },
      ] } },
  ] } },
  { size = \"fill\", split = { direction = \"horizontal\", children = [
      { size = \"50%\", widget = \"network\" },
      { size = \"50%\", widget = \"disk\" },
  ] } },
]

[widgets.disk]
devices = []            # empty = auto (physical devices only)
zfs_pools = []          # empty = auto-detect imported ZFS pools
graph_style = \"bar\"     # override global graph_style

[widgets.network]
interfaces = []         # empty = all non-loopback interfaces
graph_style = \"bar\"     # override global graph_style
";

/// Why a configuration could not be loaded.
#[derive(Debug)]
pub enum ConfigError {
    /// The built-in configuration is not a TOML document.
    DefaultInvalid(toml::de::Error),
    /// The profile's text is not a TOML document.
    Parse(toml::de::Error),
    /// The merged document does not describe a configuration.
    Decode(DecodeError),
    /// The layout tree is refused.
    Layout(LayoutError),
}

/// The model of a load failure.
pub enum LoadFailure {
    DefaultInvalid,
    Parse,
    Decode(Failure),
    Layout(LayoutError),
}

impl View for ConfigError {
    type V = LoadFailure;

    open spec fn view(&self) -> LoadFailure {
        match self {
            ConfigError::DefaultInvalid(_) => LoadFailure::DefaultInvalid,
            ConfigError::Parse(_) => LoadFailure::Parse,
            ConfigError::Decode(e) => LoadFailure::Decode(e@),
            ConfigError::Layout(e) => LoadFailure::Layout(*e),
        }
    }
}

/// The first layout error of a split model, walking depth first.
pub open spec fn model_split_error(s: SplitModel) -> Option<LayoutError>
    decreases s, 0int,
{
    if s.children.len() == 0 {
        Some(LayoutError::EmptySplit)
    } else {
        proof {
            assert(decreases_to!(s => s.children));
        }
        model_children_error(s.children)
    }
}

pub open spec fn model_children_error(cs: Seq<ChildModel>) -> Option<LayoutError>
    decreases cs, 0int,
{
    if cs.len() == 0 {
        None
    } else {
        proof {
            assert(decreases_to!(cs => cs[0]));
            assert(decreases_to!(cs => cs.subrange(1, cs.len() as int)));
        }
        if cs[0].widget is Some && cs[0].split is Some {
            Some(LayoutError::WidgetAndSplit)
        } else if cs[0].widget is None && cs[0].split is None {
            Some(LayoutError::NeitherWidgetNorSplit)
        } else {
            match cs[0].split {
                Some(n) => match model_split_error(n) {
                    Some(e) => Some(e),
                    None => model_children_error(cs.subrange(1, cs.len() as int)),
                },
                None => model_children_error(cs.subrange(1, cs.len() as int)),
            }
        }
    }
}

/// Checking a layout tree gives the same answer on its model.
pub proof fn lemma_split_error_model(s: Split)
    ensures
        split_error(s) == model_split_error(split_model(s)),
    decreases s, 1int,
{
    assert(decreases_to!(s => s.children));
    assert(decreases_to!(s.children => s.children@));
    lemma_children_model(s.children@);
    lemma_children_error_model(s.children@);
}

pub proof fn lemma_children_error_model(cs: Seq<Child>)
    ensures
        children_error(cs) == model_children_error(children_model(cs)),
    decreases cs, 1int,
{
    lemma_children_model(cs);
    if cs.len() > 0 {
        assert(decreases_to!(cs => cs[0]));
        assert(decreases_to!(cs => cs.subrange(1, cs.len() as int)));
        let rest = cs.subrange(1, cs.len() as int);
        lemma_children_model(rest);
        assert(children_model(cs).subrange(1, cs.len() as int) =~= children_model(rest));
        lemma_children_error_model(rest);
        if let Some(n) = cs[0].split {
            assert(decreases_to!(cs[0] => cs[0].split));
            lemma_split_error_model(n);
        }
    }
}

/// A parsed document as a configuration: decoded, then its layout checked.
pub open spec fn config_from_document(d: crate::config::value::Toml) -> Result<
    ConfigModel,
    LoadFailure,
> {
    match decode_config(d) {
        Err(e) => Err(LoadFailure::Decode(e)),
        Ok(m) => match model_split_error(m.layout) {
            Some(e) => Err(LoadFailure::Layout(e)),
            None => Ok(m),
        },
    }
}

/// The configuration loaded from the built-in text `default` and, where the
/// profile file exists, its text `profile`: the profile is merged over the
/// built-in document key by key.
pub open spec fn load_model(default: Seq<char>, profile: Option<Seq<char>>) -> Result<
    ConfigModel,
    LoadFailure,
> {
    match toml_document(default) {
        None => Err(LoadFailure::DefaultInvalid),
        Some(base) => match profile {
            None => config_from_document(base),
            Some(text) => match toml_document(text) {
                None => Err(LoadFailure::Parse),
                Some(over) => config_from_document(merge(base, over)),
            },
        },
    }
}

/// A profile that leaves out one of the top-level tables (`settings`,
/// `layout`, `widgets`) keeps the built-in one: where the merged document and
/// the built-in one both load, that part of the configuration is the
/// built-in one.
pub proof fn lemma_omitted_tables_keep_defaults(b: Seq<Entry>, o: Seq<Entry>)
    requires
        keys_unique(o),
    ensures
        match (
            config_from_document(merge(Toml::Table(b), Toml::Table(o))),
            config_from_document(Toml::Table(b)),
        ) {
            (Ok(m), Ok(d)) => {
                &&& lookup(o, "settings"@) is None ==> m.settings == d.settings
                &&& lookup(o, "layout"@) is None ==> m.layout == d.layout
                &&& lookup(o, "widgets"@) is None ==> m.widgets == d.widgets
            },
            _ => true,
        },
{
    lemma_merge_entries_lookup(b, o, "settings"@);
    lemma_merge_entries_lookup(b, o, "layout"@);
    lemma_merge_entries_lookup(b, o, "widgets"@);
    assert(merge(Toml::Table(b), Toml::Table(o)) == Toml::Table(merge_entries(b, o)));
}

pub open spec fn opt_view(t: Option<&str>) -> Option<Seq<char>> {
    match t {
        Some(s) => Some(s@),
        None => None,
    }
}

impl Config {
    /// Load a configuration from the text of a profile file, or from the
    /// built-in configuration alone when the file does not exist.
    pub fn load_profile(profile_text: Option<&str>) -> (r: Result<Config, ConfigError>)
        ensures
            match r {
                Ok(c) => load_model(DEFAULT_CONFIG@, opt_view(profile_text)) == Ok::<
                    ConfigModel,
                    LoadFailure,
                >(c@),
                Err(e) => load_model(DEFAULT_CONFIG@, opt_view(profile_text)) == Err::<
                    ConfigModel,
                    LoadFailure,
                >(e@),
            },
    {
        let base = match parse_document(DEFAULT_CONFIG) {
            Ok(v) => v,
            Err(e) => {
                return Err(ConfigError::DefaultInvalid(e));
            },
        };
        let doc = match profile_text {
            None => base,
            Some(text) => match parse_document(text) {
                Ok(over) => merge_value(base, over),
                Err(e) => {
                    return Err(ConfigError::Parse(e));
                },
            },
        };
        let config = match decode_config_exec(&doc) {
            Ok(c) => c,
            Err(e) => {
                return Err(ConfigError::Decode(e));
            },
        };
        proof {
            lemma_split_error_model(config.layout);
        }
        match config.validate() {
            Ok(()) => Ok(config),
            Err(e) => Err(ConfigError::Layout(e)),
        }
    }

    /// Load the active profile: the text of the file that `selected.toml`
    /// points to (or of `default.toml`), where it exists.
    pub fn load_active(active_text: Option<&str>) -> (r: Result<Config, ConfigError>)
        ensures
            match r {
                Ok(c) => load_model(DEFAULT_CONFIG@, opt_view(active_text)) == Ok::<
                    ConfigModel,
                    LoadFailure,
                >(c@),
                Err(e) => load_model(DEFAULT_CONFIG@, opt_view(active_text)) == Err::<
                    ConfigModel,
                    LoadFailure,
                >(e@),
            },
    {
        Config::load_profile(active_text)
    }

    /// Load the configuration at startup: the active profile.
    pub fn load(active_text: Option<&str>) -> (r: Result<Config, ConfigError>)
        ensures
            match r {
                Ok(c) => load_model(DEFAULT_CONFIG@, opt_view(active_text)) == Ok::<
                    ConfigModel,
                    LoadFailure,
                >(c@),
                Err(e) => load_model(DEFAULT_CONFIG@, opt_view(active_text)) == Err::<
                    ConfigModel,
                    LoadFailure,
                >(e@),
            },
    {
        Config::load_active(active_text)
    }
}

} // verus!
