//! The settings of the tracker and the filter for ignored keys.

use vstd::prelude::*;

use crate::capture::{KeyEvent, KeyType};

verus! {

/// All settings, section by section.
#[derive(Debug, Clone)]
pub struct Config {
    pub capture: CaptureConfig,
    pub stats: StatsConfig,
    pub storage: StorageConfig,
    pub heatmap: HeatmapConfig,
}

/// What is captured.
#[derive(Debug, Clone)]
pub struct CaptureConfig {
    /// Names of the keys that are not tracked.
    pub ignore_keys: Vec<String>,
    /// Whether modifier keys are not tracked.
    pub ignore_lone_modifiers: bool,
    /// The tokenizer's gap threshold in milliseconds.
    pub token_gap_threshold: u64,
}

/// How the live statistics are kept.
#[derive(Debug, Clone, Copy, PartialEq, Eq, Structural)]
pub struct StatsConfig {
    /// The length of the rolling window in seconds.
    pub apm_window_secs: u64,
    pub milestones_enabled: bool,
}

/// Where and how long data is kept.
#[derive(Debug, Clone)]
pub struct StorageConfig {
    /// Where the data is kept; the platform's place where this is absent.
    pub data_dir: Option<String>,
    pub retention_days: u32,
    pub aggregate_after_days: u32,
}

/// How the heatmap is drawn.
#[derive(Debug, Clone)]
pub struct HeatmapConfig {
    pub color_scheme: String,
    pub show_labels: bool,
}

/// The texts of a list of strings.
pub open spec fn texts(list: Seq<String>) -> Seq<Seq<char>> {
    Seq::new(list.len(), |i: int| list[i]@)
}

/// The keys that are ignored unless the settings say otherwise.
pub open spec fn default_ignore_keys_spec() -> Seq<Seq<char>> {
    seq!["CapsLock"@, "NumLock"@, "ScrollLock"@]
}

/// The keys that are ignored unless the settings say otherwise.
pub fn default_ignore_keys() -> (keys: Vec<String>)
    ensures
        texts(keys@) == default_ignore_keys_spec(),
{
    let mut keys: Vec<String> = Vec::new();
    keys.push(String::from_str("CapsLock"));
    keys.push(String::from_str("NumLock"));
    keys.push(String::from_str("ScrollLock"));
    assert(texts(keys@) =~= default_ignore_keys_spec());
    keys
}

/// The default of every switch: on.
pub fn default_true() -> (value: bool)
    ensures
        value,
{
    true
}

/// The default gap threshold of the tokenizer, in milliseconds.
pub fn default_gap_threshold() -> (millis: u64)
    ensures
        millis == 500,
{
    500
}

/// The default length of the rolling window, in seconds.
pub fn default_apm_window() -> (secs: u64)
    ensures
        secs == 60,
{
    60
}

/// The default number of days that data is kept.
pub fn default_retention_days() -> (days: u32)
    ensures
        days == 365,
{
    365
}

/// The default number of days after which data is aggregated.
pub fn default_aggregate_days() -> (days: u32)
    ensures
        days == 30,
{
    30
}

/// The default colour scheme of the heatmap.
pub fn default_color_scheme() -> (scheme: String)
    ensures
        scheme@ == "heat"@,
{
    String::from_str("heat")
}

impl Config {
    /// Whether every setting has its default value.
    pub open spec fn is_default(self) -> bool {
        &&& texts(self.capture.ignore_keys@) == default_ignore_keys_spec()
        &&& self.capture.ignore_lone_modifiers
        &&& self.capture.token_gap_threshold == 500
        &&& self.stats.apm_window_secs == 60
        &&& self.stats.milestones_enabled
        &&& self.storage.data_dir is None
        &&& self.storage.retention_days == 365
        &&& self.storage.aggregate_after_days == 30
        &&& self.heatmap.color_scheme@ == "heat"@
        &&& self.heatmap.show_labels
    }

    /// The data directory: the configured one, else the platform's, else the
    /// current directory.
    pub open spec fn data_dir_spec(self, platform_dir: Option<String>) -> Seq<char> {
        match self.storage.data_dir {
            Some(dir) => dir@,
            None => match platform_dir {
                Some(dir) => dir@,
                None => "."@,
            },
        }
    }

    /// Resolves the data directory. `platform_dir` is the place the platform
    /// offers for application data, where it offers one.
    pub fn data_dir(&self, platform_dir: Option<String>) -> (dir: String)
        ensures
            dir@ == self.data_dir_spec(platform_dir),
    {
        match &self.storage.data_dir {
            Some(dir) => dir.clone(),
            None => match platform_dir {
                Some(dir) => dir,
                None => String::from_str("."),
            },
        }
    }
}

impl Default for Config {
    fn default() -> (config: Config)
        ensures
            config.is_default(),
    {
        Config {
            capture: CaptureConfig {
                ignore_keys: default_ignore_keys(),
                ignore_lone_modifiers: true,
                token_gap_threshold: default_gap_threshold(),
            },
            stats: StatsConfig { apm_window_secs: default_apm_window(), milestones_enabled: true },
            storage: StorageConfig {
                data_dir: None,
                retention_days: default_retention_days(),
                aggregate_after_days: default_aggregate_days(),
            },
            heatmap: HeatmapConfig { color_scheme: default_color_scheme(), show_labels: true },
        }
    }
}

/// Which keys are left out of the tracking.
pub struct IgnoreFilter {
    ignored_keys: Vec<String>,
    ignore_lone_modifiers: bool,
}

/// What a filter holds, as plain values.
pub struct IgnoreFilterView {
    pub ignored_keys: Seq<Seq<char>>,
    pub ignore_lone_modifiers: bool,
}

impl View for IgnoreFilter {
    type V = IgnoreFilterView;

    closed spec fn view(&self) -> IgnoreFilterView {
        IgnoreFilterView {
            ignored_keys: texts(self.ignored_keys@),
            ignore_lone_modifiers: self.ignore_lone_modifiers,
        }
    }
}

impl IgnoreFilterView {
    /// A key is ignored where its name is on the list, and every modifier
    /// key is where lone modifiers are ignored.
    pub open spec fn ignores(self, key: KeyType) -> bool {
        ||| self.ignored_keys.contains(key.name_spec())
        ||| (self.ignore_lone_modifiers && key is Modifier)
    }
}

impl IgnoreFilter {
    /// The filter that the settings describe.
    pub fn from_config(config: &Config) -> (filter: IgnoreFilter)
        ensures
            filter@ == (IgnoreFilterView {
                ignored_keys: texts(config.capture.ignore_keys@),
                ignore_lone_modifiers: config.capture.ignore_lone_modifiers,
            }),
    {
        let mut ignored_keys: Vec<String> = Vec::new();
        let mut i: usize = 0;
        while i < config.capture.ignore_keys.len()
            invariant
                i <= config.capture.ignore_keys.len(),
                texts(ignored_keys@) == texts(config.capture.ignore_keys@).take(i as int),
            decreases config.capture.ignore_keys.len() - i,
        {
            let ghost before = texts(ignored_keys@);
            ignored_keys.push(config.capture.ignore_keys[i].clone());
            assert(texts(ignored_keys@) == before.push(config.capture.ignore_keys@[i as int]@));
            i += 1;
        }
        assert(texts(config.capture.ignore_keys@).take(config.capture.ignore_keys.len() as int)
            == texts(config.capture.ignore_keys@));
        IgnoreFilter {
            ignored_keys,
            ignore_lone_modifiers: config.capture.ignore_lone_modifiers,
        }
    }

    /// Whether the key of the event is left out of the tracking.
    pub fn should_ignore(&self, event: &KeyEvent) -> (ignore: bool)
        ensures
            ignore == self@.ignores(event.key_type),
    {
        let key_name = event.key_type.name();
        let mut i: usize = 0;
        while i < self.ignored_keys.len()
            invariant
                i <= self.ignored_keys.len(),
                key_name@ == event.key_type.name_spec(),
                forall|k: int| 0 <= k < i ==> texts(self.ignored_keys@)[k] != key_name@,
            decreases self.ignored_keys.len() - i,
        {
            if self.ignored_keys[i] == key_name {
                assert(texts(self.ignored_keys@)[i as int] == key_name@);
                return true;
            }
            i += 1;
        }
        if self.ignore_lone_modifiers {
            match event.key_type {
                KeyType::Modifier(_) => {
                    return true;
                },
                _ => {},
            }
        }
        false
    }
}

} // verus!
