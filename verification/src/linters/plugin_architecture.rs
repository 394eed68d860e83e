//! Linter plugins: the built-in markdownlint plugin and the manager that registers,
//! enables and consults plugins.
use std::collections::HashMap;
use vstd::prelude::*;
use crate::analysis::{MatchModel, RuleMatch, matches_model};
use crate::linters::markdownlint::{MarkdownlintHandler, md_extract_lines};
use crate::linters::{push_str, strings_model};
use crate::text::{has_sub, str_contains, trimmed_lines};

verus! {

/// Plugin metadata.
#[derive(Debug)]
pub struct PluginMetadata {
    /// Plugin name
    pub name: String,
    /// Plugin version string
    pub version: String,
    /// Plugin author
    pub author: String,
    /// Short description
    pub description: String,
    /// Associated linter name
    pub linter_name: String,
    /// Supported configuration formats
    pub supported_formats: Vec<String>,
    /// Required dependencies
    pub dependencies: Vec<String>,
}

/// The mathematical content of [`PluginMetadata`].
pub struct MetadataModel {
    pub name: Seq<char>,
    pub version: Seq<char>,
    pub author: Seq<char>,
    pub description: Seq<char>,
    pub linter_name: Seq<char>,
    pub supported_formats: Seq<Seq<char>>,
    pub dependencies: Seq<Seq<char>>,
}

impl View for PluginMetadata {
    type V = MetadataModel;

    open spec fn view(&self) -> MetadataModel {
        MetadataModel {
            name: self.name@,
            version: self.version@,
            author: self.author@,
            description: self.description@,
            linter_name: self.linter_name@,
            supported_formats: strings_model(self.supported_formats@),
            dependencies: strings_model(self.dependencies@),
        }
    }
}

impl PluginMetadata {
    /// A copy of the metadata.
    pub fn copy(&self) -> (r: PluginMetadata)
        ensures
            r@ == self@,
    {
        PluginMetadata {
            name: self.name.clone(),
            version: self.version.clone(),
            author: self.author.clone(),
            description: self.description.clone(),
            linter_name: self.linter_name.clone(),
            supported_formats: crate::config::conflict_resolution::copy_strings(&self.supported_formats),
            dependencies: crate::config::conflict_resolution::copy_strings(&self.dependencies),
        }
    }
}

/// Plugin configuration.
#[derive(Debug)]
pub struct PluginConfig {
    /// Whether the plugin is enabled
    pub enabled: bool,
    /// Plugin priority for ordering
    pub priority: u32,
    /// Arbitrary settings, each a JSON value by name
    pub settings: HashMap<String, serde_json::Value>,
}

/// The mathematical content of a [`PluginConfig`].
pub struct PluginConfigModel {
    pub enabled: bool,
    pub priority: u32,
    pub settings: Map<String, serde_json::Value>,
}

impl View for PluginConfig {
    type V = PluginConfigModel;

    open spec fn view(&self) -> PluginConfigModel {
        PluginConfigModel { enabled: self.enabled, priority: self.priority, settings: self.settings@ }
    }
}

impl PluginConfig {
    /// A copy of the configuration.
    pub fn copy(&self) -> (r: PluginConfig)
        ensures
            r@ == self@,
    {
        PluginConfig { enabled: self.enabled, priority: self.priority, settings: self.settings.clone() }
    }
}

/// The metadata of a plugin with the given description.
pub open spec fn markdownlint_metadata(description: Seq<char>, formats: Seq<Seq<char>>) -> MetadataModel {
    MetadataModel {
        name: "markdownlint"@,
        version: "1.0.0"@,
        author: "Sandbag Team"@,
        description,
        linter_name: "markdownlint"@,
        supported_formats: formats,
        dependencies: Seq::empty(),
    }
}

/// Metadata of the markdownlint plugin.
pub open spec fn plugin_metadata() -> MetadataModel {
    markdownlint_metadata("Markdownlint support plugin"@, seq!["json"@, "yaml"@, "yml"@])
}

/// Metadata the built-in plugin factory reports.
pub open spec fn factory_metadata() -> MetadataModel {
    markdownlint_metadata("Built-in markdownlint plugin"@, seq!["json"@, "yaml"@])
}

/// The configuration a plugin starts with: enabled, priority 100, no settings.
pub open spec fn default_plugin_config() -> PluginConfigModel {
    PluginConfigModel { enabled: true, priority: 100, settings: Map::empty() }
}

fn markdownlint_metadata_exec(description: &str, with_yml: bool) -> (m: PluginMetadata)
    ensures
        m@ == markdownlint_metadata(
            description@,
            if with_yml {
                seq!["json"@, "yaml"@, "yml"@]
            } else {
                seq!["json"@, "yaml"@]
            },
        ),
{
    let mut formats: Vec<String> = Vec::new();
    push_str(&mut formats, "json");
    push_str(&mut formats, "yaml");
    if with_yml {
        push_str(&mut formats, "yml");
    }
    let dependencies: Vec<String> = Vec::new();
    let m = PluginMetadata {
        name: String::from_str("markdownlint"),
        version: String::from_str("1.0.0"),
        author: String::from_str("Sandbag Team"),
        description: String::from_str(description),
        linter_name: String::from_str("markdownlint"),
        supported_formats: formats,
        dependencies,
    };
    assert(m@.dependencies =~= Seq::<Seq<char>>::empty());
    assert(m@.supported_formats =~= (if with_yml {
        seq!["json"@, "yaml"@, "yml"@]
    } else {
        seq!["json"@, "yaml"@]
    }));
    m
}

fn default_config() -> (c: PluginConfig)
    ensures
        c@ == default_plugin_config(),
{
    PluginConfig { enabled: true, priority: 100, settings: HashMap::new() }
}

/// Whether the markdownlint plugin takes the input: it names `MD` or `markdownlint`.
pub open spec fn markdownlint_plugin_handles(input: Seq<char>) -> bool {
    has_sub(input, "MD"@) || has_sub(input, "markdownlint"@)
}

/// Built-in markdownlint plugin.
#[derive(Debug)]
pub struct MarkdownlintPlugin {
    handler: MarkdownlintHandler,
    config: PluginConfig,
    metadata: PluginMetadata,
}

impl View for MarkdownlintPlugin {
    type V = PluginConfigModel;

    closed spec fn view(&self) -> PluginConfigModel {
        self.config@
    }
}

impl MarkdownlintPlugin {
    #[verifier::type_invariant]
    spec fn inv(self) -> bool {
        self.metadata@ == plugin_metadata()
    }

    /// The plugin, enabled with priority 100.
    pub fn new() -> (p: Self)
        ensures
            p@ == default_plugin_config(),
    {
        MarkdownlintPlugin {
            handler: MarkdownlintHandler::new(),
            config: default_config(),
            metadata: markdownlint_metadata_exec("Markdownlint support plugin", true),
        }
    }

    /// The plugin's metadata.
    pub fn metadata(&self) -> (m: PluginMetadata)
        ensures
            m@ == plugin_metadata(),
    {
        proof {
            use_type_invariant(self);
        }
        self.metadata.copy()
    }

    /// Starts the plugin with a configuration.
    pub fn initialize(&mut self, config: &PluginConfig)
        ensures
            final(self)@ == config@,
    {
        proof {
            use_type_invariant(&*self);
        }
        self.config = config.copy();
    }

    /// Whether the plugin takes the input.
    pub fn can_handle(&self, input: &str) -> (b: bool)
        ensures
            b == markdownlint_plugin_handles(input@),
    {
        str_contains(input, "MD") || str_contains(input, "markdownlint")
    }

    /// The rules the plugin's handler finds in the input.
    pub fn extract_rules(&self, input: &str) -> (r: Vec<RuleMatch>)
        ensures
            matches_model(r@) == md_extract_lines(trimmed_lines(input@)),
    {
        self.handler.extract_rules(input)
    }

    /// The plugin's configuration.
    pub fn get_config(&self) -> (c: &PluginConfig)
        ensures
            c@ == self@,
    {
        &self.config
    }

    /// Sets the plugin's configuration.
    pub fn set_config(&mut self, config: PluginConfig)
        ensures
            final(self)@ == config@,
    {
        proof {
            use_type_invariant(&*self);
        }
        self.config = config;
    }
}

/// A registered plugin.
#[derive(Debug)]
pub enum LinterPlugin {
    /// The markdownlint plugin
    Markdownlint(MarkdownlintPlugin),
}

impl View for LinterPlugin {
    type V = PluginConfigModel;

    open spec fn view(&self) -> PluginConfigModel {
        match self {
            LinterPlugin::Markdownlint(p) => p@,
        }
    }
}

impl LinterPlugin {
    /// The plugin's metadata.
    pub fn metadata(&self) -> (m: PluginMetadata)
        ensures
            m@ == plugin_metadata(),
    {
        match self {
            LinterPlugin::Markdownlint(p) => p.metadata(),
        }
    }

    /// Whether the plugin takes the input.
    pub fn can_handle(&self, input: &str) -> (b: bool)
        ensures
            b == markdownlint_plugin_handles(input@),
    {
        match self {
            LinterPlugin::Markdownlint(p) => p.can_handle(input),
        }
    }

    /// The rules the plugin's handler finds in the input.
    pub fn extract_rules(&self, input: &str) -> (r: Vec<RuleMatch>)
        ensures
            matches_model(r@) == md_extract_lines(trimmed_lines(input@)),
    {
        match self {
            LinterPlugin::Markdownlint(p) => p.extract_rules(input),
        }
    }

    /// The plugin's configuration.
    pub fn get_config(&self) -> (c: &PluginConfig)
        ensures
            c@ == self@,
    {
        match self {
            LinterPlugin::Markdownlint(p) => p.get_config(),
        }
    }

    /// Sets the plugin's configuration.
    pub fn set_config(&mut self, config: PluginConfig)
        ensures
            final(self)@ == config@,
    {
        match self {
            LinterPlugin::Markdownlint(p) => p.set_config(config),
        }
    }
}

/// A plugin in the manager: its name, its own configuration, and the metadata and
/// configuration recorded when it was registered or last updated.
pub struct EntryModel {
    pub name: Seq<char>,
    pub plugin: PluginConfigModel,
    pub metadata: MetadataModel,
    pub config: PluginConfigModel,
}

struct PluginEntry {
    name: String,
    plugin: LinterPlugin,
    metadata: PluginMetadata,
    config: PluginConfig,
}

impl View for PluginEntry {
    type V = EntryModel;

    closed spec fn view(&self) -> EntryModel {
        EntryModel {
            name: self.name@,
            plugin: self.plugin@,
            metadata: self.metadata@,
            config: self.config@,
        }
    }
}

/// The models of the entries.
spec fn entries_model(v: Seq<PluginEntry>) -> Seq<EntryModel> {
    v.map_values(|e: PluginEntry| e@)
}

/// The position of the plugin named `name`.
pub open spec fn entry_index(s: Seq<EntryModel>, name: Seq<char>) -> Option<int> {
    if exists|i: int| 0 <= i < s.len() && (#[trigger] s[i]).name == name {
        Some(choose|i: int| 0 <= i < s.len() && (#[trigger] s[i]).name == name)
    } else {
        None
    }
}

/// No name occurs twice.
pub open spec fn distinct_names(s: Seq<EntryModel>) -> bool {
    forall|i: int, j: int|
        0 <= i < s.len() && 0 <= j < s.len() && i != j ==> (#[trigger] s[i]).name != (#[trigger] s[j]).name
}

/// The priority of the first enabled plugin for the linter, or 0. Every plugin there is
/// serves markdownlint.
pub open spec fn priority_of(s: Seq<EntryModel>, linter: Seq<char>) -> u32
    decreases s.len(),
{
    if s.len() == 0 || linter != "markdownlint"@ {
        0
    } else if s[0].plugin.enabled {
        s[0].plugin.priority
    } else {
        priority_of(s.drop_first(), linter)
    }
}

/// The first rule each enabled plugin that takes the input finds, plugin by plugin.
pub open spec fn plugin_matches(s: Seq<EntryModel>, input: Seq<char>) -> Seq<MatchModel>
    decreases s.len(),
{
    if s.len() == 0 {
        Seq::empty()
    } else {
        let prev = plugin_matches(s.drop_last(), input);
        let found = md_extract_lines(trimmed_lines(input));
        if s.last().plugin.enabled && markdownlint_plugin_handles(input) && found.len() > 0 {
            prev.push(found[0])
        } else {
            prev
        }
    }
}

/// Where a match of priority `p` goes in a list sorted by falling priority.
pub open spec fn priority_pos(s: Seq<MatchModel>, entries: Seq<EntryModel>, p: u32) -> int
    decreases s.len(),
{
    if s.len() == 0 {
        0
    } else if priority_of(entries, s[0].linter) < p {
        0
    } else {
        1 + priority_pos(s.drop_first(), entries, p)
    }
}

/// Matches sorted by falling plugin priority, matches of equal priority in their first order.
pub open spec fn by_priority(s: Seq<MatchModel>, entries: Seq<EntryModel>) -> Seq<MatchModel>
    decreases s.len(),
{
    if s.len() == 0 {
        s
    } else {
        let sorted = by_priority(s.drop_last(), entries);
        sorted.insert(priority_pos(sorted, entries, priority_of(entries, s.last().linter)), s.last())
    }
}

/// Plugin information for listing.
#[derive(Debug)]
pub struct PluginInfo {
    /// Plugin name
    pub name: String,
    /// Plugin metadata
    pub metadata: PluginMetadata,
    /// Current plugin configuration
    pub config: PluginConfig,
}

/// Where an entry of priority `p` goes in a list sorted by falling priority.
pub open spec fn listing_pos(s: Seq<EntryModel>, p: u32) -> int
    decreases s.len(),
{
    if s.len() == 0 {
        0
    } else if s[0].config.priority < p {
        0
    } else {
        1 + listing_pos(s.drop_first(), p)
    }
}

/// Entries sorted by falling recorded priority, entries of equal priority in their first
/// order.
pub open spec fn listing(s: Seq<EntryModel>) -> Seq<EntryModel>
    decreases s.len(),
{
    if s.len() == 0 {
        s
    } else {
        let sorted = listing(s.drop_last());
        sorted.insert(listing_pos(sorted, s.last().config.priority), s.last())
    }
}

/// Loads and manages plugins.
pub struct PluginManager {
    entries: Vec<PluginEntry>,
    plugin_paths: Vec<String>,
}

impl View for PluginManager {
    type V = Seq<EntryModel>;

    closed spec fn view(&self) -> Seq<EntryModel> {
        entries_model(self.entries@)
    }
}

impl PluginManager {
    #[verifier::type_invariant]
    spec fn inv(self) -> bool {
        distinct_names(entries_model(self.entries@))
    }

    /// A manager with the markdownlint plugin registered, enabled with priority 100.
    pub fn new() -> (m: Self)
        ensures
            m@ == seq![
                EntryModel {
                    name: "markdownlint"@,
                    plugin: default_plugin_config(),
                    metadata: plugin_metadata(),
                    config: default_plugin_config(),
                },
            ],
    {
        let plugin = MarkdownlintPlugin::new();
        let metadata = plugin.metadata();
        let name = metadata.name.clone();
        let mut entries: Vec<PluginEntry> = Vec::new();
        entries.push(
            PluginEntry { name, plugin: LinterPlugin::Markdownlint(plugin), metadata, config: default_config() },
        );
        let m = PluginManager { entries, plugin_paths: Vec::new() };
        assert(m@ =~= seq![
            EntryModel {
                name: "markdownlint"@,
                plugin: default_plugin_config(),
                metadata: plugin_metadata(),
                config: default_plugin_config(),
            },
        ]);
        m
    }

    /// Loading plugins from a directory: no plugins are loaded that way yet.
    pub fn load_plugins_from_directory(&mut self, path: &str)
        ensures
            final(self)@ == old(self)@,
    {
    }

    fn find(&self, name: &str) -> (r: Option<usize>)
        ensures
            match r {
                Some(i) => entry_index(self@, name@) == Some(i as int) && i < self@.len(),
                None => entry_index(self@, name@) is None,
            },
    {
        proof {
            use_type_invariant(self);
        }
        let ghost s = self@;
        let mut i: usize = 0;
        while i < self.entries.len()
            invariant
                i <= self.entries@.len(),
                s == entries_model(self.entries@),
                distinct_names(s),
                forall|j: int| 0 <= j < i ==> (#[trigger] s[j]).name != name@,
            decreases self.entries@.len() - i,
        {
            if crate::text::str_equal(self.entries[i].name.as_str(), name) {
                assert(s[i as int].name == name@);
                let ghost c = choose|j: int| 0 <= j < s.len() && (#[trigger] s[j]).name == name@;
                assert(c == i);
                return Some(i);
            }
            i = i + 1;
        }
        None
    }

    /// Registers a plugin under a name, in place of any plugin of that name; its metadata
    /// and configuration are recorded.
    pub fn register_plugin(&mut self, name: String, plugin: LinterPlugin)
        ensures
            ({
                let e = EntryModel {
                    name: name@,
                    plugin: plugin@,
                    metadata: plugin_metadata(),
                    config: plugin@,
                };
                final(self)@ == match entry_index(old(self)@, name@) {
                    Some(i) => old(self)@.update(i, e),
                    None => old(self)@.push(e),
                }
            }),
    {
        proof {
            use_type_invariant(&*self);
        }
        let ghost s = self@;
        let metadata = plugin.metadata();
        let config = plugin.get_config().copy();
        let idx = self.find(name.as_str());
        let entry = PluginEntry { name, plugin, metadata, config };
        let ghost em = entry@;
        let mut v: Vec<PluginEntry> = Vec::new();
        std::mem::swap(&mut v, &mut self.entries);
        match idx {
            Some(i) => {
                v.set(i, entry);
                assert(entries_model(v@) =~= s.update(i as int, em));
                assert(distinct_names(entries_model(v@))) by {
                    let t = entries_model(v@);
                    assert forall|x: int, y: int|
                        0 <= x < t.len() && 0 <= y < t.len() && x != y implies (#[trigger] t[x]).name
                        != (#[trigger] t[y]).name by {
                        if x != i && y != i {
                            assert(s[x].name != s[y].name);
                        } else if x == i {
                            assert(s[i as int].name != s[y].name);
                        } else {
                            assert(s[x].name != s[i as int].name);
                        }
                    }
                }
            },
            None => {
                v.push(entry);
                assert(entries_model(v@) =~= s.push(em));
                assert(distinct_names(entries_model(v@))) by {
                    let t = entries_model(v@);
                    assert forall|x: int, y: int|
                        0 <= x < t.len() && 0 <= y < t.len() && x != y implies (#[trigger] t[x]).name
                        != (#[trigger] t[y]).name by {
                        if x < s.len() && y < s.len() {
                            assert(s[x].name != s[y].name);
                        } else if x < s.len() {
                            assert(t[x] == s[x]);
                        } else {
                            assert(t[y] == s[y]);
                        }
                    }
                }
            },
        }
        self.entries = v;
    }

    /// The plugin registered under the name.
    pub fn get_plugin(&self, name: &str) -> (r: Option<&LinterPlugin>)
        ensures
            match r {
                Some(p) => entry_index(self@, name@) matches Some(i) && p@ == self@[i].plugin,
                None => entry_index(self@, name@) is None,
            },
    {
        match self.find(name) {
            Some(i) => Some(&self.entries[i].plugin),
            None => None,
        }
    }

    /// The names of the plugins, in registration order.
    pub fn get_plugin_names(&self) -> (r: Vec<String>)
        ensures
            strings_model(r@) == self@.map_values(|e: EntryModel| e.name),
    {
        let ghost s = self@;
        let mut r: Vec<String> = Vec::new();
        let mut i: usize = 0;
        while i < self.entries.len()
            invariant
                i <= self.entries@.len(),
                s == entries_model(self.entries@),
                strings_model(r@) == s.take(i as int).map_values(|e: EntryModel| e.name),
            decreases self.entries@.len() - i,
        {
            let ghost before = strings_model(r@);
            r.push(self.entries[i].name.clone());
            assert(strings_model(r@) =~= before.push(s[i as int].name));
            assert(s.take(i + 1).map_values(|e: EntryModel| e.name) =~= s.take(i as int).map_values(
                |e: EntryModel| e.name,
            ).push(s[i as int].name));
            i = i + 1;
        }
        assert(s.take(self.entries@.len() as int) =~= s);
        r
    }

    /// The plugins enabled by their own configuration, in registration order.
    pub fn get_enabled_plugins(&self) -> (r: Vec<&LinterPlugin>)
        ensures
            r@.map_values(|p: &LinterPlugin| p@) == self@.map_values(|e: EntryModel| e.plugin).filter(
                |c: PluginConfigModel| c.enabled,
            ),
    {
        let ghost s = self@.map_values(|e: EntryModel| e.plugin);
        let mut r: Vec<&LinterPlugin> = Vec::new();
        let mut i: usize = 0;
        while i < self.entries.len()
            invariant
                i <= self.entries@.len(),
                s == entries_model(self.entries@).map_values(|e: EntryModel| e.plugin),
                r@.map_values(|p: &LinterPlugin| p@) == s.take(i as int).filter(
                    |c: PluginConfigModel| c.enabled,
                ),
            decreases self.entries@.len() - i,
        {
            assert(s.take(i + 1).drop_last() =~= s.take(i as int));
            reveal(Seq::filter);
            let p = &self.entries[i].plugin;
            if p.get_config().enabled {
                let ghost before = r@.map_values(|p: &LinterPlugin| p@);
                r.push(p);
                assert(r@.map_values(|p: &LinterPlugin| p@) =~= before.push(s[i as int]));
            }
            i = i + 1;
        }
        assert(s.take(self.entries@.len() as int) =~= s);
        r
    }

    /// The priority of the first enabled plugin for the linter, or 0.
    fn get_plugin_priority(&self, linter_name: &str) -> (p: u32)
        ensures
            p == priority_of(self@, linter_name@),
    {
        let ghost s = self@;
        if !crate::text::str_equal(linter_name, "markdownlint") {
            return 0;
        }
        assert(s.skip(0) =~= s);
        let mut i: usize = 0;
        while i < self.entries.len()
            invariant
                i <= self.entries@.len(),
                s == entries_model(self.entries@),
                linter_name@ == "markdownlint"@,
                priority_of(s, linter_name@) == priority_of(s.skip(i as int), linter_name@),
            decreases self.entries@.len() - i,
        {
            assert(s.skip(i as int)[0] == s[i as int]);
            assert(s.skip(i as int).drop_first() =~= s.skip(i + 1));
            let c = self.entries[i].plugin.get_config();
            if c.enabled {
                return c.priority;
            }
            i = i + 1;
        }
        assert(s.skip(i as int).len() == 0);
        0
    }

    /// The first rule each enabled plugin that takes the input finds, plugins of higher
    /// priority first.
    pub fn extract_rules(&self, input: &str) -> (r: Vec<RuleMatch>)
        ensures
            matches_model(r@) == by_priority(plugin_matches(self@, input@), self@),
    {
        let ghost s = self@;
        let mut all: Vec<RuleMatch> = Vec::new();
        let mut i: usize = 0;
        while i < self.entries.len()
            invariant
                i <= self.entries@.len(),
                s == entries_model(self.entries@),
                matches_model(all@) == plugin_matches(s.take(i as int), input@),
            decreases self.entries@.len() - i,
        {
            assert(s.take(i + 1).drop_last() =~= s.take(i as int));
            let p = &self.entries[i].plugin;
            if p.get_config().enabled && p.can_handle(input) {
                let found = p.extract_rules(input);
                if found.len() > 0 {
                    let m = found[0].copy();
                    let ghost before = matches_model(all@);
                    let ghost mm = m@;
                    all.push(m);
                    assert(matches_model(all@) =~= before.push(mm));
                }
            }
            i = i + 1;
        }
        assert(s.take(self.entries@.len() as int) =~= s);
        let ghost chosen = matches_model(all@);
        let mut sorted: Vec<RuleMatch> = Vec::new();
        let mut k: usize = 0;
        while k < all.len()
            invariant
                k <= all@.len(),
                s == self@,
                chosen == matches_model(all@),
                matches_model(sorted@) == by_priority(chosen.take(k as int), s),
            decreases all@.len() - k,
        {
            assert(chosen.take(k + 1).drop_last() =~= chosen.take(k as int));
            let p = self.get_plugin_priority(all[k].linter.as_str());
            let ghost sm = matches_model(sorted@);
            let mut j: usize = 0;
            while j < sorted.len() && self.get_plugin_priority(sorted[j].linter.as_str()) >= p
                invariant
                    j <= sorted@.len(),
                    s == self@,
                    sm == matches_model(sorted@),
                    forall|t: int| 0 <= t < j ==> priority_of(s, (#[trigger] sm[t]).linter) >= p,
                decreases sorted@.len() - j,
            {
                j = j + 1;
            }
            proof {
                lemma_priority_pos(sm, s, p, j as int);
            }
            let x = all[k].copy();
            let ghost xm = x@;
            sorted.insert(j, x);
            assert(matches_model(sorted@) =~= sm.insert(j as int, xm));
            k = k + 1;
        }
        assert(chosen.take(all@.len() as int) =~= chosen);
        sorted
    }

    /// Enables the plugin: both its own configuration and the recorded one.
    pub fn enable_plugin(&mut self, name: &str)
        ensures
            final(self)@ == set_enabled(old(self)@, name@, true),
    {
        self.set_plugin_enabled(name, true);
    }

    /// Disables the plugin: both its own configuration and the recorded one.
    pub fn disable_plugin(&mut self, name: &str)
        ensures
            final(self)@ == set_enabled(old(self)@, name@, false),
    {
        self.set_plugin_enabled(name, false);
    }

    fn set_plugin_enabled(&mut self, name: &str, enabled: bool)
        ensures
            final(self)@ == set_enabled(old(self)@, name@, enabled),
    {
        proof {
            use_type_invariant(&*self);
        }
        let ghost s = self@;
        match self.find(name) {
            Some(i) => {
                let mut v: Vec<PluginEntry> = Vec::new();
                std::mem::swap(&mut v, &mut self.entries);
                let e = v.remove(i);
                let mut plugin = e.plugin;
                let c = plugin.get_config();
                let new_plugin_config = PluginConfig {
                    enabled,
                    priority: c.priority,
                    settings: c.settings.clone(),
                };
                plugin.set_config(new_plugin_config);
                let config = PluginConfig { enabled, priority: e.config.priority, settings: e.config.settings };
                let entry = PluginEntry { name: e.name, plugin, metadata: e.metadata, config };
                let ghost em = entry@;
                v.insert(i, entry);
                assert(entries_model(v@) =~= s.update(i as int, em));
                assert(distinct_names(entries_model(v@))) by {
                    let t = entries_model(v@);
                    assert forall|x: int, y: int|
                        0 <= x < t.len() && 0 <= y < t.len() && x != y implies (#[trigger] t[x]).name
                        != (#[trigger] t[y]).name by {
                        assert(s[x].name != s[y].name);
                    }
                }
                self.entries = v;
            },
            None => {},
        }
    }

    /// Replaces the plugin's configuration, its own and the recorded one; an unknown name is
    /// ignored.
    pub fn update_plugin_config(&mut self, name: &str, config: PluginConfig)
        ensures
            final(self)@ == match entry_index(old(self)@, name@) {
                Some(i) => old(self)@.update(
                    i,
                    EntryModel { plugin: config@, config: config@, ..old(self)@[i] },
                ),
                None => old(self)@,
            },
    {
        proof {
            use_type_invariant(&*self);
        }
        let ghost s = self@;
        match self.find(name) {
            Some(i) => {
                let mut v: Vec<PluginEntry> = Vec::new();
                std::mem::swap(&mut v, &mut self.entries);
                let e = v.remove(i);
                let mut plugin = e.plugin;
                plugin.set_config(config.copy());
                let entry = PluginEntry { name: e.name, plugin, metadata: e.metadata, config };
                let ghost em = entry@;
                v.insert(i, entry);
                assert(entries_model(v@) =~= s.update(i as int, em));
                assert(distinct_names(entries_model(v@))) by {
                    let t = entries_model(v@);
                    assert forall|x: int, y: int|
                        0 <= x < t.len() && 0 <= y < t.len() && x != y implies (#[trigger] t[x]).name
                        != (#[trigger] t[y]).name by {
                        assert(s[x].name != s[y].name);
                    }
                }
                self.entries = v;
            },
            None => {},
        }
    }

    /// The recorded metadata of the plugin.
    pub fn get_plugin_metadata(&self, name: &str) -> (r: Option<&PluginMetadata>)
        ensures
            match r {
                Some(m) => entry_index(self@, name@) matches Some(i) && m@ == self@[i].metadata,
                None => entry_index(self@, name@) is None,
            },
    {
        match self.find(name) {
            Some(i) => Some(&self.entries[i].metadata),
            None => None,
        }
    }

    /// Every plugin with its recorded metadata and configuration, highest priority first.
    pub fn list_plugins(&self) -> (r: Vec<PluginInfo>)
        ensures
            r@.map_values(|p: PluginInfo| (p.name@, p.metadata@, p.config@)) == listing(self@).map_values(
                |e: EntryModel| (e.name, e.metadata, e.config),
            ),
    {
        let ghost s = self@;
        let mut sorted: Vec<&PluginEntry> = Vec::new();
        let mut k: usize = 0;
        while k < self.entries.len()
            invariant
                k <= self.entries@.len(),
                s == entries_model(self.entries@),
                sorted@.map_values(|e: &PluginEntry| e@) == listing(s.take(k as int)),
            decreases self.entries@.len() - k,
        {
            assert(s.take(k + 1).drop_last() =~= s.take(k as int));
            let e = &self.entries[k];
            let p = e.config.priority;
            let ghost sm = sorted@.map_values(|x: &PluginEntry| x@);
            let mut j: usize = 0;
            while j < sorted.len() && sorted[j].config.priority >= p
                invariant
                    j <= sorted@.len(),
                    sm == sorted@.map_values(|x: &PluginEntry| x@),
                    forall|t: int| 0 <= t < j ==> (#[trigger] sm[t]).config.priority >= p,
                decreases sorted@.len() - j,
            {
                j = j + 1;
            }
            proof {
                lemma_listing_pos(sm, p, j as int);
            }
            sorted.insert(j, e);
            assert(sorted@.map_values(|x: &PluginEntry| x@) =~= sm.insert(j as int, e@));
            k = k + 1;
        }
        assert(s.take(self.entries@.len() as int) =~= s);
        let ghost fin = sorted@.map_values(|x: &PluginEntry| x@);
        let mut r: Vec<PluginInfo> = Vec::new();
        let mut i: usize = 0;
        while i < sorted.len()
            invariant
                i <= sorted@.len(),
                fin == sorted@.map_values(|x: &PluginEntry| x@),
                r@.map_values(|p: PluginInfo| (p.name@, p.metadata@, p.config@)) == fin.take(
                    i as int,
                ).map_values(|e: EntryModel| (e.name, e.metadata, e.config)),
            decreases sorted@.len() - i,
        {
            let e = sorted[i];
            let info = PluginInfo { name: e.name.clone(), metadata: e.metadata.copy(), config: e.config.copy() };
            let ghost before = r@.map_values(|p: PluginInfo| (p.name@, p.metadata@, p.config@));
            let ghost im = (info.name@, info.metadata@, info.config@);
            r.push(info);
            assert(r@.map_values(|p: PluginInfo| (p.name@, p.metadata@, p.config@)) =~= before.push(im));
            assert(fin.take(i + 1).map_values(|e: EntryModel| (e.name, e.metadata, e.config)) =~= fin.take(
                i as int,
            ).map_values(|e: EntryModel| (e.name, e.metadata, e.config)).push(im));
            i = i + 1;
        }
        assert(fin.take(sorted@.len() as int) =~= fin);
        r
    }
}

/// The entries with the named plugin enabled or disabled, in its own configuration and the
/// recorded one.
pub open spec fn set_enabled(s: Seq<EntryModel>, name: Seq<char>, enabled: bool) -> Seq<EntryModel> {
    match entry_index(s, name) {
        Some(i) => s.update(
            i,
            EntryModel {
                plugin: PluginConfigModel { enabled, ..s[i].plugin },
                config: PluginConfigModel { enabled, ..s[i].config },
                ..s[i]
            },
        ),
        None => s,
    }
}

/// Whether an enabled plugin carries the name: one that `get_enabled_plugins` gives.
pub open spec fn enabled_named(s: Seq<EntryModel>, n: Seq<char>) -> bool {
    exists|i: int| 0 <= i < s.len() && (#[trigger] s[i]).name == n && s[i].plugin.enabled
}

/// The position of a registered name is the one entry that carries it.
proof fn lemma_entry_index(s: Seq<EntryModel>, name: Seq<char>, i: int)
    requires
        distinct_names(s),
        0 <= i < s.len(),
        s[i].name == name,
    ensures
        entry_index(s, name) == Some(i),
{
}

/// Disabling a registered plugin leaves it out of the enabled plugins, keeps it found under
/// its name, and touches no other entry, so every other plugin stays enabled or disabled as
/// it was; enabling it makes it enabled again, restores the entries as they were when it had
/// been enabled before, and enabling or disabling twice is the same as once.
pub proof fn law_enable_disable(s: Seq<EntryModel>, name: Seq<char>, i: int)
    requires
        distinct_names(s),
        0 <= i < s.len(),
        s[i].name == name,
    ensures
        set_enabled(s, name, false).len() == s.len(),
        !set_enabled(s, name, false)[i].plugin.enabled,
        !set_enabled(s, name, false)[i].config.enabled,
        set_enabled(s, name, true)[i].plugin.enabled,
        forall|j: int| 0 <= j < s.len() && j != i ==> #[trigger] set_enabled(s, name, false)[j] == s[j],
        s[i].plugin.enabled && s[i].config.enabled ==> set_enabled(set_enabled(s, name, false), name, true)
            == s,
        set_enabled(set_enabled(s, name, false), name, false) == set_enabled(s, name, false),
        set_enabled(set_enabled(s, name, true), name, true) == set_enabled(s, name, true),
        entry_index(set_enabled(s, name, false), name) == Some(i),
        !enabled_named(set_enabled(s, name, false), name),
        enabled_named(set_enabled(s, name, true), name),
        forall|m: Seq<char>|
            m != name ==> (#[trigger] enabled_named(set_enabled(s, name, false), m) <==> enabled_named(s, m)),
{
    lemma_entry_index(s, name, i);
    let d = set_enabled(s, name, false);
    let e = set_enabled(s, name, true);
    assert(distinct_names(d)) by {
        assert forall|x: int, y: int| 0 <= x < d.len() && 0 <= y < d.len() && x != y implies (
        #[trigger] d[x]).name != (#[trigger] d[y]).name by {
            assert(s[x].name != s[y].name);
        }
    }
    assert(distinct_names(e)) by {
        assert forall|x: int, y: int| 0 <= x < e.len() && 0 <= y < e.len() && x != y implies (
        #[trigger] e[x]).name != (#[trigger] e[y]).name by {
            assert(s[x].name != s[y].name);
        }
    }
    lemma_entry_index(d, name, i);
    lemma_entry_index(e, name, i);
    if s[i].plugin.enabled && s[i].config.enabled {
        assert(set_enabled(d, name, true) =~= s);
    }
    assert(d[i].plugin.enabled == false);
    assert(e[i].name == name && e[i].plugin.enabled);
    assert forall|m: Seq<char>| m != name implies (#[trigger] enabled_named(d, m) <==> enabled_named(s, m)) by {
        if enabled_named(d, m) {
            let j = choose|j: int| 0 <= j < d.len() && d[j].name == m && d[j].plugin.enabled;
            assert(j != i);
            assert(s[j] == d[j]);
        }
        if enabled_named(s, m) {
            let j = choose|j: int| 0 <= j < s.len() && s[j].name == m && s[j].plugin.enabled;
            assert(j != i);
            assert(s[j] == d[j]);
        }
    }
    assert(!enabled_named(d, name)) by {
        if enabled_named(d, name) {
            let j = choose|j: int| 0 <= j < d.len() && d[j].name == name && d[j].plugin.enabled;
            if j != i {
                assert(s[j] == d[j]);
                assert(s[j].name != s[i].name);
            }
        }
    }
    assert(set_enabled(d, name, false) =~= d);
    assert(set_enabled(e, name, true) =~= e);
}

proof fn lemma_priority_pos(s: Seq<MatchModel>, entries: Seq<EntryModel>, p: u32, i: int)
    requires
        0 <= i <= s.len(),
        forall|j: int| 0 <= j < i ==> priority_of(entries, (#[trigger] s[j]).linter) >= p,
        i == s.len() || priority_of(entries, s[i].linter) < p,
    ensures
        priority_pos(s, entries, p) == i,
    decreases i,
{
    if i > 0 {
        assert forall|j: int| 0 <= j < i - 1 implies priority_of(
            entries,
            (#[trigger] s.drop_first()[j]).linter,
        ) >= p by {
            assert(s.drop_first()[j] == s[j + 1]);
        }
        if i < s.len() {
            assert(s.drop_first()[i - 1] == s[i]);
        }
        lemma_priority_pos(s.drop_first(), entries, p, i - 1);
        assert(priority_of(entries, s[0].linter) >= p);
    }
}

proof fn lemma_listing_pos(s: Seq<EntryModel>, p: u32, i: int)
    requires
        0 <= i <= s.len(),
        forall|j: int| 0 <= j < i ==> (#[trigger] s[j]).config.priority >= p,
        i == s.len() || s[i].config.priority < p,
    ensures
        listing_pos(s, p) == i,
    decreases i,
{
    if i > 0 {
        assert forall|j: int| 0 <= j < i - 1 implies (#[trigger] s.drop_first()[j]).config.priority
            >= p by {
            assert(s.drop_first()[j] == s[j + 1]);
        }
        if i < s.len() {
            assert(s.drop_first()[i - 1] == s[i]);
        }
        lemma_listing_pos(s.drop_first(), p, i - 1);
    }
}

/// Built-in plugin factory.
#[derive(Debug, Clone, Copy)]
pub struct BuiltinPluginFactory;

impl BuiltinPluginFactory {
    /// A new markdownlint plugin.
    pub fn create_plugin(&self) -> (p: LinterPlugin)
        ensures
            p@ == default_plugin_config(),
    {
        LinterPlugin::Markdownlint(MarkdownlintPlugin::new())
    }

    /// The factory's metadata.
    pub fn metadata(&self) -> (m: PluginMetadata)
        ensures
            m@ == factory_metadata(),
    {
        markdownlint_metadata_exec("Built-in markdownlint plugin", false)
    }
}

} // verus!
