//! Help topics and worked examples for the commands.
//!
//! The terminal front end prints them; this module holds them and answers lookups and
//! searches.
use vstd::prelude::*;
use crate::linters::{push_str, strings_model};
use crate::text::{has_sub, lowercase, str_contains, to_lowercase};

verus! {

/// Help option with description.
#[derive(Debug)]
pub struct HelpOption {
    /// Flag description as shown to the user
    pub flag: String,
    /// Flag explanation
    pub description: String,
    /// Whether the flag is required
    pub required: bool,
    /// Default value if any
    pub default: Option<String>,
}

/// The mathematical content of a [`HelpOption`].
pub struct OptionModel {
    pub flag: Seq<char>,
    pub description: Seq<char>,
    pub required: bool,
    pub default: Option<Seq<char>>,
}

impl View for HelpOption {
    type V = OptionModel;

    open spec fn view(&self) -> OptionModel {
        OptionModel {
            flag: self.flag@,
            description: self.description@,
            required: self.required,
            default: crate::config::opt_chars(self.default),
        }
    }
}

/// Help topic with detailed information.
#[derive(Debug)]
pub struct HelpTopic {
    /// Topic title
    pub title: String,
    /// Topic description
    pub description: String,
    /// Usage string
    pub usage: String,
    /// Command-line options for the topic
    pub options: Vec<HelpOption>,
    /// Example invocations
    pub examples: Vec<String>,
    /// Related topics for further reading
    pub related_topics: Vec<String>,
}

/// The mathematical content of a [`HelpTopic`].
pub struct TopicModel {
    pub title: Seq<char>,
    pub description: Seq<char>,
    pub usage: Seq<char>,
    pub options: Seq<OptionModel>,
    pub examples: Seq<Seq<char>>,
    pub related_topics: Seq<Seq<char>>,
}

impl View for HelpTopic {
    type V = TopicModel;

    open spec fn view(&self) -> TopicModel {
        TopicModel {
            title: self.title@,
            description: self.description@,
            usage: self.usage@,
            options: self.options@.map_values(|o: HelpOption| o@),
            examples: strings_model(self.examples@),
            related_topics: strings_model(self.related_topics@),
        }
    }
}

/// Help example with description.
#[derive(Debug)]
pub struct HelpExample {
    /// Short example title
    pub title: String,
    /// Description of the example
    pub description: String,
    /// Command to execute
    pub command: String,
    /// Expected output
    pub output: String,
}

/// The mathematical content of a [`HelpExample`].
pub struct ExampleModel {
    pub title: Seq<char>,
    pub description: Seq<char>,
    pub command: Seq<char>,
    pub output: Seq<char>,
}

impl View for HelpExample {
    type V = ExampleModel;

    open spec fn view(&self) -> ExampleModel {
        ExampleModel {
            title: self.title@,
            description: self.description@,
            command: self.command@,
            output: self.output@,
        }
    }
}

/// The models of named topics.
pub open spec fn topics_model(v: Seq<(String, HelpTopic)>) -> Seq<(Seq<char>, TopicModel)> {
    v.map_values(|p: (String, HelpTopic)| (p.0@, p.1@))
}

/// The models of named example lists.
pub open spec fn examples_model(v: Seq<(String, Vec<HelpExample>)>) -> Seq<(Seq<char>, Seq<ExampleModel>)> {
    v.map_values(|p: (String, Vec<HelpExample>)| (p.0@, p.1@.map_values(|e: HelpExample| e@)))
}

/// The entry for the first occurrence of name `k`, from position `i` on.
pub open spec fn entry_from<V>(t: Seq<(Seq<char>, V)>, k: Seq<char>, i: int) -> Option<V>
    decreases t.len() - i,
{
    if i < 0 || i >= t.len() {
        None
    } else if t[i].0 == k {
        Some(t[i].1)
    } else {
        entry_from(t, k, i + 1)
    }
}

/// The entry for name `k`.
pub open spec fn entry<V>(t: Seq<(Seq<char>, V)>, k: Seq<char>) -> Option<V> {
    entry_from(t, k, 0)
}

proof fn lemma_entry_skip<V>(t: Seq<(Seq<char>, V)>, k: Seq<char>, i: int)
    requires
        0 <= i <= t.len(),
        forall|j: int| 0 <= j < i ==> (#[trigger] t[j]).0 != k,
    ensures
        entry(t, k) == entry_from(t, k, i),
    decreases i,
{
    if i > 0 {
        lemma_entry_skip(t, k, i - 1);
    }
}

/// The topics whose name holds the query, or whose title or description holds it ignoring
/// case, in table order.
pub open spec fn search_matches(t: Seq<(Seq<char>, TopicModel)>, q: Seq<char>) -> Seq<Seq<char>>
    decreases t.len(),
{
    if t.len() == 0 {
        Seq::empty()
    } else {
        let prev = search_matches(t.drop_last(), q);
        let (name, topic) = t.last();
        if has_sub(name, q) || has_sub(lowercase(topic.title), lowercase(q)) || has_sub(
            lowercase(topic.description),
            lowercase(q),
        ) {
            prev.push(name)
        } else {
            prev
        }
    }
}

/// The help topics, by command name.
pub open spec fn help_topics() -> Seq<(Seq<char>, TopicModel)> {
    seq![
        ("add"@, TopicModel {
            title: "Add Rule Configuration"@,
            description: "Add a rule to the linter configuration file. Automatically detects the linter type and applies the appropriate configuration."@,
            usage: "sandbag add <rule_input> [options]"@,
            options: seq![
                OptionModel { flag: "--linter, -l"@, description: "Force specific linter (skip auto-detection)"@, required: false, default: None },
                OptionModel { flag: "--config, -c"@, description: "Configuration file path (auto-detected if not specified)"@, required: false, default: None },
                OptionModel { flag: "--yes, -y"@, description: "Skip confirmation prompts"@, required: false, default: Some("false"@) },
            ],
            examples: seq!["sandbag add MD033"@, "sandbag add 'MD033/no-inline-html: Inline HTML detected'"@, "sandbag add MD033 --linter markdownlint"@],
            related_topics: seq!["scan"@, "batch"@],
        }),
        ("scan"@, TopicModel {
            title: "Scan Project for Rules"@,
            description: "Scan your project for suggested rule suppressions based on existing code patterns."@,
            usage: "sandbag scan [options]"@,
            options: seq![
                OptionModel { flag: "--path, -p"@, description: "Directory to scan (defaults to current)"@, required: false, default: Some("."@) },
                OptionModel { flag: "--limit, -l"@, description: "Maximum number of suggestions"@, required: false, default: Some("10"@) },
                OptionModel { flag: "--include-low-confidence"@, description: "Include low confidence suggestions"@, required: false, default: Some("false"@) },
            ],
            examples: seq!["sandbag scan"@, "sandbag scan --path src/ --limit 20"@, "sandbag scan --include-low-confidence"@],
            related_topics: seq!["add"@, "batch"@],
        }),
        ("config"@, TopicModel {
            title: "Configuration Management"@,
            description: "Manage configuration files, backups, and settings."@,
            usage: "sandbag config <subcommand> [options]"@,
            options: seq![
                OptionModel { flag: "list-backups"@, description: "List available backups for a configuration file"@, required: false, default: None },
                OptionModel { flag: "restore"@, description: "Restore configuration from a backup"@, required: false, default: None },
                OptionModel { flag: "cleanup"@, description: "Clean up old backup files"@, required: false, default: None },
            ],
            examples: seq!["sandbag config list-backups .markdownlint.json"@, "sandbag config restore backup_123 .markdownlint.json"@, "sandbag config cleanup --max-age 168"@],
            related_topics: seq!["add"@, "backup"@],
        }),
    ]
}

/// The worked examples, by command name.
pub open spec fn help_examples() -> Seq<(Seq<char>, Seq<ExampleModel>)> {
    seq![
        ("add"@, seq![
            ExampleModel {
                title: "Basic Rule Addition"@,
                description: "Add a simple rule ID to disable it"@,
                command: "sandbag add MD033"@,
                output: "🔧 Adding Rule Configuration\n==========================================\n\n⏳ Analyzing rule input...\n📊 Rule Analysis Results\n==================================================\n\nRule 1: MD033\nConfidence: [████████░░] 95.0%\nLinter: markdownlint\nSuggested Action: Disable\nMessage: Inline HTML detected\n\n🧠 Semantic Analysis\n------------------------------\nRule MD033: security\n\n💡 Recommendations\n• Consider using more specific actions instead of disabling rules (Priority: 0.8)\n\n✅ Rule configuration applied successfully!"@,
            },
            ExampleModel {
                title: "Complex Rule Input"@,
                description: "Add a rule from linter output with context"@,
                command: "sandbag add 'MD033/no-inline-html: Inline HTML [Element: div]'"@,
                output: "🔧 Adding Rule Configuration\n==========================================\n\n⏳ Analyzing rule input...\n📊 Rule Analysis Results\n==================================================\n\nRule 1: MD033\nConfidence: [████████░░] 95.0%\nLinter: markdownlint\nSuggested Action: Disable\nMessage: Inline HTML [Element: div]\n\n✅ Rule configuration applied successfully!"@,
            },
        ]),
        ("scan"@, seq![
            ExampleModel {
                title: "Project Scan"@,
                description: "Scan the current project for rule suggestions"@,
                command: "sandbag scan"@,
                output: "🔧 Project Configuration Scan\n==========================================\n\n████████████████████████████████████████ 100% Scanning... 100%\nScan completed\n\n🔍 Scan Results\nLimit: 10 rules\nInclude low confidence: No\n\nRule        Description                Confidence Priority\n-------------------------------------------------------\nMD033       No inline HTML            95.0%      High\nMD013       Line length               87.0%      High\nMD041       First line heading        72.0%      Medium\nMD009       No trailing spaces        65.0%      Medium"@,
            },
        ]),
    ]
}

/// The help topics, by command name.
fn default_topics() -> (v: Vec<(String, HelpTopic)>)
    ensures
        topics_model(v@) =~~= help_topics(),
{
    let mut v: Vec<(String, HelpTopic)> = Vec::new();
    let mut options: Vec<HelpOption> = Vec::new();
    options.push(help_option("--linter, -l", "Force specific linter (skip auto-detection)", false, None));
    options.push(help_option("--config, -c", "Configuration file path (auto-detected if not specified)", false, None));
    options.push(help_option("--yes, -y", "Skip confirmation prompts", false, Some("false")));
    assert(options@.map_values(|o: HelpOption| o@) =~~= help_topics()[0].1.options);
    let mut examples: Vec<String> = Vec::new();
    push_str(&mut examples, "sandbag add MD033");
    push_str(&mut examples, "sandbag add 'MD033/no-inline-html: Inline HTML detected'");
    push_str(&mut examples, "sandbag add MD033 --linter markdownlint");
    assert(strings_model(examples@) =~= help_topics()[0].1.examples);
    let mut related: Vec<String> = Vec::new();
    push_str(&mut related, "scan");
    push_str(&mut related, "batch");
    assert(strings_model(related@) =~= help_topics()[0].1.related_topics);
    let t = help_topic("Add Rule Configuration", "Add a rule to the linter configuration file. Automatically detects the linter type and applies the appropriate configuration.", "sandbag add <rule_input> [options]", options, examples, related);
    v.push((String::from_str("add"), t));
    assert(topics_model(v@)[0] =~~= help_topics()[0]);
    let mut options: Vec<HelpOption> = Vec::new();
    options.push(help_option("--path, -p", "Directory to scan (defaults to current)", false, Some(".")));
    options.push(help_option("--limit, -l", "Maximum number of suggestions", false, Some("10")));
    options.push(help_option("--include-low-confidence", "Include low confidence suggestions", false, Some("false")));
    assert(options@.map_values(|o: HelpOption| o@) =~~= help_topics()[1].1.options);
    let mut examples: Vec<String> = Vec::new();
    push_str(&mut examples, "sandbag scan");
    push_str(&mut examples, "sandbag scan --path src/ --limit 20");
    push_str(&mut examples, "sandbag scan --include-low-confidence");
    assert(strings_model(examples@) =~= help_topics()[1].1.examples);
    let mut related: Vec<String> = Vec::new();
    push_str(&mut related, "add");
    push_str(&mut related, "batch");
    assert(strings_model(related@) =~= help_topics()[1].1.related_topics);
    let t = help_topic("Scan Project for Rules", "Scan your project for suggested rule suppressions based on existing code patterns.", "sandbag scan [options]", options, examples, related);
    v.push((String::from_str("scan"), t));
    assert(topics_model(v@)[1] =~~= help_topics()[1]);
    let mut options: Vec<HelpOption> = Vec::new();
    options.push(help_option("list-backups", "List available backups for a configuration file", false, None));
    options.push(help_option("restore", "Restore configuration from a backup", false, None));
    options.push(help_option("cleanup", "Clean up old backup files", false, None));
    assert(options@.map_values(|o: HelpOption| o@) =~~= help_topics()[2].1.options);
    let mut examples: Vec<String> = Vec::new();
    push_str(&mut examples, "sandbag config list-backups .markdownlint.json");
    push_str(&mut examples, "sandbag config restore backup_123 .markdownlint.json");
    push_str(&mut examples, "sandbag config cleanup --max-age 168");
    assert(strings_model(examples@) =~= help_topics()[2].1.examples);
    let mut related: Vec<String> = Vec::new();
    push_str(&mut related, "add");
    push_str(&mut related, "backup");
    assert(strings_model(related@) =~= help_topics()[2].1.related_topics);
    let t = help_topic("Configuration Management", "Manage configuration files, backups, and settings.", "sandbag config <subcommand> [options]", options, examples, related);
    v.push((String::from_str("config"), t));
    assert(topics_model(v@)[2] =~~= help_topics()[2]);
    v
}

/// The worked examples, by command name.
fn default_examples() -> (v: Vec<(String, Vec<HelpExample>)>)
    ensures
        examples_model(v@) =~~= help_examples(),
{
    let mut v: Vec<(String, Vec<HelpExample>)> = Vec::new();
    let mut list: Vec<HelpExample> = Vec::new();
    list.push(help_example("Basic Rule Addition", "Add a simple rule ID to disable it", "sandbag add MD033", "🔧 Adding Rule Configuration\n==========================================\n\n⏳ Analyzing rule input...\n📊 Rule Analysis Results\n==================================================\n\nRule 1: MD033\nConfidence: [████████░░] 95.0%\nLinter: markdownlint\nSuggested Action: Disable\nMessage: Inline HTML detected\n\n🧠 Semantic Analysis\n------------------------------\nRule MD033: security\n\n💡 Recommendations\n• Consider using more specific actions instead of disabling rules (Priority: 0.8)\n\n✅ Rule configuration applied successfully!"));
    list.push(help_example("Complex Rule Input", "Add a rule from linter output with context", "sandbag add 'MD033/no-inline-html: Inline HTML [Element: div]'", "🔧 Adding Rule Configuration\n==========================================\n\n⏳ Analyzing rule input...\n📊 Rule Analysis Results\n==================================================\n\nRule 1: MD033\nConfidence: [████████░░] 95.0%\nLinter: markdownlint\nSuggested Action: Disable\nMessage: Inline HTML [Element: div]\n\n✅ Rule configuration applied successfully!"));
    v.push((String::from_str("add"), list));
    let mut list: Vec<HelpExample> = Vec::new();
    list.push(help_example("Project Scan", "Scan the current project for rule suggestions", "sandbag scan", "🔧 Project Configuration Scan\n==========================================\n\n████████████████████████████████████████ 100% Scanning... 100%\nScan completed\n\n🔍 Scan Results\nLimit: 10 rules\nInclude low confidence: No\n\nRule        Description                Confidence Priority\n-------------------------------------------------------\nMD033       No inline HTML            95.0%      High\nMD013       Line length               87.0%      High\nMD041       First line heading        72.0%      Medium\nMD009       No trailing spaces        65.0%      Medium"));
    v.push((String::from_str("scan"), list));
    v
}

/// An option of a topic.
fn help_option(flag: &str, description: &str, required: bool, default: Option<&str>) -> (o: HelpOption)
    ensures
        o@ == (OptionModel {
            flag: flag@,
            description: description@,
            required,
            default: match default {
                Some(d) => Some(d@),
                None => None,
            },
        }),
{
    HelpOption {
        flag: String::from_str(flag),
        description: String::from_str(description),
        required,
        default: match default {
            Some(d) => Some(String::from_str(d)),
            None => None,
        },
    }
}

/// A topic.
fn help_topic(
    title: &str,
    description: &str,
    usage: &str,
    options: Vec<HelpOption>,
    examples: Vec<String>,
    related_topics: Vec<String>,
) -> (t: HelpTopic)
    ensures
        t@.title == title@,
        t@.description == description@,
        t@.usage == usage@,
        t@.options == options@.map_values(|o: HelpOption| o@),
        t@.examples == strings_model(examples@),
        t@.related_topics == strings_model(related_topics@),
{
    HelpTopic {
        title: String::from_str(title),
        description: String::from_str(description),
        usage: String::from_str(usage),
        options,
        examples,
        related_topics,
    }
}

/// A worked example.
fn help_example(title: &str, description: &str, command: &str, output: &str) -> (e: HelpExample)
    ensures
        e@ == (ExampleModel {
            title: title@,
            description: description@,
            command: command@,
            output: output@,
        }),
{
    HelpExample {
        title: String::from_str(title),
        description: String::from_str(description),
        command: String::from_str(command),
        output: String::from_str(output),
    }
}

/// The help content and mode of a help system.
pub struct HelpModel {
    pub topics: Seq<(Seq<char>, TopicModel)>,
    pub examples: Seq<(Seq<char>, Seq<ExampleModel>)>,
    pub interactive: bool,
}

/// Help topics and worked examples for the commands.
pub struct HelpSystem {
    topics: Vec<(String, HelpTopic)>,
    examples: Vec<(String, Vec<HelpExample>)>,
    interactive_mode: bool,
}

impl View for HelpSystem {
    type V = HelpModel;

    closed spec fn view(&self) -> HelpModel {
        HelpModel {
            topics: topics_model(self.topics@),
            examples: examples_model(self.examples@),
            interactive: self.interactive_mode,
        }
    }
}

impl HelpSystem {
    /// The help for `add`, `scan` and `config`, with worked examples for `add` and `scan`;
    /// interactive.
    pub fn new() -> (h: Self)
        ensures
            h@.topics =~~= help_topics(),
            h@.examples =~~= help_examples(),
            h@.interactive,
    {
        HelpSystem { topics: default_topics(), examples: default_examples(), interactive_mode: true }
    }

    /// Whether the help offers interactive prompts.
    pub fn is_interactive(&self) -> (b: bool)
        ensures
            b == self@.interactive,
    {
        self.interactive_mode
    }

    /// The number of topics.
    pub fn topic_count(&self) -> (n: usize)
        ensures
            n == self@.topics.len(),
    {
        self.topics.len()
    }

    /// The number of topics with worked examples.
    pub fn example_topic_count(&self) -> (n: usize)
        ensures
            n == self@.examples.len(),
    {
        self.examples.len()
    }

    /// The names of the topics, in table order.
    pub fn topic_names(&self) -> (r: Vec<String>)
        ensures
            strings_model(r@) == self@.topics.map_values(|p: (Seq<char>, TopicModel)| p.0),
    {
        let ghost t = self@.topics;
        let mut r: Vec<String> = Vec::new();
        let mut i: usize = 0;
        while i < self.topics.len()
            invariant
                i <= self.topics@.len(),
                t == topics_model(self.topics@),
                strings_model(r@) == t.take(i as int).map_values(|p: (Seq<char>, TopicModel)| p.0),
            decreases self.topics@.len() - i,
        {
            let ghost before = strings_model(r@);
            let name = self.topics[i].0.clone();
            assert(name@ == t[i as int].0);
            r.push(name);
            assert(strings_model(r@) =~= before.push(t[i as int].0));
            assert(t.take(i + 1).map_values(|p: (Seq<char>, TopicModel)| p.0) =~= t.take(
                i as int,
            ).map_values(|p: (Seq<char>, TopicModel)| p.0).push(t[i as int].0));
            i = i + 1;
        }
        assert(t.take(self.topics@.len() as int) =~= t);
        r
    }

    /// Position of the topic with the name.
    fn find_topic(&self, name: &str) -> (r: Option<usize>)
        ensures
            match r {
                Some(i) => i < self.topics@.len() && entry(self@.topics, name@) == Some(
                    self.topics@[i as int].1@,
                ),
                None => entry(self@.topics, name@) is None,
            },
    {
        let ghost t = self@.topics;
        let mut i: usize = 0;
        while i < self.topics.len()
            invariant
                i <= self.topics@.len(),
                t == topics_model(self.topics@),
                forall|j: int| 0 <= j < i ==> (#[trigger] t[j]).0 != name@,
            decreases self.topics@.len() - i,
        {
            if crate::text::str_equal(self.topics[i].0.as_str(), name) {
                proof {
                    lemma_entry_skip(t, name@, i as int);
                }
                return Some(i);
            }
            i = i + 1;
        }
        proof {
            lemma_entry_skip(t, name@, t.len() as int);
        }
        None
    }

    /// The topic with the name.
    pub fn get_topic(&self, name: &str) -> (r: Option<&HelpTopic>)
        ensures
            match r {
                Some(topic) => entry(self@.topics, name@) == Some(topic@),
                None => entry(self@.topics, name@) is None,
            },
    {
        match self.find_topic(name) {
            Some(i) => Some(&self.topics[i].1),
            None => None,
        }
    }

    /// Whether there is a topic with the name.
    pub fn has_topic(&self, name: &str) -> (b: bool)
        ensures
            b == entry(self@.topics, name@) is Some,
    {
        self.find_topic(name).is_some()
    }

    /// The worked examples for the named topic.
    pub fn get_examples(&self, name: &str) -> (r: Option<&Vec<HelpExample>>)
        ensures
            match r {
                Some(list) => entry(self@.examples, name@) == Some(
                    list@.map_values(|e: HelpExample| e@),
                ),
                None => entry(self@.examples, name@) is None,
            },
    {
        let ghost t = self@.examples;
        let mut i: usize = 0;
        while i < self.examples.len()
            invariant
                i <= self.examples@.len(),
                t == examples_model(self.examples@),
                forall|j: int| 0 <= j < i ==> (#[trigger] t[j]).0 != name@,
            decreases self.examples@.len() - i,
        {
            if crate::text::str_equal(self.examples[i].0.as_str(), name) {
                proof {
                    lemma_entry_skip(t, name@, i as int);
                }
                return Some(&self.examples[i].1);
            }
            i = i + 1;
        }
        proof {
            lemma_entry_skip(t, name@, t.len() as int);
        }
        None
    }

    /// Whether there are worked examples for the named topic.
    pub fn has_examples(&self, name: &str) -> (b: bool)
        ensures
            b == entry(self@.examples, name@) is Some,
    {
        self.get_examples(name).is_some()
    }

    /// The names of the topics that match the query: the name holds it, or the title or the
    /// description holds it ignoring case.
    pub fn search_help(&self, query: &str) -> (r: Vec<String>)
        ensures
            strings_model(r@) == search_matches(self@.topics, query@),
    {
        let ghost t = self@.topics;
        let q = to_lowercase(query);
        let mut r: Vec<String> = Vec::new();
        let mut i: usize = 0;
        while i < self.topics.len()
            invariant
                i <= self.topics@.len(),
                t == topics_model(self.topics@),
                q@ == lowercase(query@),
                strings_model(r@) == search_matches(t.take(i as int), query@),
            decreases self.topics@.len() - i,
        {
            assert(t.take(i + 1).drop_last() =~= t.take(i as int));
            let (name, topic) = (&self.topics[i].0, &self.topics[i].1);
            let title = to_lowercase(topic.title.as_str());
            let description = to_lowercase(topic.description.as_str());
            if str_contains(name.as_str(), query) || str_contains(title.as_str(), q.as_str())
                || str_contains(description.as_str(), q.as_str()) {
                r.push(name.clone());
                assert(strings_model(r@) =~= strings_model(r@.drop_last()).push(name@));
            }
            i = i + 1;
        }
        assert(t.take(self.topics@.len() as int) =~= t);
        r
    }
}

/// Every search result names a topic.
pub proof fn law_search_finds_topics(t: Seq<(Seq<char>, TopicModel)>, q: Seq<char>)
    ensures
        forall|i: int|
            0 <= i < search_matches(t, q).len() ==> exists|j: int|
                0 <= j < t.len() && (#[trigger] t[j]).0 == #[trigger] search_matches(t, q)[i],
    decreases t.len(),
{
    if t.len() > 0 {
        let p = t.drop_last();
        law_search_finds_topics(p, q);
        let prev = search_matches(p, q);
        let r = search_matches(t, q);
        assert forall|i: int| 0 <= i < r.len() implies exists|j: int|
            0 <= j < t.len() && (#[trigger] t[j]).0 == #[trigger] r[i] by {
            if i < prev.len() {
                assert(r[i] == prev[i]);
                let j = choose|j: int| 0 <= j < p.len() && (#[trigger] p[j]).0 == prev[i];
                assert(t[j] == p[j]);
            } else {
                assert(r[i] == t.last().0);
                assert(t[t.len() - 1] == t.last());
            }
        }
    }
}

} // verus!
