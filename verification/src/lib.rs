//! Sandbag: linter rule extraction and configuration management.
pub mod analysis;
pub mod config;
pub mod linters;
pub mod pattern;
pub mod performance;
pub mod text;
pub mod ui;
pub mod utils;

use vstd::prelude::*;
use crate::analysis::{RuleMatch, matches_model};
use crate::config::{ASTNode, ConfigFormat, NodeModel};
use crate::config::parser::{
    law_set_path_idempotent, law_set_path_keeps_others, law_set_path_then_read, new_value, set_path, set_section_value, set_top_value,
    value_along, value_node,
};
use crate::linters::{LinterKind, LinterRegistry, registry_extract_lines, strings_model};
use crate::text::{has_sub, lowercase, str_contains, str_equal, to_lowercase, trimmed_lines};
use crate::utils::concat;
use crate::utils::fs::lowercase_extension;

verus! {

/// The registry of the built-in linters: markdownlint, ESLint and Prettier, in that order.
pub open spec fn builtin_registry() -> Seq<(Seq<char>, LinterKind)> {
    seq![
        ("markdownlint"@, LinterKind::Markdownlint),
        ("eslint"@, LinterKind::ESLint),
        ("prettier"@, LinterKind::Prettier),
    ]
}

/// The setting a Prettier rule is answered with.
#[derive(Debug, Clone, PartialEq, Eq)]
pub enum PrettierSetting {
    /// `semi: false`
    NoSemicolons,
    /// `printWidth: 120`
    WideLines,
    /// `__note: "Handled rule <rule>"`, recording that the rule was seen
    Note(String),
}

/// The mathematical content of a [`PrettierSetting`].
pub enum SettingModel {
    NoSemicolons,
    WideLines,
    Note(Seq<char>),
}

impl View for PrettierSetting {
    type V = SettingModel;

    open spec fn view(&self) -> SettingModel {
        match self {
            PrettierSetting::NoSemicolons => SettingModel::NoSemicolons,
            PrettierSetting::WideLines => SettingModel::WideLines,
            PrettierSetting::Note(s) => SettingModel::Note(s@),
        }
    }
}

/// The Prettier setting for a rule: no semicolons when the rule or the lower-case message
/// speaks of semicolons, wider lines when the lower-case rule speaks of `printwidth` or the
/// message of width, else a note that the rule was handled.
pub open spec fn prettier_setting_for(rule_id: Seq<char>, message: Seq<char>) -> SettingModel {
    let m = lowercase(message);
    if has_sub(rule_id, "semi"@) || has_sub(m, "semicolon"@) {
        SettingModel::NoSemicolons
    } else if has_sub(lowercase(rule_id), "printwidth"@) || has_sub(m, "width"@) {
        SettingModel::WideLines
    } else {
        SettingModel::Note("Handled rule "@ + rule_id)
    }
}

/// The configuration tree after a rule of the linter is applied to it: a markdownlint rule
/// is set to `false` at the top level, an ESLint rule to `off` under `rules`, and any other
/// rule is answered with the Prettier setting for it, at the top level.
pub open spec fn rule_edit_for(root: NodeModel, linter: Seq<char>, rule_id: Seq<char>, message: Seq<char>) -> NodeModel {
    if linter == "markdownlint"@ {
        set_path(root, Seq::empty(), rule_id, value_node("false"@))
    } else if linter == "eslint"@ {
        set_path(root, seq!["rules"@], rule_id, value_node("off"@))
    } else if linter == "prettier"@ {
        match prettier_setting_for(rule_id, message) {
            SettingModel::NoSemicolons => set_path(root, Seq::empty(), "semi"@, value_node("false"@)),
            SettingModel::WideLines => set_path(root, Seq::empty(), "printWidth"@, value_node("120"@)),
            SettingModel::Note(n) => set_path(root, Seq::empty(), "__note"@, value_node(n)),
        }
    } else {
        root
    }
}

/// Applying a rule writes what it stands for: a markdownlint rule then reads `false` at
/// the top level, and an ESLint rule reads `off` under `rules`; every other key keeps its
/// value (the other rules under `rules`, and the other top-level settings); applying the same
/// rule a second time changes nothing.
pub proof fn law_apply_rule(root: NodeModel, linter: Seq<char>, rule_id: Seq<char>, message: Seq<char>)
    ensures
        linter == "markdownlint"@ ==> value_along(rule_edit_for(root, linter, rule_id, message), Seq::empty(), rule_id)
            == value_node("false"@),
        linter == "eslint"@ ==> value_along(rule_edit_for(root, linter, rule_id, message), seq!["rules"@], rule_id)
            == value_node("off"@),
        rule_edit_for(rule_edit_for(root, linter, rule_id, message), linter, rule_id, message) == rule_edit_for(
            root,
            linter,
            rule_id,
            message,
        ),
        linter == "markdownlint"@ ==> forall|k2: Seq<char>|
            k2 != rule_id ==> #[trigger] value_along(rule_edit_for(root, linter, rule_id, message), Seq::empty(), k2)
                == value_along(root, Seq::empty(), k2),
        linter == "eslint"@ ==> forall|k2: Seq<char>|
            k2 != rule_id ==> #[trigger] value_along(rule_edit_for(root, linter, rule_id, message), seq!["rules"@], k2)
                == value_along(root, seq!["rules"@], k2),
        linter == "eslint"@ ==> forall|k2: Seq<char>|
            k2 != "rules"@ ==> #[trigger] value_along(rule_edit_for(root, linter, rule_id, message), Seq::empty(), k2)
                == value_along(root, Seq::empty(), k2),
{
    let none = Seq::<Seq<char>>::empty();
    reveal_strlit("markdownlint");
    reveal_strlit("eslint");
    assert("markdownlint"@.len() != "eslint"@.len());
    if linter == "markdownlint"@ {
        law_set_path_then_read(root, none, rule_id, value_node("false"@));
        law_set_path_idempotent(root, none, rule_id, value_node("false"@));
        assert forall|k2: Seq<char>| k2 != rule_id implies #[trigger] value_along(
            rule_edit_for(root, linter, rule_id, message),
            Seq::empty(),
            k2,
        ) == value_along(root, Seq::empty(), k2) by {
            law_set_path_keeps_others(root, none, rule_id, value_node("false"@), 0, k2);
            assert(none.take(0) =~= none);
        }
    } else if linter == "eslint"@ {
        let segs = seq!["rules"@];
        law_set_path_then_read(root, segs, rule_id, value_node("off"@));
        law_set_path_idempotent(root, segs, rule_id, value_node("off"@));
        assert(segs.take(1) =~= segs);
        assert(segs.take(0) =~= none);
        assert forall|k2: Seq<char>| k2 != rule_id implies #[trigger] value_along(
            rule_edit_for(root, linter, rule_id, message),
            seq!["rules"@],
            k2,
        ) == value_along(root, seq!["rules"@], k2) by {
            law_set_path_keeps_others(root, segs, rule_id, value_node("off"@), 1, k2);
        }
        assert forall|k2: Seq<char>| k2 != "rules"@ implies #[trigger] value_along(
            rule_edit_for(root, linter, rule_id, message),
            Seq::empty(),
            k2,
        ) == value_along(root, Seq::empty(), k2) by {
            law_set_path_keeps_others(root, segs, rule_id, value_node("off"@), 0, k2);
        }
    } else if linter == "prettier"@ {
        match prettier_setting_for(rule_id, message) {
            SettingModel::NoSemicolons => law_set_path_idempotent(root, none, "semi"@, value_node("false"@)),
            SettingModel::WideLines => law_set_path_idempotent(root, none, "printWidth"@, value_node("120"@)),
            SettingModel::Note(n) => law_set_path_idempotent(root, none, "__note"@, value_node(n)),
        }
    }
}

/// The configuration files looked for, in order, when applying a rule of the linter.
pub open spec fn config_candidates_for(linter: Seq<char>) -> Seq<Seq<char>> {
    if linter == "markdownlint"@ {
        seq![".markdownlint.json"@, ".markdownlint.jsonc"@, ".markdownlint.yaml"@, ".markdownlint.yml"@]
    } else if linter == "eslint"@ {
        seq![".eslintrc.json"@, ".eslintrc.jsonc"@, ".eslintrc.yaml"@, ".eslintrc.yml"@, "eslint.config.js"@]
    } else if linter == "prettier"@ {
        seq![
            ".prettierrc"@,
            ".prettierrc.json"@,
            ".prettierrc.jsonc"@,
            ".prettierrc.yaml"@,
            ".prettierrc.yml"@,
            "prettier.config.json"@,
            "prettier.config.yaml"@,
            "prettier.config.yml"@,
        ]
    } else {
        Seq::empty()
    }
}

/// The configuration file made when none is found, with its first contents, for the linters
/// whose rules can be applied.
pub open spec fn fallback_config_for(linter: Seq<char>) -> Option<(Seq<char>, Seq<char>)> {
    if linter == "markdownlint"@ {
        Some((".markdownlint.json"@, "{\n  \"default\": true\n}\n"@))
    } else if linter == "eslint"@ {
        Some((".eslintrc.json"@, "{\n  \"rules\": {}\n}\n"@))
    } else if linter == "prettier"@ {
        Some((".prettierrc.json"@, "{\n}\n"@))
    } else {
        None
    }
}

/// The format a configuration file is edited in: YAML for `yaml` and `yml` files, JSON
/// otherwise, ignoring case.
pub open spec fn edit_format_for(path: Seq<char>) -> ConfigFormat {
    match lowercase_extension(path) {
        Some(e) => if e == "yaml"@ || e == "yml"@ {
            ConfigFormat::Yaml
        } else {
            ConfigFormat::Json
        },
        None => ConfigFormat::Json,
    }
}

/// The first candidate that exists, else the fallback.
pub open spec fn first_existing(candidates: Seq<Seq<char>>, exists: Seq<bool>, fallback: Seq<char>) -> Seq<
    char,
>
    decreases candidates.len(),
{
    if candidates.len() == 0 {
        fallback
    } else if exists.len() > 0 && exists[0] {
        candidates[0]
    } else {
        first_existing(
            candidates.drop_first(),
            if exists.len() > 0 {
                exists.drop_first()
            } else {
                exists
            },
            fallback,
        )
    }
}

/// Main application: extracts rules from linter output and decides how to apply them.
pub struct Sandbag {
    registry: LinterRegistry,
}

impl Sandbag {
    #[verifier::type_invariant]
    spec fn well_formed(self) -> bool {
        self.registry@ == builtin_registry()
    }

    /// The linters the application knows, by name.
    pub closed spec fn registry_spec(&self) -> Seq<(Seq<char>, LinterKind)> {
        self.registry@
    }

    /// An application with the built-in linters.
    pub fn new() -> (s: Self)
        ensures
            s.registry_spec() == builtin_registry(),
    {
        let registry = LinterRegistry::new();
        Sandbag { registry }
    }

    /// The registry of the linters.
    pub fn linter_registry(&self) -> (r: &LinterRegistry)
        ensures
            r@ == builtin_registry(),
    {
        proof {
            use_type_invariant(self);
        }
        &self.registry
    }

    /// The rules found in the input, line by line.
    pub fn extract_rules(&self, input: &str) -> (r: Vec<RuleMatch>)
        ensures
            matches_model(r@) == registry_extract_lines(builtin_registry(), trimmed_lines(input@)),
    {
        self.linter_registry().extract_rules(input)
    }

    /// The configuration files looked for, in order, when applying a rule of the linter.
    pub fn config_candidates(linter: &str) -> (r: Vec<String>)
        ensures
            strings_model(r@) == config_candidates_for(linter@),
    {
        let mut v: Vec<String> = Vec::new();
        if str_equal(linter, "markdownlint") {
            linters::push_str(&mut v, ".markdownlint.json");
            linters::push_str(&mut v, ".markdownlint.jsonc");
            linters::push_str(&mut v, ".markdownlint.yaml");
            linters::push_str(&mut v, ".markdownlint.yml");
        } else if str_equal(linter, "eslint") {
            linters::push_str(&mut v, ".eslintrc.json");
            linters::push_str(&mut v, ".eslintrc.jsonc");
            linters::push_str(&mut v, ".eslintrc.yaml");
            linters::push_str(&mut v, ".eslintrc.yml");
            linters::push_str(&mut v, "eslint.config.js");
        } else if str_equal(linter, "prettier") {
            linters::push_str(&mut v, ".prettierrc");
            linters::push_str(&mut v, ".prettierrc.json");
            linters::push_str(&mut v, ".prettierrc.jsonc");
            linters::push_str(&mut v, ".prettierrc.yaml");
            linters::push_str(&mut v, ".prettierrc.yml");
            linters::push_str(&mut v, "prettier.config.json");
            linters::push_str(&mut v, "prettier.config.yaml");
            linters::push_str(&mut v, "prettier.config.yml");
        }
        assert(strings_model(v@) =~= config_candidates_for(linter@));
        v
    }

    /// The configuration file made when none is found, and its first contents.
    pub fn fallback_config(linter: &str) -> (r: Option<(String, String)>)
        ensures
            match r {
                Some(p) => fallback_config_for(linter@) == Some((p.0@, p.1@)),
                None => fallback_config_for(linter@) is None,
            },
    {
        if str_equal(linter, "markdownlint") {
            Some((String::from_str(".markdownlint.json"), String::from_str("{\n  \"default\": true\n}\n")))
        } else if str_equal(linter, "eslint") {
            Some((String::from_str(".eslintrc.json"), String::from_str("{\n  \"rules\": {}\n}\n")))
        } else if str_equal(linter, "prettier") {
            Some((String::from_str(".prettierrc.json"), String::from_str("{\n}\n")))
        } else {
            None
        }
    }

    /// The first candidate marked as existing, else the fallback.
    pub fn choose_config_path(candidates: &Vec<String>, exists: &Vec<bool>, fallback: &str) -> (r:
        String)
        ensures
            r@ == first_existing(strings_model(candidates@), exists@, fallback@),
    {
        let ghost c = strings_model(candidates@);
        assert(c.skip(0) =~= c);
        assert(exists@.skip(0) =~= exists@);
        let mut i: usize = 0;
        while i < candidates.len()
            invariant
                i <= candidates@.len(),
                c == strings_model(candidates@),
                first_existing(c, exists@, fallback@) == first_existing(
                    c.skip(i as int),
                    if i <= exists@.len() {
                        exists@.skip(i as int)
                    } else {
                        Seq::empty()
                    },
                    fallback@,
                ),
            decreases candidates@.len() - i,
        {
            let ghost cs = c.skip(i as int);
            let ghost es = if i <= exists@.len() {
                exists@.skip(i as int)
            } else {
                Seq::<bool>::empty()
            };
            assert(cs[0] == candidates@[i as int]@);
            assert(cs.drop_first() =~= c.skip(i + 1));
            if i < exists.len() {
                assert(es[0] == exists@[i as int]);
                assert(es.drop_first() =~= exists@.skip(i + 1));
                if exists[i] {
                    return candidates[i].clone();
                }
                assert(first_existing(cs, es, fallback@) == first_existing(
                    c.skip(i + 1),
                    exists@.skip(i + 1),
                    fallback@,
                ));
            } else {
                assert(es =~= Seq::<bool>::empty());
                assert(first_existing(cs, es, fallback@) == first_existing(
                    c.skip(i + 1),
                    Seq::<bool>::empty(),
                    fallback@,
                ));
            }
            i = i + 1;
        }
        assert(c.skip(i as int).len() == 0);
        String::from_str(fallback)
    }

    /// The format a configuration file is edited in, by its extension.
    pub fn edit_format(path: &str) -> (f: ConfigFormat)
        ensures
            f == edit_format_for(path@),
    {
        match crate::utils::fs::FSUtils::get_file_extension(path) {
            Some(e) => {
                if str_equal(e.as_str(), "yaml") || str_equal(e.as_str(), "yml") {
                    ConfigFormat::Yaml
                } else {
                    ConfigFormat::Json
                }
            },
            None => ConfigFormat::Json,
        }
    }

    /// The configuration tree with the rule applied: see [`rule_edit_for`]. An absent
    /// message counts as empty.
    pub fn apply_rule_to_tree(root: ASTNode, linter: &str, rule_id: &str, message: Option<&str>) -> (r: ASTNode)
        ensures
            r@ == rule_edit_for(
                root@,
                linter@,
                rule_id@,
                match message {
                    Some(m) => m@,
                    None => ""@,
                },
            ),
    {
        if str_equal(linter, "markdownlint") {
            set_top_value(root, rule_id, new_value("false"))
        } else if str_equal(linter, "eslint") {
            set_section_value(root, "rules", rule_id, new_value("off"))
        } else if str_equal(linter, "prettier") {
            match Self::prettier_setting(rule_id, message) {
                PrettierSetting::NoSemicolons => set_top_value(root, "semi", new_value("false")),
                PrettierSetting::WideLines => set_top_value(root, "printWidth", new_value("120")),
                PrettierSetting::Note(n) => set_top_value(root, "__note", new_value(n.as_str())),
            }
        } else {
            root
        }
    }

    /// The Prettier setting that answers a rule, given its message (an absent message
    /// counts as empty).
    pub fn prettier_setting(rule_id: &str, message: Option<&str>) -> (s: PrettierSetting)
        ensures
            s@ == prettier_setting_for(
                rule_id@,
                match message {
                    Some(m) => m@,
                    None => ""@,
                },
            ),
    {
        let m = match message {
            Some(t) => to_lowercase(t),
            None => to_lowercase(""),
        };
        if str_contains(rule_id, "semi") || str_contains(m.as_str(), "semicolon") {
            PrettierSetting::NoSemicolons
        } else {
            let r = to_lowercase(rule_id);
            if str_contains(r.as_str(), "printwidth") || str_contains(m.as_str(), "width") {
                PrettierSetting::WideLines
            } else {
                PrettierSetting::Note(concat("Handled rule ", rule_id))
            }
        }
    }
}

} // verus!
