//! Linter output handlers and the registry that picks one for a line of output.
pub mod eslint;
pub mod markdownlint;
pub mod plugin_architecture;
pub mod prettier;

use vstd::prelude::*;

verus! {

/// The characters of each string.
pub open spec fn strings_model(v: Seq<String>) -> Seq<Seq<char>> {
    v.map_values(|s: String| s@)
}

/// The characters of each pair of strings.
pub open spec fn table_model(v: Seq<(String, String)>) -> Seq<(Seq<char>, Seq<char>)> {
    v.map_values(|p: (String, String)| (p.0@, p.1@))
}

/// The text paired with the first occurrence of `key` in `db`, from position `i` on.
pub open spec fn lookup_from(db: Seq<(Seq<char>, Seq<char>)>, key: Seq<char>, i: int) -> Option<
    Seq<char>,
>
    decreases db.len() - i,
{
    if i < 0 || i >= db.len() {
        None
    } else if db[i].0 == key {
        Some(db[i].1)
    } else {
        lookup_from(db, key, i + 1)
    }
}

/// The text paired with `key` in `db`.
pub open spec fn lookup(db: Seq<(Seq<char>, Seq<char>)>, key: Seq<char>) -> Option<Seq<char>> {
    lookup_from(db, key, 0)
}

/// A `String` holding the characters of `s`.
pub fn lit(s: &str) -> (r: String)
    ensures
        r@ == s@,
{
    String::from_str(s)
}

/// Appends the pair (`k`, `d`) to a table.
pub fn push_pair(v: &mut Vec<(String, String)>, k: &str, d: &str)
    ensures
        table_model(final(v)@) == table_model(old(v)@).push((k@, d@)),
{
    v.push((lit(k), lit(d)));
    assert(table_model(v@) =~= table_model(old(v)@).push((k@, d@)));
}

/// Appends `s` to a list of strings.
pub fn push_str(v: &mut Vec<String>, s: &str)
    ensures
        strings_model(final(v)@) == strings_model(old(v)@).push(s@),
{
    v.push(lit(s));
    assert(strings_model(v@) =~= strings_model(old(v)@).push(s@));
}

/// The text paired with `key` in the table.
pub fn lookup_text(db: &Vec<(String, String)>, key: &Vec<char>) -> (r: Option<String>)
    ensures
        crate::config::opt_chars(r) == lookup(table_model(db@), key@),
{
    let ghost t = table_model(db@);
    let mut i: usize = 0;
    while i < db.len()
        invariant
            i <= db@.len(),
            t == table_model(db@),
            lookup(t, key@) == lookup_from(t, key@, i as int),
        decreases db@.len() - i,
    {
        let k = crate::text::to_chars(db[i].0.as_str());
        if crate::text::vec_equal(&k, key) {
            return Some(db[i].1.clone());
        }
        proof {
            assert(lookup_from(t, key@, i as int) == lookup_from(t, key@, i + 1));
        }
        i = i + 1;
    }
    None
}

} // verus!

use crate::analysis::{MatchModel, RuleMatch, matches_model};
use crate::text::{has_sub, lowercase, str_contains, to_lowercase, trimmed_lines, nonempty_trimmed_lines, vecs_model, chars_to_string};
use markdownlint::{MarkdownlintHandler, md_can_handle, md_extract_lines, md_config_files};
use eslint::{ESLintHandler, eslint_can_handle, eslint_extract_lines, eslint_config_files};
use prettier::{PrettierHandler, prettier_can_handle, prettier_extract_lines, prettier_config_files};

verus! {

/// The three built-in linters.
#[derive(Debug, Clone, Copy, PartialEq, Eq, Structural)]
pub enum LinterKind {
    /// markdownlint
    Markdownlint,
    /// ESLint
    ESLint,
    /// Prettier
    Prettier,
}

/// Whether the linter recognises the text as its output.
pub open spec fn kind_can_handle(k: LinterKind, input: Seq<char>) -> bool {
    match k {
        LinterKind::Markdownlint => md_can_handle(input),
        LinterKind::ESLint => eslint_can_handle(input),
        LinterKind::Prettier => prettier_can_handle(input),
    }
}

/// The rules the linter's handler extracts from the text.
pub open spec fn kind_extract(k: LinterKind, input: Seq<char>) -> Seq<MatchModel> {
    match k {
        LinterKind::Markdownlint => md_extract_lines(trimmed_lines(input)),
        LinterKind::ESLint => eslint_extract_lines(trimmed_lines(input)),
        LinterKind::Prettier => prettier_extract_lines(trimmed_lines(input)),
    }
}

/// The name the linter reports.
pub open spec fn kind_name(k: LinterKind) -> Seq<char> {
    match k {
        LinterKind::Markdownlint => "markdownlint"@,
        LinterKind::ESLint => "eslint"@,
        LinterKind::Prettier => "prettier"@,
    }
}

/// The rule format the linter reports.
pub open spec fn kind_format(k: LinterKind) -> Seq<char> {
    match k {
        LinterKind::Markdownlint => "MDxxx"@,
        LinterKind::ESLint => "category/rule-name"@,
        LinterKind::Prettier => "prettier/rule-name"@,
    }
}

/// The configuration files the linter reads.
pub open spec fn kind_config_files(k: LinterKind) -> Seq<Seq<char>> {
    match k {
        LinterKind::Markdownlint => md_config_files(),
        LinterKind::ESLint => eslint_config_files(),
        LinterKind::Prettier => prettier_config_files(),
    }
}

/// A handler for one linter's output.
#[derive(Debug)]
pub enum LinterHandler {
    /// markdownlint output
    Markdownlint(MarkdownlintHandler),
    /// ESLint output
    ESLint(ESLintHandler),
    /// Prettier output
    Prettier(PrettierHandler),
}

impl View for LinterHandler {
    type V = LinterKind;

    open spec fn view(&self) -> LinterKind {
        match self {
            LinterHandler::Markdownlint(_) => LinterKind::Markdownlint,
            LinterHandler::ESLint(_) => LinterKind::ESLint,
            LinterHandler::Prettier(_) => LinterKind::Prettier,
        }
    }
}

impl LinterHandler {
    /// A handler for the given linter.
    pub fn for_kind(k: LinterKind) -> (h: Self)
        ensures
            h@ == k,
    {
        match k {
            LinterKind::Markdownlint => LinterHandler::Markdownlint(MarkdownlintHandler::new()),
            LinterKind::ESLint => LinterHandler::ESLint(ESLintHandler::new()),
            LinterKind::Prettier => LinterHandler::Prettier(PrettierHandler::new()),
        }
    }

    /// Check if this handler can process the given input.
    pub fn can_handle(&self, input: &str) -> (b: bool)
        ensures
            b == kind_can_handle(self@, input@),
    {
        match self {
            LinterHandler::Markdownlint(h) => h.can_handle(input),
            LinterHandler::ESLint(h) => h.can_handle(input),
            LinterHandler::Prettier(h) => h.can_handle(input),
        }
    }

    /// Extract rules from linter output.
    pub fn extract_rules(&self, input: &str) -> (r: Vec<RuleMatch>)
        ensures
            matches_model(r@) == kind_extract(self@, input@),
    {
        match self {
            LinterHandler::Markdownlint(h) => h.extract_rules(input),
            LinterHandler::ESLint(h) => h.extract_rules(input),
            LinterHandler::Prettier(h) => h.extract_rules(input),
        }
    }

    /// Get the name of the linter.
    pub fn get_linter_name(&self) -> (s: &'static str)
        ensures
            s@ == kind_name(self@),
    {
        match self {
            LinterHandler::Markdownlint(h) => h.get_linter_name(),
            LinterHandler::ESLint(h) => h.get_linter_name(),
            LinterHandler::Prettier(h) => h.get_linter_name(),
        }
    }

    /// Get configuration file patterns for this linter.
    pub fn get_config_file_patterns(&self) -> (v: Vec<String>)
        ensures
            strings_model(v@) == kind_config_files(self@),
    {
        match self {
            LinterHandler::Markdownlint(h) => h.get_config_file_patterns(),
            LinterHandler::ESLint(h) => h.get_config_file_patterns(),
            LinterHandler::Prettier(h) => h.get_config_file_patterns(),
        }
    }

    /// Get the rule format for this linter.
    pub fn get_rule_format(&self) -> (s: &'static str)
        ensures
            s@ == kind_format(self@),
    {
        match self {
            LinterHandler::Markdownlint(h) => h.get_rule_format(),
            LinterHandler::ESLint(h) => h.get_rule_format(),
            LinterHandler::Prettier(h) => h.get_rule_format(),
        }
    }
}

/// Linter registry for managing multiple linters, in registration order.
pub struct LinterRegistry {
    handlers: Vec<(String, LinterHandler)>,
}

/// The registered linters: each name with its handler's linter.
pub open spec fn registry_model(h: Seq<(String, LinterHandler)>) -> Seq<(Seq<char>, LinterKind)> {
    h.map_values(|p: (String, LinterHandler)| (p.0@, p.1@))
}

impl View for LinterRegistry {
    type V = Seq<(Seq<char>, LinterKind)>;

    closed spec fn view(&self) -> Seq<(Seq<char>, LinterKind)> {
        registry_model(self.handlers@)
    }
}

/// Position of the first registration under `name`, from `i` on, or -1.
pub open spec fn reg_find(r: Seq<(Seq<char>, LinterKind)>, name: Seq<char>, i: int) -> int
    decreases r.len() - i,
{
    if i < 0 || i >= r.len() {
        -1
    } else if r[i].0 == name {
        i
    } else {
        reg_find(r, name, i + 1)
    }
}

/// The handler registered under `name`.
pub open spec fn reg_get(r: Seq<(Seq<char>, LinterKind)>, name: Seq<char>) -> Option<LinterKind> {
    let i = reg_find(r, name, 0);
    if i >= 0 {
        Some(r[i].1)
    } else {
        None
    }
}

/// The registry after registering `k` under `name`: a registration under the same name is
/// replaced in place, a new name is added last.
pub open spec fn reg_insert(r: Seq<(Seq<char>, LinterKind)>, name: Seq<char>, k: LinterKind) -> Seq<
    (Seq<char>, LinterKind),
> {
    let i = reg_find(r, name, 0);
    if i >= 0 {
        r.update(i, (name, k))
    } else {
        r.push((name, k))
    }
}

/// The first handler, from position `i` on, that recognises the text.
pub open spec fn first_capable(r: Seq<(Seq<char>, LinterKind)>, input: Seq<char>, i: int) -> Option<
    LinterKind,
>
    decreases r.len() - i,
{
    if i < 0 || i >= r.len() {
        None
    } else if kind_can_handle(r[i].1, input) {
        Some(r[i].1)
    } else {
        first_capable(r, input, i + 1)
    }
}

/// The registered handler under `name` when it recognises the text.
pub open spec fn capable(r: Seq<(Seq<char>, LinterKind)>, name: Seq<char>, input: Seq<char>) -> Option<
    LinterKind,
> {
    match reg_get(r, name) {
        Some(k) => if kind_can_handle(k, input) {
            Some(k)
        } else {
            None
        },
        None => None,
    }
}

/// The handler for a text: Prettier first when the lower-case text names it, then ESLint
/// when it names ESLint or holds `error` or `warn`, then markdownlint when the lower-case
/// text holds `md` or the text `markdown`; otherwise the first registered handler that
/// recognises the text.
pub open spec fn choose_handler(r: Seq<(Seq<char>, LinterKind)>, input: Seq<char>) -> Option<LinterKind> {
    let lower = lowercase(input);
    if has_sub(lower, "prettier"@) && capable(r, "prettier"@, input) is Some {
        capable(r, "prettier"@, input)
    } else if (has_sub(lower, "eslint"@) || has_sub(input, "error"@) || has_sub(input, "warn"@))
        && capable(r, "eslint"@, input) is Some {
        capable(r, "eslint"@, input)
    } else if (has_sub(lower, "md"@) || has_sub(input, "markdown"@)) && capable(
        r,
        "markdownlint"@,
        input,
    ) is Some {
        capable(r, "markdownlint"@, input)
    } else {
        first_capable(r, input, 0)
    }
}

/// The rules of each line in turn, each line handled by its chosen handler.
pub open spec fn registry_extract_lines(r: Seq<(Seq<char>, LinterKind)>, lines: Seq<Seq<char>>) -> Seq<
    MatchModel,
>
    decreases lines.len(),
{
    if lines.len() == 0 {
        Seq::empty()
    } else {
        registry_extract_lines(r, lines.drop_last()) + match choose_handler(r, lines.last()) {
            Some(k) => kind_extract(k, lines.last()),
            None => Seq::empty(),
        }
    }
}

/// Names of the built-in linters, in registration order.
pub open spec fn builtin_linters() -> Seq<Seq<char>> {
    seq!["markdownlint"@, "eslint"@, "prettier"@]
}

/// Information about a linter.
#[derive(Debug, Clone)]
pub struct LinterInfo {
    /// Linter name
    pub name: String,
    /// Canonical rule format (e.g., `MDxxx`)
    pub rule_format: String,
    /// Supported configuration files
    pub config_files: Vec<String>,
    /// Whether this linter is supported in the current build
    pub supported: bool,
}

impl LinterRegistry {
    /// Create a new linter registry holding the built-in linters.
    pub fn new() -> (r: Self)
        ensures
            r@ == seq![
                ("markdownlint"@, LinterKind::Markdownlint),
                ("eslint"@, LinterKind::ESLint),
                ("prettier"@, LinterKind::Prettier),
            ],
    {
        let mut registry = LinterRegistry { handlers: Vec::new() };
        proof {
            reveal_strlit("markdownlint");
            reveal_strlit("eslint");
            reveal_strlit("prettier");
            reveal_with_fuel(reg_find, 4);
        }
        assert(registry@ =~= Seq::<(Seq<char>, LinterKind)>::empty());
        registry.register_linter("markdownlint", LinterHandler::Markdownlint(MarkdownlintHandler::new()));
        assert(registry@ =~= seq![("markdownlint"@, LinterKind::Markdownlint)]);
        registry.register_linter("eslint", LinterHandler::ESLint(ESLintHandler::new()));
        assert("markdownlint"@.len() == 12 && "eslint"@.len() == 6 && "prettier"@.len() == 8);
        assert("markdownlint"@ != "eslint"@);
        assert("markdownlint"@ != "prettier"@);
        assert("eslint"@ != "prettier"@);
        assert(reg_find(seq![("markdownlint"@, LinterKind::Markdownlint)], "eslint"@, 0) == -1);
        assert(registry@ =~= seq![("markdownlint"@, LinterKind::Markdownlint), ("eslint"@, LinterKind::ESLint)]);
        registry.register_linter("prettier", LinterHandler::Prettier(PrettierHandler::new()));
        assert(reg_find(seq![("markdownlint"@, LinterKind::Markdownlint), ("eslint"@, LinterKind::ESLint)], "prettier"@, 0) == -1);
        assert(registry@ =~= seq![
            ("markdownlint"@, LinterKind::Markdownlint),
            ("eslint"@, LinterKind::ESLint),
            ("prettier"@, LinterKind::Prettier),
        ]);
        registry
    }

    fn find_index(&self, name: &str) -> (r: Option<usize>)
        ensures
            match r {
                Some(i) => reg_find(self@, name@, 0) == i as int && i < self.handlers@.len(),
                None => reg_find(self@, name@, 0) == -1,
            },
    {
        let key = crate::text::to_chars(name);
        let mut i: usize = 0;
        while i < self.handlers.len()
            invariant
                i <= self.handlers@.len(),
                key@ == name@,
                reg_find(self@, name@, 0) == reg_find(self@, name@, i as int),
            decreases self.handlers@.len() - i,
        {
            let k = crate::text::to_chars(self.handlers[i].0.as_str());
            assert(self@[i as int].0 == self.handlers@[i as int].0@);
            if crate::text::vec_equal(&k, &key) {
                return Some(i);
            }
            i = i + 1;
        }
        None
    }

    /// Register a linter handler under a name (replacing any handler of that name).
    pub fn register_linter(&mut self, name: &str, handler: LinterHandler)
        ensures
            final(self)@ == reg_insert(old(self)@, name@, handler@),
    {
        let ghost k = handler@;
        match self.find_index(name) {
            Some(i) => {
                self.handlers.set(i, (lit(name), handler));
                assert(self@ =~= reg_insert(old(self)@, name@, k));
            },
            None => {
                self.handlers.push((lit(name), handler));
                assert(self@ =~= reg_insert(old(self)@, name@, k));
            },
        }
    }

    /// Get a linter handler by name.
    pub fn get_handler(&self, name: &str) -> (r: Option<&LinterHandler>)
        ensures
            match r {
                Some(h) => reg_get(self@, name@) == Some(h@),
                None => reg_get(self@, name@) is None,
            },
    {
        match self.find_index(name) {
            Some(i) => Some(&self.handlers[i].1),
            None => None,
        }
    }

    /// Get all registered linter names.
    pub fn get_linter_names(&self) -> (v: Vec<String>)
        ensures
            strings_model(v@) == self@.map_values(|p: (Seq<char>, LinterKind)| p.0),
    {
        let mut v: Vec<String> = Vec::new();
        let mut i: usize = 0;
        while i < self.handlers.len()
            invariant
                i <= self.handlers@.len(),
                strings_model(v@) == self@.map_values(|p: (Seq<char>, LinterKind)| p.0).take(i as int),
            decreases self.handlers@.len() - i,
        {
            let name = self.handlers[i].0.clone();
            let ghost before = v@;
            assert(self@[i as int].0 == self.handlers@[i as int].0@);
            assert(name@ == self@[i as int].0);
            v.push(name);
            assert(strings_model(v@) =~= strings_model(before).push(name@));
            assert(self@.map_values(|p: (Seq<char>, LinterKind)| p.0).take(i + 1) =~= self@.map_values(
                |p: (Seq<char>, LinterKind)| p.0,
            ).take(i as int).push(self@[i as int].0));
            i = i + 1;
        }
        assert(self@.map_values(|p: (Seq<char>, LinterKind)| p.0).take(i as int) =~= self@.map_values(
            |p: (Seq<char>, LinterKind)| p.0,
        ));
        v
    }

    fn capable_handler(&self, name: &str, input: &str) -> (r: Option<&LinterHandler>)
        ensures
            match r {
                Some(h) => capable(self@, name@, input@) == Some(h@),
                None => capable(self@, name@, input@) is None,
            },
    {
        match self.get_handler(name) {
            Some(h) => if h.can_handle(input) {
                Some(h)
            } else {
                None
            },
            None => None,
        }
    }

    /// Find the appropriate handler for given input.
    pub fn find_handler(&self, input: &str) -> (r: Option<&LinterHandler>)
        ensures
            match r {
                Some(h) => choose_handler(self@, input@) == Some(h@),
                None => choose_handler(self@, input@) is None,
            },
    {
        let lower = to_lowercase(input);
        if str_contains(lower.as_str(), "prettier") {
            let h = self.capable_handler("prettier", input);
            if h.is_some() {
                return h;
            }
        }
        if str_contains(lower.as_str(), "eslint") || str_contains(input, "error") || str_contains(
            input,
            "warn",
        ) {
            let h = self.capable_handler("eslint", input);
            if h.is_some() {
                return h;
            }
        }
        if str_contains(lower.as_str(), "md") || str_contains(input, "markdown") {
            let h = self.capable_handler("markdownlint", input);
            if h.is_some() {
                return h;
            }
        }
        assert(choose_handler(self@, input@) == first_capable(self@, input@, 0));
        let mut i: usize = 0;
        while i < self.handlers.len()
            invariant
                i <= self.handlers@.len(),
                choose_handler(self@, input@) == first_capable(self@, input@, 0),
                first_capable(self@, input@, 0) == first_capable(self@, input@, i as int),
            decreases self.handlers@.len() - i,
        {
            assert(self@[i as int].1 == self.handlers@[i as int].1@);
            if self.handlers[i].1.can_handle(input) {
                return Some(&self.handlers[i].1);
            }
            i = i + 1;
        }
        None
    }

    /// Extract rules from each non-empty line of the input, using the handler chosen for
    /// that line.
    pub fn extract_rules(&self, input: &str) -> (r: Vec<RuleMatch>)
        ensures
            matches_model(r@) == registry_extract_lines(self@, trimmed_lines(input@)),
    {
        let lines = nonempty_trimmed_lines(input);
        let ghost ls = trimmed_lines(input@);
        let mut all: Vec<RuleMatch> = Vec::new();
        let mut i: usize = 0;
        while i < lines.len()
            invariant
                vecs_model(lines@) == ls,
                i <= lines@.len(),
                matches_model(all@) == registry_extract_lines(self@, ls.take(i as int)),
            decreases lines@.len() - i,
        {
            let line = chars_to_string(&lines[i]);
            assert(line@ == ls[i as int]);
            assert(ls.take(i + 1).drop_last() == ls.take(i as int));
            match self.find_handler(line.as_str()) {
                Some(h) => {
                    let mut found = h.extract_rules(line.as_str());
                    let ghost before = matches_model(all@);
                    let ghost more = matches_model(found@);
                    all.append(&mut found);
                    assert(matches_model(all@) =~= before + more);
                },
                None => {},
            }
            i = i + 1;
        }
        assert(ls.take(lines@.len() as int) == ls);
        all
    }

    /// Get handler for specific linter.
    pub fn get_handler_for_linter(&self, linter_name: &str) -> (r: Option<&LinterHandler>)
        ensures
            match r {
                Some(h) => reg_get(self@, linter_name@) == Some(h@),
                None => reg_get(self@, linter_name@) is None,
            },
    {
        self.get_handler(linter_name)
    }

    /// Check if a linter is supported.
    pub fn is_linter_supported(&self, linter_name: &str) -> (b: bool)
        ensures
            b == reg_get(self@, linter_name@) is Some,
    {
        self.find_index(linter_name).is_some()
    }

    /// Supported linters with their rule formats and configuration files.
    pub fn get_supported_linters(&self) -> (v: Vec<LinterInfo>)
        ensures
            v@.len() == self@.len(),
            forall|i: int|
                0 <= i < v@.len() ==> {
                    &&& #[trigger] v@[i].name@ == self@[i].0
                    &&& v@[i].rule_format@ == kind_format(self@[i].1)
                    &&& strings_model(v@[i].config_files@) == kind_config_files(self@[i].1)
                    &&& v@[i].supported
                },
    {
        let mut v: Vec<LinterInfo> = Vec::new();
        let mut i: usize = 0;
        while i < self.handlers.len()
            invariant
                i <= self.handlers@.len(),
                v@.len() == i,
                forall|t: int|
                    0 <= t < i ==> {
                        &&& #[trigger] v@[t].name@ == self@[t].0
                        &&& v@[t].rule_format@ == kind_format(self@[t].1)
                        &&& strings_model(v@[t].config_files@) == kind_config_files(self@[t].1)
                        &&& v@[t].supported
                    },
            decreases self.handlers@.len() - i,
        {
            let h = &self.handlers[i].1;
            assert(self@[i as int] == (self.handlers@[i as int].0@, self.handlers@[i as int].1@));
            let name = self.handlers[i].0.clone();
            let rule_format = lit(h.get_rule_format());
            let config_files = h.get_config_file_patterns();
            let ghost before = v@;
            assert(name@ == self@[i as int].0);
            assert(rule_format@ == kind_format(self@[i as int].1));
            assert(strings_model(config_files@) == kind_config_files(self@[i as int].1));
            let ghost cf = config_files@;
            let info = LinterInfo { name, rule_format, config_files, supported: true };
            v.push(info);
            assert(forall|t: int| 0 <= t < i ==> v@[t] == before[t]);
            assert(v@[i as int].name@ == self@[i as int].0);
            assert(v@[i as int].rule_format@ == kind_format(self@[i as int].1));
            assert(v@[i as int].config_files@ == cf);
            assert(strings_model(v@[i as int].config_files@) == kind_config_files(self@[i as int].1));
            i = i + 1;
        }
        v
    }
}

/// Linter factory for creating handlers.
pub struct LinterFactory;

impl LinterFactory {
    /// Create a handler for the specified linter.
    pub fn create_handler(linter_name: &str) -> (r: Option<LinterHandler>)
        ensures
            match r {
                Some(h) => (linter_name@ == "markdownlint"@ && h@ == LinterKind::Markdownlint) || (
                linter_name@ == "eslint"@ && h@ == LinterKind::ESLint) || (linter_name@
                    == "prettier"@ && h@ == LinterKind::Prettier),
                None => !builtin_linters().contains(linter_name@),
            },
    {
        let v = crate::text::to_chars(linter_name);
        proof {
            reveal_strlit("markdownlint");
            reveal_strlit("eslint");
            reveal_strlit("prettier");
        }
        if crate::text::vec_equal(&v, &crate::text::to_chars("markdownlint")) {
            Some(LinterHandler::Markdownlint(MarkdownlintHandler::new()))
        } else if crate::text::vec_equal(&v, &crate::text::to_chars("eslint")) {
            Some(LinterHandler::ESLint(ESLintHandler::new()))
        } else if crate::text::vec_equal(&v, &crate::text::to_chars("prettier")) {
            Some(LinterHandler::Prettier(PrettierHandler::new()))
        } else {
            assert(!builtin_linters().contains(linter_name@)) by {
                if builtin_linters().contains(linter_name@) {
                    let i = choose|i: int| 0 <= i < 3 && builtin_linters()[i] == linter_name@;
                    assert(i == 0 || i == 1 || i == 2);
                }
            }
            None
        }
    }

    /// Get all available linter names.
    pub fn get_available_linters() -> (v: Vec<String>)
        ensures
            strings_model(v@) == builtin_linters(),
    {
        let mut v: Vec<String> = Vec::new();
        push_str(&mut v, "markdownlint");
        push_str(&mut v, "eslint");
        push_str(&mut v, "prettier");
        assert(strings_model(v@) =~= builtin_linters());
        v
    }

    /// Validate linter name.
    pub fn is_valid_linter(linter_name: &str) -> (b: bool)
        ensures
            b == builtin_linters().contains(linter_name@),
    {
        let available = Self::get_available_linters();
        let key = crate::text::to_chars(linter_name);
        let mut i: usize = 0;
        while i < available.len()
            invariant
                strings_model(available@) == builtin_linters(),
                key@ == linter_name@,
                i <= available@.len(),
                forall|t: int| 0 <= t < i ==> builtin_linters()[t] != linter_name@,
            decreases available@.len() - i,
        {
            let a = crate::text::to_chars(available[i].as_str());
            assert(available@[i as int]@ == builtin_linters()[i as int]);
            if crate::text::vec_equal(&a, &key) {
                assert(builtin_linters()[i as int] == linter_name@);
                return true;
            }
            i = i + 1;
        }
        false
    }
}

proof fn lemma_reg_find(r: Seq<(Seq<char>, LinterKind)>, name: Seq<char>, i: int)
    requires
        0 <= i <= r.len(),
    ensures
        reg_find(r, name, i) == -1 || (i <= reg_find(r, name, i) < r.len()),
        reg_find(r, name, i) >= 0 ==> r[reg_find(r, name, i)].0 == name,
        forall|t: int|
            i <= t < r.len() && (reg_find(r, name, i) == -1 || t < reg_find(r, name, i)) ==> (
            #[trigger] r[t]).0 != name,
    decreases r.len() - i,
{
    if i < r.len() && r[i].0 != name {
        lemma_reg_find(r, name, i + 1);
    }
}

proof fn lemma_reg_find_same(
    r1: Seq<(Seq<char>, LinterKind)>,
    r2: Seq<(Seq<char>, LinterKind)>,
    name: Seq<char>,
    i: int,
)
    requires
        0 <= i <= r1.len(),
        r1.len() == r2.len(),
        forall|t: int| i <= t < r1.len() ==> (#[trigger] r1[t]).0 == r2[t].0,
    ensures
        reg_find(r1, name, i) == reg_find(r2, name, i),
    decreases r1.len() - i,
{
    if i < r1.len() {
        lemma_reg_find_same(r1, r2, name, i + 1);
    }
}

/// A linter registered under a name is the one found under that name afterwards, and every
/// other name keeps its linter.
pub proof fn law_register_then_get(r: Seq<(Seq<char>, LinterKind)>, name: Seq<char>, k: LinterKind)
    ensures
        reg_get(reg_insert(r, name, k), name) == Some(k),
        forall|other: Seq<char>|
            other != name ==> #[trigger] reg_get(reg_insert(r, name, k), other) == reg_get(r, other),
{
    lemma_reg_find(r, name, 0);
    let i = reg_find(r, name, 0);
    let r2 = reg_insert(r, name, k);
    if i >= 0 {
        assert forall|t: int| 0 <= t < r.len() implies (#[trigger] r2[t]).0 == r[t].0 by {}
        lemma_reg_find_same(r2, r, name, 0);
        assert forall|other: Seq<char>| other != name implies #[trigger] reg_get(r2, other) == reg_get(
            r,
            other,
        ) by {
            lemma_reg_find_same(r2, r, other, 0);
            lemma_reg_find(r, other, 0);
            let j = reg_find(r, other, 0);
            if j >= 0 {
                assert(j != i);
            }
        }
    } else {
        let n = r.len() as int;
        lemma_reg_find(r2, name, 0);
        assert(r2[n].0 == name);
        assert forall|t: int| 0 <= t < n implies (#[trigger] r2[t]).0 != name by {
            assert(r2[t] == r[t]);
        }
        assert(reg_find(r2, name, 0) == n);
        assert forall|other: Seq<char>| other != name implies #[trigger] reg_get(r2, other) == reg_get(
            r,
            other,
        ) by {
            lemma_reg_find(r, other, 0);
            lemma_reg_find(r2, other, 0);
            let j = reg_find(r, other, 0);
            let j2 = reg_find(r2, other, 0);
            assert forall|t: int| 0 <= t < n implies (#[trigger] r2[t]) == r[t] by {}
            if j >= 0 {
                if j2 == -1 || j < j2 {
                    assert(r2[j].0 != other);
                }
                if j2 >= 0 && j2 < j {
                    assert(r[j2].0 != other);
                }
            } else {
                if j2 >= 0 {
                    if j2 < n {
                        assert(r[j2].0 != other);
                    }
                }
            }
        }
    }
}

} // verus!
