//! Read-only projection of a user-authorized scan tree.
//!
//! No file content is read, no classification grants execution rights, and paths are display
//! evidence only.

use crate::app_inventory::{ScanEntry, ScanReport};
use crate::model::ResourceKind;
use crate::path;
use crate::text;
use crate::unicode;
use vstd::prelude::*;
use vstd::string::*;
use vstd::utf8;

verus! {

/// A tool whose directory can be recognized.
#[derive(Clone, Copy, Debug, PartialEq, Eq, Structural)]
pub enum Tool {
    Claude,
    Codex,
    Copilot,
    ComfyUI,
}

impl Tool {
    /// The tool with the given number.
    pub fn from_code(code: u32) -> (tool: Option<Tool>)
        ensures
            tool == match code {
                1 => Some(Tool::Claude),
                2 => Some(Tool::Codex),
                3 => Some(Tool::Copilot),
                4 => Some(Tool::ComfyUI),
                _ => None,
            },
    {
        match code {
            1 => Some(Tool::Claude),
            2 => Some(Tool::Codex),
            3 => Some(Tool::Copilot),
            4 => Some(Tool::ComfyUI),
            _ => None,
        }
    }

    pub open spec fn name(self) -> Seq<char> {
        match self {
            Tool::Claude => "claude_code"@,
            Tool::Codex => "codex"@,
            Tool::Copilot => "copilot_cli"@,
            Tool::ComfyUI => "comfyui"@,
        }
    }

    pub fn code(self) -> (name: &'static str)
        ensures
            name@ == self.name(),
    {
        match self {
            Tool::Claude => "claude_code",
            Tool::Codex => "codex",
            Tool::Copilot => "copilot_cli",
            Tool::ComfyUI => "comfyui",
        }
    }

    /// The documented names of the tool's directory.
    pub open spec fn known(self) -> Seq<RuleView> {
        match self {
            Tool::Claude => claude_rules(),
            Tool::Codex => codex_rules(),
            Tool::Copilot => copilot_rules(),
            Tool::ComfyUI => comfyui_rules(),
        }
    }

    fn rules(self) -> (list: Vec<Rule>)
        ensures
            rule_views(list@) == self.known(),
    {
        match self {
            Tool::Claude => claude_list(),
            Tool::Codex => codex_list(),
            Tool::Copilot => copilot_list(),
            Tool::ComfyUI => comfyui_list(),
        }
    }
}

/// What a documented name stands for.
#[derive(Clone, Copy, Debug)]
pub struct Rule {
    pub name: &'static str,
    pub role: &'static str,
    pub consequence: &'static str,
    pub evidence: Documentation,
    /// Whether the name alone shows whose directory it is.
    pub marker: bool,
}

/// The mathematical value of a [`Rule`].
#[verifier::ext_equal]
pub struct RuleView {
    pub name: Seq<char>,
    pub role: Seq<char>,
    pub consequence: Seq<char>,
    pub evidence: Documentation,
    pub marker: bool,
}

pub open spec fn rule(
    name: Seq<char>,
    role: Seq<char>,
    consequence: Seq<char>,
    evidence: Documentation,
    marker: bool,
) -> RuleView {
    RuleView { name, role, consequence, evidence, marker }
}

impl View for Rule {
    type V = RuleView;

    open spec fn view(&self) -> RuleView {
        rule(self.name@, self.role@, self.consequence@, self.evidence, self.marker)
    }
}

pub open spec fn rule_views(list: Seq<Rule>) -> Seq<RuleView> {
    Seq::new(list.len(), |i: int| list[i]@)
}

/// The length of the first word of the first tool's name.
pub const PRODUCT_LENGTH: usize = 6;

/// The first word of the first tool's name, after which its documentation is named.
pub open spec fn product() -> Seq<char> {
    Tool::Claude.name().take(PRODUCT_LENGTH as int)
}

/// Where names are documented.
#[derive(Clone, Copy, Debug, PartialEq, Eq, Structural)]
pub enum Documentation {
    Claude,
    Codex,
    Copilot,
    ComfyUI,
}

impl Documentation {
    pub open spec fn address(self) -> Seq<char> {
        match self {
            Documentation::Claude => "https://code."@ + product() + ".com/docs/en/"@ + product()
                + "-directory"@,
            Documentation::Codex => {
                "https://github.com/openai/codex/blob/main/codex-rs/core/src/config/mod.rs"@
            },
            Documentation::Copilot => {
                "https://docs.github.com/en/copilot/reference/copilot-cli-reference/cli-config-dir-reference"@
            },
            Documentation::ComfyUI => {
                "https://github.com/Comfy-Org/ComfyUI/blob/master/folder_paths.py"@
            },
        }
    }

    /// The address of the documentation.
    pub fn url(self) -> (url: String)
        ensures
            url@ == self.address(),
    {
        match self {
            Documentation::Claude => {
                let name = unicode::characters(Tool::Claude.code());
                proof {
                    reveal_strlit("claude_code");
                }
                let word = unicode::text_of(&name, 0, PRODUCT_LENGTH);
                assert(word@ =~= product());
                let mut url = text::concat3("https://code.", word.as_str(), ".com/docs/en/");
                url.append(word.as_str());
                url.append("-directory");
                url
            },
            Documentation::Codex => {
                "https://github.com/openai/codex/blob/main/codex-rs/core/src/config/mod.rs".to_owned()
            },
            Documentation::Copilot => {
                "https://docs.github.com/en/copilot/reference/copilot-cli-reference/cli-config-dir-reference".to_owned()
            },
            Documentation::ComfyUI => {
                "https://github.com/Comfy-Org/ComfyUI/blob/master/folder_paths.py".to_owned()
            },
        }
    }
}

/// The documented names of one tool's directory.
pub open spec fn claude_rules() -> Seq<RuleView> {
    seq![
        rule("projects"@, "recoverable_state"@, "Sessions, project memory and resume history may be lost."@, Documentation::Claude, true),
        rule("history.jsonl"@, "recoverable_state"@, "Prompt recall history may be lost."@, Documentation::Claude, true),
        rule("file-history"@, "recoverable_state"@, "Checkpoint rewind data may be lost."@, Documentation::Claude, false),
        rule("agent-memory"@, "user_asset"@, "Persistent agent memory may be lost."@, Documentation::Claude, false),
        rule("debug"@, "logs_or_cache"@, "Diagnostic logs may be lost."@, Documentation::Claude, false),
        rule("cache"@, "logs_or_cache"@, "Cached data may need to be recreated."@, Documentation::Claude, false),
        rule("settings.json"@, "protected_configuration"@, "Personal settings may be lost."@, Documentation::Claude, true),
        rule(".credentials.json"@, "protected_configuration"@, "Login credentials may be lost."@, Documentation::Claude, false),
    ]
}

fn claude_list() -> (list: Vec<Rule>)
    ensures
        rule_views(list@) == claude_rules(),
{
    let mut list: Vec<Rule> = Vec::new();
    list.push(Rule { name: "projects", role: "recoverable_state", consequence: "Sessions, project memory and resume history may be lost.", evidence: Documentation::Claude, marker: true });
    list.push(Rule { name: "history.jsonl", role: "recoverable_state", consequence: "Prompt recall history may be lost.", evidence: Documentation::Claude, marker: true });
    list.push(Rule { name: "file-history", role: "recoverable_state", consequence: "Checkpoint rewind data may be lost.", evidence: Documentation::Claude, marker: false });
    list.push(Rule { name: "agent-memory", role: "user_asset", consequence: "Persistent agent memory may be lost.", evidence: Documentation::Claude, marker: false });
    list.push(Rule { name: "debug", role: "logs_or_cache", consequence: "Diagnostic logs may be lost.", evidence: Documentation::Claude, marker: false });
    list.push(Rule { name: "cache", role: "logs_or_cache", consequence: "Cached data may need to be recreated.", evidence: Documentation::Claude, marker: false });
    list.push(Rule { name: "settings.json", role: "protected_configuration", consequence: "Personal settings may be lost.", evidence: Documentation::Claude, marker: true });
    list.push(Rule { name: ".credentials.json", role: "protected_configuration", consequence: "Login credentials may be lost.", evidence: Documentation::Claude, marker: false });
    assert(rule_views(list@) =~= claude_rules());
    list
}

/// The documented names of one tool's directory.
pub open spec fn codex_rules() -> Seq<RuleView> {
    seq![
        rule("sessions"@, "recoverable_state"@, "Session resume history may be lost."@, Documentation::Codex, true),
        rule("archived_sessions"@, "recoverable_state"@, "Archived sessions may be lost."@, Documentation::Codex, false),
        rule("history.jsonl"@, "recoverable_state"@, "Command and prompt history may be lost."@, Documentation::Codex, false),
        rule("log"@, "logs_or_cache"@, "Diagnostic logs may be lost."@, Documentation::Codex, false),
        rule("memories"@, "user_asset"@, "Saved memory may be lost."@, Documentation::Codex, false),
        rule("config.toml"@, "protected_configuration"@, "Personal settings may be lost."@, Documentation::Codex, true),
        rule("auth.json"@, "protected_configuration"@, "Authentication state may be lost."@, Documentation::Codex, false),
    ]
}

fn codex_list() -> (list: Vec<Rule>)
    ensures
        rule_views(list@) == codex_rules(),
{
    let mut list: Vec<Rule> = Vec::new();
    list.push(Rule { name: "sessions", role: "recoverable_state", consequence: "Session resume history may be lost.", evidence: Documentation::Codex, marker: true });
    list.push(Rule { name: "archived_sessions", role: "recoverable_state", consequence: "Archived sessions may be lost.", evidence: Documentation::Codex, marker: false });
    list.push(Rule { name: "history.jsonl", role: "recoverable_state", consequence: "Command and prompt history may be lost.", evidence: Documentation::Codex, marker: false });
    list.push(Rule { name: "log", role: "logs_or_cache", consequence: "Diagnostic logs may be lost.", evidence: Documentation::Codex, marker: false });
    list.push(Rule { name: "memories", role: "user_asset", consequence: "Saved memory may be lost.", evidence: Documentation::Codex, marker: false });
    list.push(Rule { name: "config.toml", role: "protected_configuration", consequence: "Personal settings may be lost.", evidence: Documentation::Codex, marker: true });
    list.push(Rule { name: "auth.json", role: "protected_configuration", consequence: "Authentication state may be lost.", evidence: Documentation::Codex, marker: false });
    assert(rule_views(list@) =~= codex_rules());
    list
}

/// The documented names of one tool's directory.
pub open spec fn copilot_rules() -> Seq<RuleView> {
    seq![
        rule("logs"@, "logs_or_cache"@, "Diagnostic logs may be lost."@, Documentation::Copilot, true),
        rule("session-state"@, "recoverable_state"@, "Local session resume and workspace artifacts may be lost."@, Documentation::Copilot, true),
        rule("command-history-state"@, "recoverable_state"@, "Command history search may be lost."@, Documentation::Copilot, false),
        rule("session-store.db"@, "recoverable_state"@, "Cross-session indexing may be lost."@, Documentation::Copilot, false),
        rule("plugin-data"@, "user_asset"@, "Plugin persistent data may be lost."@, Documentation::Copilot, false),
        rule("settings.json"@, "protected_configuration"@, "Personal settings may be lost."@, Documentation::Copilot, true),
        rule("config.json"@, "protected_configuration"@, "Authentication and application state may be lost."@, Documentation::Copilot, true),
        rule("mcp-secrets"@, "protected_configuration"@, "Secret fallback state may be lost."@, Documentation::Copilot, false),
    ]
}

fn copilot_list() -> (list: Vec<Rule>)
    ensures
        rule_views(list@) == copilot_rules(),
{
    let mut list: Vec<Rule> = Vec::new();
    list.push(Rule { name: "logs", role: "logs_or_cache", consequence: "Diagnostic logs may be lost.", evidence: Documentation::Copilot, marker: true });
    list.push(Rule { name: "session-state", role: "recoverable_state", consequence: "Local session resume and workspace artifacts may be lost.", evidence: Documentation::Copilot, marker: true });
    list.push(Rule { name: "command-history-state", role: "recoverable_state", consequence: "Command history search may be lost.", evidence: Documentation::Copilot, marker: false });
    list.push(Rule { name: "session-store.db", role: "recoverable_state", consequence: "Cross-session indexing may be lost.", evidence: Documentation::Copilot, marker: false });
    list.push(Rule { name: "plugin-data", role: "user_asset", consequence: "Plugin persistent data may be lost.", evidence: Documentation::Copilot, marker: false });
    list.push(Rule { name: "settings.json", role: "protected_configuration", consequence: "Personal settings may be lost.", evidence: Documentation::Copilot, marker: true });
    list.push(Rule { name: "config.json", role: "protected_configuration", consequence: "Authentication and application state may be lost.", evidence: Documentation::Copilot, marker: true });
    list.push(Rule { name: "mcp-secrets", role: "protected_configuration", consequence: "Secret fallback state may be lost.", evidence: Documentation::Copilot, marker: false });
    assert(rule_views(list@) =~= copilot_rules());
    list
}

/// The documented names of one tool's directory.
pub open spec fn comfyui_rules() -> Seq<RuleView> {
    seq![
        rule("folder_paths.py"@, "tool_marker"@, "ComfyUI path configuration source; never a cleanup candidate."@, Documentation::ComfyUI, true),
        rule("output"@, "user_asset"@, "Generated images and videos may be lost."@, Documentation::ComfyUI, false),
        rule("input"@, "user_asset"@, "Input media may be lost."@, Documentation::ComfyUI, false),
        rule("models"@, "user_asset"@, "Model weights may be lost and costly to reacquire."@, Documentation::ComfyUI, false),
        rule("user"@, "recoverable_state"@, "Workflows and user settings may be lost."@, Documentation::ComfyUI, false),
        rule("temp"@, "logs_or_cache"@, "In-progress temporary work may be lost."@, Documentation::ComfyUI, false),
    ]
}

fn comfyui_list() -> (list: Vec<Rule>)
    ensures
        rule_views(list@) == comfyui_rules(),
{
    let mut list: Vec<Rule> = Vec::new();
    list.push(Rule { name: "folder_paths.py", role: "tool_marker", consequence: "ComfyUI path configuration source; never a cleanup candidate.", evidence: Documentation::ComfyUI, marker: true });
    list.push(Rule { name: "output", role: "user_asset", consequence: "Generated images and videos may be lost.", evidence: Documentation::ComfyUI, marker: false });
    list.push(Rule { name: "input", role: "user_asset", consequence: "Input media may be lost.", evidence: Documentation::ComfyUI, marker: false });
    list.push(Rule { name: "models", role: "user_asset", consequence: "Model weights may be lost and costly to reacquire.", evidence: Documentation::ComfyUI, marker: false });
    list.push(Rule { name: "user", role: "recoverable_state", consequence: "Workflows and user settings may be lost.", evidence: Documentation::ComfyUI, marker: false });
    list.push(Rule { name: "temp", role: "logs_or_cache", consequence: "In-progress temporary work may be lost.", evidence: Documentation::ComfyUI, marker: false });
    assert(rule_views(list@) =~= comfyui_rules());
    list
}

/// Whether a documented name is that of a file; the others are directories.
pub open spec fn names_a_file(name: Seq<char>) -> bool {
    ||| name == "history.jsonl"@
    ||| name == "settings.json"@
    ||| name == ".credentials.json"@
    ||| name == "config.toml"@
    ||| name == "auth.json"@
    ||| name == "config.json"@
    ||| name == "session-store.db"@
    ||| name == "folder_paths.py"@
}

/// The kind of object that a documented name must be.
pub open spec fn expected_kind(name: Seq<char>) -> ResourceKind {
    if names_a_file(name) {
        ResourceKind::File
    } else {
        ResourceKind::Directory
    }
}

fn matches_kind(name: &str, kind: ResourceKind) -> (answer: bool)
    ensures
        answer == (kind == expected_kind(name@)),
{
    let file = text::text_eq(name, "history.jsonl") || text::text_eq(name, "settings.json")
        || text::text_eq(name, ".credentials.json") || text::text_eq(name, "config.toml")
        || text::text_eq(name, "auth.json") || text::text_eq(name, "config.json")
        || text::text_eq(name, "session-store.db") || text::text_eq(name, "folder_paths.py");
    kind == if file {
        ResourceKind::File
    } else {
        ResourceKind::Directory
    }
}

/// What a directory of a scan holds in all.
#[derive(Clone, Copy, Debug, PartialEq, Eq, Structural)]
pub struct TreeSummary {
    pub logical_bytes_known: u64,
    pub logical_bytes_unknown_files: u64,
    pub complete: bool,
}

/// A scan with its entries as a tree. An entry's number is its place in the report.
#[derive(Debug)]
pub struct ScanTree {
    pub report: ScanReport,
    pub roots: Vec<usize>,
    /// For each entry, the numbers of what lies right below it.
    pub children: Vec<Vec<usize>>,
    /// For each entry, what lies below it in all, where that was added up.
    pub summaries: Vec<Option<TreeSummary>>,
}

impl ScanTree {
    pub open spec fn entry_at(self, id: usize) -> Option<ScanEntry> {
        if id < self.report.entries@.len() {
            Some(self.report.entries@[id as int])
        } else {
            None
        }
    }

    pub open spec fn children_at(self, id: usize) -> Option<Seq<usize>> {
        if id < self.children@.len() {
            Some(self.children@[id as int]@)
        } else {
            None
        }
    }

    pub open spec fn summary_at(self, id: usize) -> Option<TreeSummary> {
        if id < self.summaries@.len() {
            self.summaries@[id as int]
        } else {
            None
        }
    }

    pub fn entry(&self, id: usize) -> (entry: Option<&ScanEntry>)
        ensures
            match entry {
                Some(entry) => self.entry_at(id) == Some(*entry),
                None => self.entry_at(id) is None,
            },
    {
        if id < self.report.entries.len() {
            Some(&self.report.entries[id])
        } else {
            None
        }
    }

    pub fn children(&self, id: usize) -> (children: Option<&Vec<usize>>)
        ensures
            match children {
                Some(children) => self.children_at(id) == Some(children@),
                None => self.children_at(id) is None,
            },
    {
        if id < self.children.len() {
            Some(&self.children[id])
        } else {
            None
        }
    }

    pub fn summary(&self, id: usize) -> (summary: Option<TreeSummary>)
        ensures
            summary == self.summary_at(id),
    {
        if id < self.summaries.len() {
            self.summaries[id]
        } else {
            None
        }
    }
}

/// One documented part of a tool's directory.
#[derive(Debug)]
pub struct Component {
    pub relative_path: &'static str,
    pub role: &'static str,
    pub consequence: &'static str,
    pub evidence_url: String,
    pub logical_bytes_known: u64,
    pub logical_bytes_unknown_files: u64,
    pub complete: bool,
    pub contains_cloud_placeholder: bool,
}

/// The mathematical value of a [`Component`].
#[verifier::ext_equal]
pub struct ComponentView {
    pub name: Seq<char>,
    pub role: Seq<char>,
    pub consequence: Seq<char>,
    pub evidence: Seq<char>,
    pub size: TreeSummary,
    pub cloud: bool,
}

impl View for Component {
    type V = ComponentView;

    open spec fn view(&self) -> ComponentView {
        ComponentView {
            name: self.relative_path@,
            role: self.role@,
            consequence: self.consequence@,
            evidence: self.evidence_url@,
            size: TreeSummary {
                logical_bytes_known: self.logical_bytes_known,
                logical_bytes_unknown_files: self.logical_bytes_unknown_files,
                complete: self.complete,
            },
            cloud: self.contains_cloud_placeholder,
        }
    }
}

pub open spec fn component_views(list: Seq<Component>) -> Seq<ComponentView> {
    Seq::new(list.len(), |i: int| list[i]@)
}

/// What a tool keeps in one explicit directory.
#[derive(Debug)]
pub struct Footprint {
    pub schema_version: u32,
    pub kind: &'static str,
    pub tool: &'static str,
    pub rule_version: u32,
    pub recognized: bool,
    pub scan_complete: bool,
    pub logical_bytes_known: u64,
    pub logical_bytes_unknown_files: u64,
    pub components: Vec<Component>,
    pub last_activity: Option<u64>,
    pub running: Option<bool>,
}

/// Whether an entry is what a documented name stands for.
pub open spec fn is_documented(entry: ScanEntry, name: Seq<char>) -> bool {
    path::file_name(entry.path@) == Some(utf8::encode_utf8(name)) && entry.kind == expected_kind(
        name,
    )
}

/// Whether one of the entries is what a documented name stands for.
pub open spec fn has_documented(tree: ScanTree, ids: Seq<usize>, name: Seq<char>) -> bool {
    exists|i: int|
        0 <= i < ids.len() && (tree.entry_at(#[trigger] ids[i]) matches Some(entry)
            && is_documented(entry, name))
}

/// Whether the names right below a directory show whose it is.
pub open spec fn is_recognized(tree: ScanTree, ids: Seq<usize>, rules: Seq<RuleView>) -> bool {
    exists|r: int|
        0 <= r < rules.len() && (#[trigger] rules[r]).marker && has_documented(
            tree,
            ids,
            rules[r].name,
        )
}

/// The first of the entries that is what a documented name stands for.
pub open spec fn first_documented(tree: ScanTree, ids: Seq<usize>, name: Seq<char>) -> Option<usize>
    decreases ids.len(),
{
    if ids.len() == 0 {
        None
    } else if tree.entry_at(ids[0]) matches Some(entry) && is_documented(entry, name) {
        Some(ids[0])
    } else {
        first_documented(tree, ids.drop_first(), name)
    }
}

/// The size of an entry: of a directory what was added up, if it was; of a file its own.
pub open spec fn size_of(tree: ScanTree, id: usize) -> Option<TreeSummary> {
    match tree.entry_at(id) {
        None => None,
        Some(entry) => if entry.kind == ResourceKind::Directory {
            tree.summary_at(id)
        } else {
            Some(
                TreeSummary {
                    logical_bytes_known: match entry.logical_bytes {
                        Some(bytes) => bytes,
                        None => 0,
                    },
                    logical_bytes_unknown_files: if entry.logical_bytes is None {
                        1
                    } else {
                        0
                    },
                    complete: tree.report.complete,
                },
            )
        },
    }
}

/// Whether the content of something at or below a path lies in the cloud only.
pub open spec fn has_placeholder(entries: Seq<ScanEntry>, place: Seq<u8>) -> bool {
    exists|i: int|
        0 <= i < entries.len() && (#[trigger] entries[i]).dataless && path::is_within(
            entries[i].path@,
            place,
        )
}

/// What is said of a documented part.
pub open spec fn part(tree: ScanTree, rule: RuleView, id: usize) -> ComponentView {
    ComponentView {
        name: rule.name,
        role: rule.role,
        consequence: rule.consequence,
        evidence: rule.evidence.address(),
        size: size_of(tree, id)->0,
        cloud: has_placeholder(tree.report.entries@, tree.entry_at(id)->0.path@),
    }
}

/// The documented parts that are there, in the order of the documentation; nothing where the
/// size of one of them was not added up.
pub open spec fn parts(tree: ScanTree, ids: Seq<usize>, rules: Seq<RuleView>) -> Option<
    Seq<ComponentView>,
>
    decreases rules.len(),
{
    if rules.len() == 0 {
        Some(Seq::empty())
    } else {
        match parts(tree, ids, rules.drop_last()) {
            None => None,
            Some(before) => match first_documented(tree, ids, rules.last().name) {
                None => Some(before),
                Some(id) => if size_of(tree, id) is None {
                    None
                } else {
                    Some(before.push(part(tree, rules.last(), id)))
                },
            },
        }
    }
}

/// The one root of a scan, if it is a directory whose content was listed and added up.
pub open spec fn only_root(tree: ScanTree) -> Option<usize> {
    if tree.roots@.len() == 1 && (tree.entry_at(tree.roots@[0]) matches Some(entry) && entry.kind
        == ResourceKind::Directory) && tree.summary_at(tree.roots@[0]) is Some
        && tree.children_at(tree.roots@[0]) is Some {
        Some(tree.roots@[0])
    } else {
        None
    }
}

/// The parts that a footprint lists: none unless the directory was recognized.
pub open spec fn listed_parts(tree: ScanTree, root: usize, tool: Tool) -> Option<
    Seq<ComponentView>,
> {
    let ids = tree.children_at(root)->0;
    if is_recognized(tree, ids, tool.known()) {
        parts(tree, ids, tool.known())
    } else {
        Some(Seq::empty())
    }
}

fn documented(entry: &ScanEntry, name: &str) -> (answer: bool)
    ensures
        answer == is_documented(*entry, name@),
{
    match path::name_of(entry.path.as_slice()) {
        None => false,
        Some(found) => text::bytes_eq(found.as_slice(), name.as_bytes()) && matches_kind(
            name,
            entry.kind,
        ),
    }
}

fn find_documented(tree: &ScanTree, ids: &Vec<usize>, name: &str) -> (found: Option<usize>)
    ensures
        found == first_documented(*tree, ids@, name@),
        found is Some == has_documented(*tree, ids@, name@),
        found matches Some(id) ==> (tree.entry_at(id) matches Some(entry) && is_documented(
            entry,
            name@,
        )),
{
    let mut i: usize = 0;
    assert(ids@.skip(0) =~= ids@);
    while i < ids.len()
        invariant
            0 <= i <= ids@.len(),
            first_documented(*tree, ids@, name@) == first_documented(
                *tree,
                ids@.skip(i as int),
                name@,
            ),
            forall|j: int|
                0 <= j < i ==> !(tree.entry_at(#[trigger] ids@[j]) matches Some(entry)
                    && is_documented(entry, name@)),
        decreases ids@.len() - i,
    {
        assert(ids@.skip(i as int)[0] == ids@[i as int]);
        let id: usize = ids[i];
        if let Some(entry) = tree.entry(id) {
            if documented(entry, name) {
                return Some(id);
            }
        }
        assert(ids@.skip(i as int).drop_first() =~= ids@.skip(i + 1));
        i += 1;
    }
    None
}

fn recognizes(tree: &ScanTree, ids: &Vec<usize>, rules: &Vec<Rule>) -> (answer: bool)
    ensures
        answer == is_recognized(*tree, ids@, rule_views(rules@)),
{
    let ghost all = rule_views(rules@);
    let mut r: usize = 0;
    while r < rules.len()
        invariant
            0 <= r <= rules@.len(),
            all == rule_views(rules@),
            all.len() == rules@.len(),
            forall|k: int|
                0 <= k < r ==> !((#[trigger] all[k]).marker && has_documented(
                    *tree,
                    ids@,
                    all[k].name,
                )),
        decreases rules@.len() - r,
    {
        assert(all[r as int] == rules@[r as int]@);
        if rules[r].marker && find_documented(tree, ids, rules[r].name).is_some() {
            assert(all[r as int].marker);
            return true;
        }
        r += 1;
    }
    false
}

fn any_placeholder(entries: &Vec<ScanEntry>, place: &[u8]) -> (answer: bool)
    ensures
        answer == has_placeholder(entries@, place@),
{
    let mut i: usize = 0;
    while i < entries.len()
        invariant
            0 <= i <= entries@.len(),
            forall|j: int|
                0 <= j < i ==> !((#[trigger] entries@[j]).dataless && path::is_within(
                    entries@[j].path@,
                    place@,
                )),
        decreases entries@.len() - i,
    {
        if entries[i].dataless && path::within(entries[i].path.as_slice(), place) {
            return true;
        }
        i += 1;
    }
    false
}

fn measure(tree: &ScanTree, id: usize) -> (size: Option<TreeSummary>)
    ensures
        size == size_of(*tree, id),
{
    match tree.entry(id) {
        None => None,
        Some(entry) => {
            if entry.kind == ResourceKind::Directory {
                tree.summary(id)
            } else {
                Some(
                    TreeSummary {
                        logical_bytes_known: match entry.logical_bytes {
                            Some(bytes) => bytes,
                            None => 0,
                        },
                        logical_bytes_unknown_files: if entry.logical_bytes.is_none() {
                            1
                        } else {
                            0
                        },
                        complete: tree.report.complete,
                    },
                )
            }
        },
    }
}

proof fn lemma_parts_missing(tree: ScanTree, ids: Seq<usize>, rules: Seq<RuleView>, n: int)
    requires
        0 <= n <= rules.len(),
        parts(tree, ids, rules.take(n)) is None,
    ensures
        parts(tree, ids, rules) is None,
    decreases rules.len() - n,
{
    if n < rules.len() {
        assert(rules.take(n + 1).drop_last() =~= rules.take(n));
        lemma_parts_missing(tree, ids, rules, n + 1);
    } else {
        assert(rules.take(n) =~= rules);
    }
}

fn gather_parts(tree: &ScanTree, ids: &Vec<usize>, rules: &Vec<Rule>) -> (result: Option<
    Vec<Component>,
>)
    ensures
        match result {
            Some(list) => parts(*tree, ids@, rule_views(rules@)) == Some(component_views(list@)),
            None => parts(*tree, ids@, rule_views(rules@)) is None,
        },
{
    let ghost all = rule_views(rules@);
    let mut list: Vec<Component> = Vec::new();
    let mut r: usize = 0;
    assert(all.take(0) =~= Seq::empty());
    assert(component_views(list@) =~= Seq::empty());
    while r < rules.len()
        invariant
            0 <= r <= rules@.len(),
            all == rule_views(rules@),
            all.len() == rules@.len(),
            parts(*tree, ids@, all.take(r as int)) == Some(component_views(list@)),
        decreases rules@.len() - r,
    {
        let ghost before = component_views(list@);
        assert(all.take(r + 1).drop_last() =~= all.take(r as int));
        assert(all.take(r + 1).last() == rules@[r as int]@);
        let rule: Rule = rules[r];
        if let Some(id) = find_documented(tree, ids, rule.name) {
            let size: TreeSummary = match measure(tree, id) {
                Some(size) => size,
                None => {
                    proof {
                        lemma_parts_missing(*tree, ids@, all, r + 1);
                    }
                    return None;
                },
            };
            let cloud = match tree.entry(id) {
                Some(entry) => any_placeholder(&tree.report.entries, entry.path.as_slice()),
                None => false,
            };
            list.push(
                Component {
                    relative_path: rule.name,
                    role: rule.role,
                    consequence: rule.consequence,
                    evidence_url: rule.evidence.url(),
                    logical_bytes_known: size.logical_bytes_known,
                    logical_bytes_unknown_files: size.logical_bytes_unknown_files,
                    complete: size.complete,
                    contains_cloud_placeholder: cloud,
                },
            );
            assert(component_views(list@) =~= before.push(part(*tree, rule@, id)));
        }
        r += 1;
    }
    assert(all.take(all.len() as int) =~= all);
    Some(list)
}

/// Projects only exact, documented top-level names from one explicit root. False
/// `recognized` means no ownership claim is made even if names match.
pub fn project(tree: &ScanTree, tool: Tool) -> (result: Option<Footprint>)
    ensures
        match result {
            None => only_root(*tree) is None || listed_parts(
                *tree,
                only_root(*tree)->0,
                tool,
            ) is None,
            Some(footprint) => {
                let root = only_root(*tree)->0;
                let total = tree.summary_at(root)->0;
                &&& only_root(*tree) is Some
                &&& footprint.schema_version == 1
                &&& footprint.kind@ == "ai_footprint"@
                &&& footprint.tool@ == tool.name()
                &&& footprint.rule_version == 1
                &&& footprint.recognized == is_recognized(
                    *tree,
                    tree.children_at(root)->0,
                    tool.known(),
                )
                &&& footprint.scan_complete == total.complete
                &&& footprint.logical_bytes_known == total.logical_bytes_known
                &&& footprint.logical_bytes_unknown_files == total.logical_bytes_unknown_files
                &&& listed_parts(*tree, root, tool) == Some(
                    component_views(footprint.components@),
                )
                &&& footprint.last_activity is None
                &&& footprint.running is None
            },
        },
{
    if tree.roots.len() != 1 {
        return None;
    }
    let root_id: usize = tree.roots[0];
    match tree.entry(root_id) {
        None => {
            return None;
        },
        Some(root) => {
            if root.kind != ResourceKind::Directory {
                return None;
            }
        },
    }
    let summary: TreeSummary = match tree.summary(root_id) {
        None => {
            return None;
        },
        Some(summary) => summary,
    };
    let rules = tool.rules();
    let children: &Vec<usize> = match tree.children(root_id) {
        None => {
            return None;
        },
        Some(children) => children,
    };
    let recognized = recognizes(tree, children, &rules);
    let mut components: Vec<Component> = Vec::new();
    assert(component_views(components@) =~= Seq::empty());
    if recognized {
        components = match gather_parts(tree, children, &rules) {
            None => {
                return None;
            },
            Some(list) => list,
        };
    }
    Some(
        Footprint {
            schema_version: 1,
            kind: "ai_footprint",
            tool: tool.code(),
            rule_version: 1,
            recognized,
            scan_complete: summary.complete,
            logical_bytes_known: summary.logical_bytes_known,
            logical_bytes_unknown_files: summary.logical_bytes_unknown_files,
            components,
            last_activity: None,
            running: None,
        },
    )
}

/// Whether a part is one of the documented ones, as it is documented.
pub open spec fn follows(part: ComponentView, rules: Seq<RuleView>) -> bool {
    exists|r: int|
        0 <= r < rules.len() && (#[trigger] rules[r]).name == part.name && rules[r].role
            == part.role && rules[r].consequence == part.consequence && rules[r].evidence.address()
            == part.evidence
}

/// Every part that is listed is a documented one, with the role and the consequence that are
/// documented, and there are no more parts than documented names.
pub proof fn parts_are_documented(tree: ScanTree, ids: Seq<usize>, rules: Seq<RuleView>)
    requires
        parts(tree, ids, rules) is Some,
    ensures
        parts(tree, ids, rules)->0.len() <= rules.len(),
        forall|i: int|
            0 <= i < parts(tree, ids, rules)->0.len() ==> follows(
                #[trigger] parts(tree, ids, rules)->0[i],
                rules,
            ),
    decreases rules.len(),
{
    if rules.len() > 0 {
        let fewer = rules.drop_last();
        parts_are_documented(tree, ids, fewer);
        let before = parts(tree, ids, fewer)->0;
        let all = parts(tree, ids, rules)->0;
        assert forall|i: int| 0 <= i < all.len() implies follows(#[trigger] all[i], rules) by {
            if i < before.len() {
                assert(all[i] == before[i]);
                assert(follows(before[i], fewer));
                let r = choose|r: int|
                    0 <= r < fewer.len() && (#[trigger] fewer[r]).name == before[i].name
                        && fewer[r].role == before[i].role && fewer[r].consequence
                        == before[i].consequence && fewer[r].evidence.address() == before[i].evidence;
                assert(rules[r] == fewer[r]);
            } else {
                assert(rules[rules.len() - 1].name == all[i].name);
            }
        }
    }
}

/// A directory that was not recognized is not claimed: no part of it is listed.
pub proof fn unrecognized_directory_is_not_claimed(tree: ScanTree, root: usize, tool: Tool)
    requires
        !is_recognized(tree, tree.children_at(root)->0, tool.known()),
    ensures
        listed_parts(tree, root, tool) == Some(Seq::<ComponentView>::empty()),
{
}

} // verus!
