//! Data model of the external manifest feed: a catalog of game entries,
//! each with optional file rules, launch rules, registry rules, platform
//! ids, an optional alias and cloud-sync flags. The feed arrives keyed by
//! game display name; the key is unique in a well-formed feed.

use vstd::prelude::*;

verus! {

/// Classification of a file or registry rule. Only `Save`-tagged rules are
/// relevant to save-path extraction.
#[derive(Debug, Clone, Copy, PartialEq, Eq, Structural)]
pub enum Tag {
    Config,
    Save,
}

/// Operating system named by a rule constraint in the feed.
#[derive(Debug, Clone, Copy, PartialEq, Eq, Structural)]
pub enum Os {
    Dos,
    Linux,
    Mac,
    Windows,
}

/// Store named by a rule constraint in the feed.
#[derive(Debug, Clone, Copy, PartialEq, Eq, Structural)]
pub enum Store {
    Discord,
    Epic,
    Gog,
    Microsoft,
    Origin,
    Steam,
    Uplay,
}

/// Word size named by a launch constraint.
#[derive(Debug, Clone, Copy, PartialEq, Eq, Structural)]
pub enum Bit {
    Bit32,
    Bit64,
}

/// A conditional constraint clause of a file rule.
#[derive(Debug, Clone, Copy)]
pub struct FileConstraint {
    pub os: Option<Os>,
    pub store: Option<Store>,
}

/// A conditional constraint clause of a launch rule.
#[derive(Debug, Clone, Copy)]
pub struct LaunchConstraint {
    pub bit: Option<Bit>,
    pub os: Option<Os>,
    pub store: Option<Store>,
}

/// A conditional constraint clause of a registry rule.
#[derive(Debug, Clone, Copy)]
pub struct RegistryConstraint {
    pub store: Option<Store>,
}

/// A file rule: tags plus conditional constraint clauses.
#[derive(Debug, Clone)]
pub struct FileRule {
    pub tags: Option<Vec<Tag>>,
    pub when: Option<Vec<FileConstraint>>,
}

/// One way of launching an executable, with its constraint clauses.
#[derive(Debug, Clone)]
pub struct LaunchEntry {
    pub arguments: Option<String>,
    pub working_dir: Option<String>,
    pub when: Option<Vec<LaunchConstraint>>,
}

/// A registry rule: tags plus conditional constraint clauses.
#[derive(Debug, Clone)]
pub struct RegistryRule {
    pub tags: Option<Vec<Tag>>,
    pub when: Option<Vec<RegistryConstraint>>,
}

/// Steam platform information of a game entry.
#[derive(Debug, Clone, Copy)]
pub struct SteamInfo {
    pub id: Option<i64>,
}

/// GOG platform information of a game entry.
#[derive(Debug, Clone, Copy)]
pub struct GogInfo {
    pub id: Option<i64>,
}

/// Additional platform identifiers of a game entry.
#[derive(Debug, Clone)]
pub struct IdInfo {
    pub flatpak: Option<String>,
    pub gog_extra: Option<Vec<i64>>,
    pub lutris: Option<String>,
    pub steam_extra: Option<Vec<i64>>,
}

/// Per-platform cloud-sync flags of a game entry.
#[derive(Debug, Clone, Copy)]
pub struct CloudInfo {
    pub epic: Option<bool>,
    pub gog: Option<bool>,
    pub origin: Option<bool>,
    pub steam: Option<bool>,
    pub uplay: Option<bool>,
}

/// A free-form note attached to a game entry.
#[derive(Debug, Clone)]
pub struct Note {
    pub message: Option<String>,
}

/// A game entry of the feed. Maps of the feed format are carried as
/// vectors of (key, value) pairs; a well-formed feed has unique keys.
#[derive(Debug, Clone)]
pub struct Game {
    pub files: Option<Vec<(String, FileRule)>>,
    pub install_dir: Option<Vec<String>>,
    pub launch: Option<Vec<(String, Vec<LaunchEntry>)>>,
    pub registry: Option<Vec<(String, RegistryRule)>>,
    pub steam: Option<SteamInfo>,
    pub gog: Option<GogInfo>,
    pub id: Option<IdInfo>,
    pub alias: Option<String>,
    pub cloud: Option<CloudInfo>,
    pub notes: Option<Vec<Note>>,
}

/// The decoded feed: game entries keyed by display name, in feed order.
#[derive(Debug, Clone)]
pub struct GameIndex {
    pub entries: Vec<(String, Game)>,
}

/// Ghost model of a file rule. An absent tag or constraint list is
/// modelled as the empty sequence: it contributes nothing.
pub struct FileRuleV {
    pub tags: Seq<Tag>,
    pub when: Seq<FileConstraint>,
}

/// Ghost model of a launch entry: only its constraint clauses matter.
pub struct LaunchEntryV {
    pub when: Seq<LaunchConstraint>,
}

/// Ghost model of a registry rule.
pub struct RegistryRuleV {
    pub tags: Seq<Tag>,
    pub when: Seq<RegistryConstraint>,
}

/// Ghost model of a game entry, reduced to what extraction and
/// reconciliation read.
pub struct GameV {
    pub files: Seq<(Seq<char>, FileRuleV)>,
    pub launch: Seq<(Seq<char>, Seq<LaunchEntryV>)>,
    pub registry: Seq<(Seq<char>, RegistryRuleV)>,
    pub steam_id: Option<i64>,
    pub alias: Option<Seq<char>>,
}

/// The tag list of a rule; an absent list contributes nothing.
pub open spec fn opt_tags_view(tags: Option<Vec<Tag>>) -> Seq<Tag> {
    match tags {
        Some(v) => v@,
        None => Seq::empty(),
    }
}

/// The constraint clauses of a rule; an absent list contributes nothing.
pub open spec fn opt_when_view<C>(when: Option<Vec<C>>) -> Seq<C> {
    match when {
        Some(v) => v@,
        None => Seq::empty(),
    }
}

impl View for FileRule {
    type V = FileRuleV;

    open spec fn view(&self) -> FileRuleV {
        FileRuleV { tags: opt_tags_view(self.tags), when: opt_when_view(self.when) }
    }
}

impl DeepView for FileRule {
    type V = FileRuleV;

    open spec fn deep_view(&self) -> FileRuleV {
        self.view()
    }
}

impl View for LaunchEntry {
    type V = LaunchEntryV;

    open spec fn view(&self) -> LaunchEntryV {
        LaunchEntryV { when: opt_when_view(self.when) }
    }
}

impl DeepView for LaunchEntry {
    type V = LaunchEntryV;

    open spec fn deep_view(&self) -> LaunchEntryV {
        self.view()
    }
}

impl View for RegistryRule {
    type V = RegistryRuleV;

    open spec fn view(&self) -> RegistryRuleV {
        RegistryRuleV { tags: opt_tags_view(self.tags), when: opt_when_view(self.when) }
    }
}

impl DeepView for RegistryRule {
    type V = RegistryRuleV;

    open spec fn deep_view(&self) -> RegistryRuleV {
        self.view()
    }
}

impl View for Game {
    type V = GameV;

    open spec fn view(&self) -> GameV {
        GameV {
            files: match self.files {
                Some(ref v) => v.deep_view(),
                None => Seq::empty(),
            },
            launch: match self.launch {
                Some(ref v) => v.deep_view(),
                None => Seq::empty(),
            },
            registry: match self.registry {
                Some(ref v) => v.deep_view(),
                None => Seq::empty(),
            },
            steam_id: match self.steam {
                Some(ref s) => s.id,
                None => None,
            },
            alias: match self.alias {
                Some(ref a) => Some(a@),
                None => None,
            },
        }
    }
}

impl DeepView for Game {
    type V = GameV;

    open spec fn deep_view(&self) -> GameV {
        self.view()
    }
}

impl View for GameIndex {
    type V = Seq<(Seq<char>, GameV)>;

    open spec fn view(&self) -> Seq<(Seq<char>, GameV)> {
        self.entries.deep_view()
    }
}

/// A well-formed feed has pairwise distinct entry names: the feed format
/// is a mapping keyed by display name.
pub open spec fn index_names_unique(entries: Seq<(Seq<char>, GameV)>) -> bool {
    forall|i: int, j: int|
        0 <= i < j < entries.len() ==> entries[i].0 != entries[j].0
}

} // verus!
