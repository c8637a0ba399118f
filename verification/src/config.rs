//! Resolved configuration, as far as the engine reads it.

use vstd::prelude::*;

verus! {

use crate::answers::{LayoutCells, RuleBook};
use crate::geometry::Gaps;
use crate::name::{same_name, WorkspaceName};
use crate::outcome::all_seen;
use crate::text::{first_index, lemma_first_hit, same_text};

/// How tiled windows are arranged.
#[derive(Debug, Clone, Copy, PartialEq, Eq, Structural)]
pub enum TilingMode {
    Balanced,
    Tree,
}

/// A named set of normalized cells.
#[derive(Debug, PartialEq)]
pub struct SavedLayout {
    pub name: String,
    pub cells: LayoutCells,
}

impl Clone for SavedLayout {
    fn clone(&self) -> (copy: SavedLayout)
        ensures
            copy == *self,
    {
        SavedLayout { name: self.name.clone(), cells: self.cells }
    }
}

/// The workspace a profile puts on one display.
#[derive(Debug, PartialEq)]
pub struct DisplayMapping {
    pub display_fingerprint: String,
    pub workspace: WorkspaceName,
}

impl Clone for DisplayMapping {
    fn clone(&self) -> (copy: DisplayMapping)
        ensures
            copy == *self,
    {
        DisplayMapping {
            display_fingerprint: self.display_fingerprint.clone(),
            workspace: self.workspace.clone(),
        }
    }
}

/// A profile's switching mapping.
#[derive(Debug, PartialEq)]
pub struct ResolvedWorkspaceSwitching {
    pub experimental: bool,
    pub displayed: Vec<DisplayMapping>,
}

#[verifier::ext_equal]
pub ghost struct Mapping {
    pub experimental: bool,
    pub displayed: Seq<DisplayMapping>,
}

impl View for ResolvedWorkspaceSwitching {
    type V = Mapping;

    open spec fn view(&self) -> Mapping {
        Mapping { experimental: self.experimental, displayed: self.displayed@ }
    }
}

/// Everything else configuration resolved to (hotkeys, behaviour, where each
/// value came from), which the engine only carries, by its identity.
#[derive(Debug, Clone, Copy, PartialEq, Eq, Structural)]
pub struct OtherSettings {
    pub id: u64,
}

/// The configuration in force for one topology.
#[derive(Debug, PartialEq)]
pub struct ResolvedConfig {
    pub workspaces: Vec<WorkspaceName>,
    pub layouts: Vec<SavedLayout>,
    pub gaps: Gaps,
    pub rules: RuleBook,
    pub tiling_mode: TilingMode,
    pub automatic_tiling_enabled: bool,
    pub workspace_switching: Option<ResolvedWorkspaceSwitching>,
    pub other: OtherSettings,
}

/// A [`ResolvedConfig`] with its lists as sequences.
#[verifier::ext_equal]
pub ghost struct Config {
    pub workspaces: Seq<WorkspaceName>,
    pub layouts: Seq<SavedLayout>,
    pub gaps: Gaps,
    pub rules: RuleBook,
    pub tiling_mode: TilingMode,
    pub automatic_tiling_enabled: bool,
    pub switching: Option<Mapping>,
    pub other: OtherSettings,
}

impl View for ResolvedConfig {
    type V = Config;

    open spec fn view(&self) -> Config {
        Config {
            workspaces: self.workspaces@,
            layouts: self.layouts@,
            gaps: self.gaps,
            rules: self.rules,
            tiling_mode: self.tiling_mode,
            automatic_tiling_enabled: self.automatic_tiling_enabled,
            switching: match self.workspace_switching {
                Some(switching) => Some(switching@),
                None => None,
            },
            other: self.other,
        }
    }
}

impl Config {
    /// Nothing declared, nothing bound, manual placement.
    pub open spec fn initial() -> Config {
        Config {
            workspaces: Seq::empty(),
            layouts: Seq::empty(),
            gaps: Gaps { outer: 0, inner: 0 },
            rules: RuleBook { id: 0 },
            tiling_mode: TilingMode::Balanced,
            automatic_tiling_enabled: false,
            switching: None,
            other: OtherSettings { id: 0 },
        }
    }

    pub open spec fn layout_named(self, name: Seq<char>) -> spec_fn(int) -> bool {
        |i: int| self.layouts[i].name@ == name
    }

    /// The cells of the saved layout called `name`.
    pub open spec fn layout(self, name: Seq<char>) -> Option<LayoutCells> {
        match first_index(self.layouts.len(), self.layout_named(name)) {
            Some(i) => Some(self.layouts[i].cells),
            None => None,
        }
    }
}

impl Default for ResolvedConfig {
    fn default() -> (config: ResolvedConfig)
        ensures
            config@ == Config::initial(),
    {
        let config = ResolvedConfig {
            workspaces: Vec::new(),
            layouts: Vec::new(),
            gaps: Gaps { outer: 0, inner: 0 },
            rules: RuleBook { id: 0 },
            tiling_mode: TilingMode::Balanced,
            automatic_tiling_enabled: false,
            workspace_switching: None,
            other: OtherSettings { id: 0 },
        };
        assert(config@ =~= Config::initial());
        config
    }
}

impl ResolvedConfig {
    /// The cells of the saved layout called `name`.
    pub fn layout(&self, name: &String) -> (cells: Option<LayoutCells>)
        ensures
            cells == self@.layout(name@),
    {
        let mut i: usize = 0;
        while i < self.layouts.len()
            invariant
                i <= self.layouts@.len(),
                first_index(i as nat, self@.layout_named(name@)) is None,
            decreases self.layouts@.len() - i,
        {
            if same_text(&self.layouts[i].name, name) {
                proof {
                    assert(self@.layout_named(name@)(i as int));
                    lemma_first_hit(self@.layouts.len(), self@.layout_named(name@), i as int);
                }
                return Some(self.layouts[i].cells);
            }
            assert(!self@.layout_named(name@)(i as int));
            i += 1;
        }
        None
    }
}

impl Clone for ResolvedConfig {
    fn clone(&self) -> (copy: ResolvedConfig)
        ensures
            copy@ == self@,
    {
        let workspaces = self.workspaces.clone();
        let layouts = self.layouts.clone();
        assert(workspaces@ =~= self.workspaces@);
        assert(layouts@ =~= self.layouts@);
        let workspace_switching = match &self.workspace_switching {
            Some(switching) => {
                let displayed = switching.displayed.clone();
                assert(displayed@ =~= switching.displayed@);
                Some(
                    ResolvedWorkspaceSwitching { experimental: switching.experimental, displayed },
                )
            },
            None => None,
        };
        ResolvedConfig {
            workspaces,
            layouts,
            gaps: self.gaps,
            rules: self.rules,
            tiling_mode: self.tiling_mode,
            automatic_tiling_enabled: self.automatic_tiling_enabled,
            workspace_switching,
            other: self.other,
        }
    }
}

/// A sparse overlay for one topology, already laid over the base.
#[derive(Debug, PartialEq)]
pub struct ResolvedProfile {
    /// The topology it is for.
    pub fingerprint: String,
    pub config: ResolvedConfig,
}

#[verifier::ext_equal]
pub ghost struct Profile {
    pub fingerprint: String,
    pub config: Config,
}

impl View for ResolvedProfile {
    type V = Profile;

    open spec fn view(&self) -> Profile {
        Profile { fingerprint: self.fingerprint, config: self.config@ }
    }
}

impl Clone for ResolvedProfile {
    fn clone(&self) -> (copy: ResolvedProfile)
        ensures
            copy@ == self@,
    {
        ResolvedProfile { fingerprint: self.fingerprint.clone(), config: self.config.clone() }
    }
}

/// The base configuration with every profile.
#[derive(Debug, PartialEq)]
pub struct ResolvedConfigSet {
    pub base: ResolvedConfig,
    pub profiles: Vec<ResolvedProfile>,
}

#[verifier::ext_equal]
pub ghost struct ConfigSet {
    pub base: Config,
    pub profiles: Seq<Profile>,
}

impl View for ResolvedConfigSet {
    type V = ConfigSet;

    open spec fn view(&self) -> ConfigSet {
        ConfigSet { base: self.base@, profiles: all_seen(self.profiles@) }
    }
}

impl Default for ResolvedConfigSet {
    fn default() -> (set: ResolvedConfigSet)
        ensures
            set@ == (ConfigSet { base: Config::initial(), profiles: Seq::empty() }),
    {
        let set = ResolvedConfigSet { base: ResolvedConfig::default(), profiles: Vec::new() };
        assert(set@.profiles =~= Seq::<Profile>::empty());
        set
    }
}

impl Clone for ResolvedConfigSet {
    fn clone(&self) -> (copy: ResolvedConfigSet)
        ensures
            copy@ == self@,
    {
        let profiles = self.profiles.clone();
        assert(all_seen(profiles@) =~= all_seen(self.profiles@));
        ResolvedConfigSet { base: self.base.clone(), profiles }
    }
}

impl ConfigSet {
    pub open spec fn profile_for(self, topology: Seq<char>) -> spec_fn(int) -> bool {
        |i: int| self.profiles[i].fingerprint@ == topology
    }

    /// The configuration for a topology: the first profile made for it, or
    /// the base where there is none.
    pub open spec fn select(self, topology: Seq<char>) -> Config {
        match first_index(self.profiles.len(), self.profile_for(topology)) {
            Some(i) => self.profiles[i].config,
            None => self.base,
        }
    }
}

/// The resolved config that should be active for the topology: whichever
/// profile's fingerprint matches, or the base if none does.
pub fn select_resolved_config(config_set: &ResolvedConfigSet, topology: &String) -> (config:
    ResolvedConfig)
    ensures
        config@ == config_set@.select(topology@),
{
    let mut i: usize = 0;
    while i < config_set.profiles.len()
        invariant
            i <= config_set.profiles@.len(),
            first_index(i as nat, config_set@.profile_for(topology@)) is None,
        decreases config_set.profiles@.len() - i,
    {
        assert(config_set@.profiles[i as int] == config_set.profiles@[i as int]@);
        if same_text(&config_set.profiles[i].fingerprint, topology) {
            proof {
                assert(config_set@.profile_for(topology@)(i as int));
                lemma_first_hit(
                    config_set@.profiles.len(),
                    config_set@.profile_for(topology@),
                    i as int,
                );
            }
            return config_set.profiles[i].config.clone();
        }
        assert(!config_set@.profile_for(topology@)(i as int));
        i += 1;
    }
    config_set.base.clone()
}

/// Lists of names spelled the same.
pub open spec fn same_name_list(a: Seq<WorkspaceName>, b: Seq<WorkspaceName>) -> bool {
    a.len() == b.len() && forall|i: int| 0 <= i < a.len() ==> #[trigger] same_name(a[i], b[i])
}

pub open spec fn same_layout(a: SavedLayout, b: SavedLayout) -> bool {
    a.name@ == b.name@ && a.cells == b.cells
}

pub open spec fn same_layout_list(a: Seq<SavedLayout>, b: Seq<SavedLayout>) -> bool {
    a.len() == b.len() && forall|i: int| 0 <= i < a.len() ==> #[trigger] same_layout(a[i], b[i])
}

pub open spec fn same_entry(a: DisplayMapping, b: DisplayMapping) -> bool {
    a.display_fingerprint@ == b.display_fingerprint@ && same_name(a.workspace, b.workspace)
}

pub open spec fn same_entry_list(a: Seq<DisplayMapping>, b: Seq<DisplayMapping>) -> bool {
    a.len() == b.len() && forall|i: int| 0 <= i < a.len() ==> #[trigger] same_entry(a[i], b[i])
}

pub open spec fn same_mapping(a: Option<Mapping>, b: Option<Mapping>) -> bool {
    match (a, b) {
        (Some(x), Some(y)) => x.experimental == y.experimental && same_entry_list(
            x.displayed,
            y.displayed,
        ),
        (None, None) => true,
        _ => false,
    }
}

/// Two configurations that resolve everything alike.
pub open spec fn same_config(a: Config, b: Config) -> bool {
    &&& same_name_list(a.workspaces, b.workspaces)
    &&& same_layout_list(a.layouts, b.layouts)
    &&& a.gaps == b.gaps
    &&& a.rules == b.rules
    &&& a.tiling_mode == b.tiling_mode
    &&& a.automatic_tiling_enabled == b.automatic_tiling_enabled
    &&& same_mapping(a.switching, b.switching)
    &&& a.other == b.other
}

pub open spec fn same_profile(a: Profile, b: Profile) -> bool {
    a.fingerprint@ == b.fingerprint@ && same_config(a.config, b.config)
}

pub open spec fn same_config_set(a: ConfigSet, b: ConfigSet) -> bool {
    &&& same_config(a.base, b.base)
    &&& a.profiles.len() == b.profiles.len()
    &&& forall|i: int|
        0 <= i < a.profiles.len() ==> #[trigger] same_profile(a.profiles[i], b.profiles[i])
}

fn same_name_lists(a: &Vec<WorkspaceName>, b: &Vec<WorkspaceName>) -> (same: bool)
    ensures
        same == same_name_list(a@, b@),
{
    if a.len() != b.len() {
        return false;
    }
    let mut i: usize = 0;
    while i < a.len()
        invariant
            i <= a@.len(),
            a@.len() == b@.len(),
            forall|j: int| 0 <= j < i ==> #[trigger] same_name(a@[j], b@[j]),
        decreases a@.len() - i,
    {
        if !a[i].same(&b[i]) {
            assert(!same_name(a@[i as int], b@[i as int]));
            return false;
        }
        i += 1;
    }
    true
}

fn same_layout_lists(a: &Vec<SavedLayout>, b: &Vec<SavedLayout>) -> (same: bool)
    ensures
        same == same_layout_list(a@, b@),
{
    if a.len() != b.len() {
        return false;
    }
    let mut i: usize = 0;
    while i < a.len()
        invariant
            i <= a@.len(),
            a@.len() == b@.len(),
            forall|j: int| 0 <= j < i ==> #[trigger] same_layout(a@[j], b@[j]),
        decreases a@.len() - i,
    {
        if !(same_text(&a[i].name, &b[i].name) && a[i].cells == b[i].cells) {
            assert(!same_layout(a@[i as int], b@[i as int]));
            return false;
        }
        i += 1;
    }
    true
}

fn same_entry_lists(a: &Vec<DisplayMapping>, b: &Vec<DisplayMapping>) -> (same: bool)
    ensures
        same == same_entry_list(a@, b@),
{
    if a.len() != b.len() {
        return false;
    }
    let mut i: usize = 0;
    while i < a.len()
        invariant
            i <= a@.len(),
            a@.len() == b@.len(),
            forall|j: int| 0 <= j < i ==> #[trigger] same_entry(a@[j], b@[j]),
        decreases a@.len() - i,
    {
        if !(same_text(&a[i].display_fingerprint, &b[i].display_fingerprint) && a[i].workspace.same(
            &b[i].workspace,
        )) {
            assert(!same_entry(a@[i as int], b@[i as int]));
            return false;
        }
        i += 1;
    }
    true
}

impl ResolvedConfig {
    pub fn same(&self, other: &ResolvedConfig) -> (same: bool)
        ensures
            same == same_config(self@, other@),
    {
        let same_switching = match (&self.workspace_switching, &other.workspace_switching) {
            (Some(a), Some(b)) => a.experimental == b.experimental && same_entry_lists(
                &a.displayed,
                &b.displayed,
            ),
            (None, None) => true,
            _ => false,
        };
        same_name_lists(&self.workspaces, &other.workspaces) && same_layout_lists(
            &self.layouts,
            &other.layouts,
        ) && self.gaps == other.gaps && self.rules == other.rules && self.tiling_mode
            == other.tiling_mode && self.automatic_tiling_enabled == other.automatic_tiling_enabled
            && same_switching && self.other == other.other
    }
}

impl ResolvedConfigSet {
    /// Whether two sets resolve every topology alike.
    pub fn same(&self, other: &ResolvedConfigSet) -> (same: bool)
        ensures
            same == same_config_set(self@, other@),
    {
        if !self.base.same(&other.base) || self.profiles.len() != other.profiles.len() {
            return false;
        }
        let mut i: usize = 0;
        while i < self.profiles.len()
            invariant
                i <= self.profiles@.len(),
                self.profiles@.len() == other.profiles@.len(),
                forall|j: int|
                    0 <= j < i ==> #[trigger] same_profile(
                        self@.profiles[j],
                        other@.profiles[j],
                    ),
            decreases self.profiles@.len() - i,
        {
            assert(self@.profiles[i as int] == self.profiles@[i as int]@);
            assert(other@.profiles[i as int] == other.profiles@[i as int]@);
            if !(same_text(&self.profiles[i].fingerprint, &other.profiles[i].fingerprint)
                && self.profiles[i].config.same(&other.profiles[i].config)) {
                assert(!same_profile(self@.profiles[i as int], other@.profiles[i as int]));
                return false;
            }
            i += 1;
        }
        true
    }
}

} // verus!
