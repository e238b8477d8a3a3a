//! The `.sms` project descriptor's rules: stage music overrides and their
//! migration from the first format, descriptor validation, where project
//! paths may lie, and the recent-projects list.
use vstd::prelude::*;
use crate::text::{
    all_whitespace, chars_of, decimal, decimal_string, eq_ignore_ascii_case, eq_ignore_case,
    is_ascii_alphanumeric, is_blank, str_equal, string_of, char_is_ascii_alphanumeric, hex_upper,
    hex_upper_padded, hex_upper_padded_string, hex_upper_string,
};

verus! {

/// One retail BGM and, when known, its wave scene.
#[derive(Debug, Clone, Copy, PartialEq, Eq)]
pub struct ProjectMusicTrack {
    pub bgm_id: u32,
    pub wave_scene_id: Option<u32>,
}

impl ProjectMusicTrack {
    /// A track whose wave scene is known.
    pub fn resolved(bgm_id: u32, wave_scene_id: u32) -> (t: Self)
        ensures
            t == (ProjectMusicTrack { bgm_id, wave_scene_id: Some(wave_scene_id) }),
    {
        ProjectMusicTrack { bgm_id, wave_scene_id: Some(wave_scene_id) }
    }

    /// A BGM identifier (`0x8001xxxx`) with, if given, a 16-bit wave scene.
    pub open spec fn valid(self) -> bool {
        (self.bgm_id & 0xffff_0000) == 0x8001_0000 && match self.wave_scene_id {
            Some(w) => w <= 0xffff,
            None => true,
        }
    }

    pub fn is_valid(&self) -> (b: bool)
        ensures
            b == self.valid(),
    {
        (self.bgm_id & 0xffff_0000) == 0x8001_0000 && match self.wave_scene_id {
            Some(w) => w <= 0xffff,
            None => true,
        }
    }
}

/// What a stage's music role plays: nothing, or a track.
#[derive(Debug, Clone, Copy, PartialEq, Eq)]
pub enum ProjectMusicRoleOverride {
    Silent,
    Track { bgm_id: u32, wave_scene_id: Option<u32> },
}

impl ProjectMusicRoleOverride {
    pub open spec fn track_of(self) -> Option<ProjectMusicTrack> {
        match self {
            ProjectMusicRoleOverride::Silent => None,
            ProjectMusicRoleOverride::Track { bgm_id, wave_scene_id } => Some(
                ProjectMusicTrack { bgm_id, wave_scene_id },
            ),
        }
    }

    /// The override that plays `track`.
    pub fn track_override(track: ProjectMusicTrack) -> (o: Self)
        ensures
            o == (ProjectMusicRoleOverride::Track {
                bgm_id: track.bgm_id,
                wave_scene_id: track.wave_scene_id,
            }),
    {
        ProjectMusicRoleOverride::Track { bgm_id: track.bgm_id, wave_scene_id: track.wave_scene_id }
    }

    /// The track an override plays, none when silent.
    pub fn track(self) -> (t: Option<ProjectMusicTrack>)
        ensures
            t == self.track_of(),
    {
        match self {
            ProjectMusicRoleOverride::Silent => None,
            ProjectMusicRoleOverride::Track { bgm_id, wave_scene_id } => Some(
                ProjectMusicTrack { bgm_id, wave_scene_id },
            ),
        }
    }
}

/// An override made from a track plays that track.
pub proof fn track_override_plays_its_track(track: ProjectMusicTrack)
    ensures
        (ProjectMusicRoleOverride::Track {
            bgm_id: track.bgm_id,
            wave_scene_id: track.wave_scene_id,
        }).track_of() == Some(track),
{
}

/// How a stage's music changes between its regions.
#[derive(Debug, Clone, Copy, PartialEq, Eq, Structural)]
pub enum ProjectStageMusicTransition {
    GameDefault,
    Disabled,
    InsideCrossfade,
    SwitchRegion,
}

impl ProjectStageMusicTransition {
    pub fn is_game_default(value: &Self) -> (b: bool)
        ensures
            b == (*value is GameDefault),
    {
        match value {
            ProjectStageMusicTransition::GameDefault => true,
            _ => false,
        }
    }
}

/// A stage's music overrides, role by role, and its transition mode.
#[derive(Debug, Clone, Copy, PartialEq, Eq)]
pub struct ProjectStageMusicProfile {
    pub main: Option<ProjectMusicRoleOverride>,
    pub entrance: Option<ProjectMusicRoleOverride>,
    pub inside: Option<ProjectMusicRoleOverride>,
    pub switch_a: Option<ProjectMusicRoleOverride>,
    pub switch_b: Option<ProjectMusicRoleOverride>,
    pub transition: ProjectStageMusicTransition,
}

/// The role overrides a track must be valid for: a set role plays nothing
/// or a valid track.
pub open spec fn role_valid(role: Option<ProjectMusicRoleOverride>) -> bool {
    match role {
        Some(o) => match o.track_of() {
            Some(t) => t.valid(),
            None => true,
        },
        None => true,
    }
}

fn role_is_valid(role: Option<ProjectMusicRoleOverride>) -> (b: bool)
    ensures
        b == role_valid(role),
{
    match role {
        Some(o) => match o.track() {
            Some(t) => t.is_valid(),
            None => true,
        },
        None => true,
    }
}

impl ProjectStageMusicProfile {
    /// No role is overridden and the transition is the game's.
    pub open spec fn default_profile(self) -> bool {
        self.main is None && self.entrance is None && self.inside is None && self.switch_a is None
            && self.switch_b is None && self.transition is GameDefault
    }

    pub open spec fn valid(self) -> bool {
        role_valid(self.main) && role_valid(self.entrance) && role_valid(self.inside) && role_valid(
            self.switch_a,
        ) && role_valid(self.switch_b)
    }

    pub fn is_default(&self) -> (b: bool)
        ensures
            b == self.default_profile(),
    {
        self.main.is_none() && self.entrance.is_none() && self.inside.is_none()
            && self.switch_a.is_none() && self.switch_b.is_none()
            && ProjectStageMusicTransition::is_game_default(&self.transition)
    }

    pub fn is_valid(&self) -> (b: bool)
        ensures
            b == self.valid(),
    {
        role_is_valid(self.main) && role_is_valid(self.entrance) && role_is_valid(self.inside)
            && role_is_valid(self.switch_a) && role_is_valid(self.switch_b)
    }
}

/// A stage's music as the first project format stored it: a primary track
/// and an optional secondary one.
#[derive(Debug, Clone, Copy, PartialEq, Eq)]
pub struct LegacyProjectStageMusic {
    pub bgm_id: u32,
    pub wave_scene_id: u32,
    pub secondary_bgm_id: Option<u32>,
    pub secondary_wave_scene_id: Option<u32>,
}

/// The profile a first-format stage music entry becomes: the primary track
/// as the main role, the secondary as the inside role with a crossfade.
pub open spec fn migrated_profile(music: LegacyProjectStageMusic) -> ProjectStageMusicProfile {
    let inside = match music.secondary_bgm_id {
        Some(b) => Some(
            ProjectMusicRoleOverride::Track { bgm_id: b, wave_scene_id: music.secondary_wave_scene_id },
        ),
        None => None,
    };
    ProjectStageMusicProfile {
        main: Some(
            ProjectMusicRoleOverride::Track {
                bgm_id: music.bgm_id,
                wave_scene_id: Some(music.wave_scene_id),
            },
        ),
        entrance: None,
        inside,
        switch_a: None,
        switch_b: None,
        transition: if inside is Some {
            ProjectStageMusicTransition::InsideCrossfade
        } else {
            ProjectStageMusicTransition::GameDefault
        },
    }
}

/// Migrates one first-format stage music entry.
pub fn migrate_stage_music(music: LegacyProjectStageMusic) -> (p: ProjectStageMusicProfile)
    ensures
        p == migrated_profile(music),
{
    let inside = match music.secondary_bgm_id {
        Some(bgm_id) => Some(
            ProjectMusicRoleOverride::track_override(
                ProjectMusicTrack { bgm_id, wave_scene_id: music.secondary_wave_scene_id },
            ),
        ),
        None => None,
    };
    let transition = if inside.is_some() {
        ProjectStageMusicTransition::InsideCrossfade
    } else {
        ProjectStageMusicTransition::GameDefault
    };
    ProjectStageMusicProfile {
        main: Some(
            ProjectMusicRoleOverride::track_override(
                ProjectMusicTrack::resolved(music.bgm_id, music.wave_scene_id),
            ),
        ),
        entrance: None,
        inside,
        switch_a: None,
        switch_b: None,
        transition,
    }
}

/// A migrated entry always overrides something, so it is never dropped as a
/// default profile, and it plays the legacy primary track as its main role.
pub proof fn migrated_music_keeps_its_tracks(music: LegacyProjectStageMusic)
    ensures
        !migrated_profile(music).default_profile(),
        migrated_profile(music).main == Some(
            ProjectMusicRoleOverride::Track {
                bgm_id: music.bgm_id,
                wave_scene_id: Some(music.wave_scene_id),
            },
        ),
        (migrated_profile(music).inside is Some) == (music.secondary_bgm_id is Some),
{
}

/// Whether stage geometry answers viewport clicks when a project does not say.
pub fn default_stage_geometry_clickable() -> (b: bool)
    ensures
        b,
{
    true
}

/// A baked mask layer is washable unless the author says otherwise.
pub fn washable_default() -> (b: bool)
    ensures
        b,
{
    true
}

/// Water hits per wash step when a project does not say.
pub fn resistance_default() -> (r: u32)
    ensures
        r == 4,
{
    4
}

/// Levels a wash step clears when a project does not say.
pub fn wash_step_default() -> (r: u32)
    ensures
        r == 1,
{
    1
}

/// Whether every spray counts when a project does not say.
pub fn uniform_rate_default() -> (b: bool)
    ensures
        b,
{
    true
}


/// The extension every project descriptor uses.
pub open spec fn sms_extension() -> Seq<char> {
    "sms"@
}

/// The error for a descriptor path without the `.sms` extension.
pub open spec fn extension_error(display: Seq<char>) -> Seq<char> {
    "Graffito-Editor projects must use the .sms extension: "@ + display
}

/// Checks that a descriptor path ends in `.sms`, in any case: `extension` is
/// the path's extension and `display` how the path is shown.
pub fn ensure_sms_extension(extension: Option<&str>, display: &str) -> (r: Result<(), String>)
    ensures
        (extension matches Some(e) && eq_ignore_case(e@, sms_extension())) ==> r is Ok,
        !(extension matches Some(e) && eq_ignore_case(e@, sms_extension())) ==> (r matches Err(m)
            && m@ == extension_error(display@)),
{
    let is_sms = match extension {
        Some(e) => eq_ignore_ascii_case(e, "sms"),
        None => false,
    };
    if is_sms {
        Ok(())
    } else {
        let mut m = chars_of("Graffito-Editor projects must use the .sms extension: ");
        let mut d = chars_of(display);
        m.append(&mut d);
        Err(string_of(&m))
    }
}

/// A project's default data directory, named after the descriptor's file
/// stem (`project` when it has none, or a blank one).
pub open spec fn data_root_for(stem: Option<Seq<char>>) -> Seq<char> {
    match stem {
        Some(s) => if all_whitespace(s) {
            "project.smsdata"@
        } else {
            s + ".smsdata"@
        },
        None => "project.smsdata"@,
    }
}

pub fn default_project_data_root(stem: Option<&str>) -> (root: String)
    ensures
        root@ == data_root_for(
            match stem {
                Some(s) => Some(s@),
                None => None,
            },
        ),
{
    let mut v = match stem {
        Some(s) => if is_blank(s) {
            chars_of("project")
        } else {
            chars_of(s)
        },
        None => chars_of("project"),
    };
    let mut ext = chars_of(".smsdata");
    v.append(&mut ext);
    proof {
        reveal_strlit("project.smsdata");
        reveal_strlit("project");
        reveal_strlit(".smsdata");
    }
    string_of(&v)
}

/// How long ago a recent project was opened, in the largest whole unit.
pub open spec fn age_label(elapsed: nat) -> Seq<char> {
    if elapsed < 60 {
        "Opened just now"@
    } else if elapsed < 3600 {
        "Opened "@ + decimal(elapsed / 60) + "m ago"@
    } else if elapsed < 86400 {
        "Opened "@ + decimal(elapsed / 3600) + "h ago"@
    } else {
        "Opened "@ + decimal(elapsed / 86400) + "d ago"@
    }
}

/// The age label of a recent project opened at `last_opened_unix`, when it
/// is `now` (seconds since the Unix epoch); a time in the future counts as
/// just now.
pub fn recent_age_label(last_opened_unix: u64, now: u64) -> (label: String)
    ensures
        label@ == age_label(if now >= last_opened_unix {
            (now - last_opened_unix) as nat
        } else {
            0
        }),
{
    let elapsed = now.saturating_sub(last_opened_unix);
    if elapsed < 60 {
        return "Opened just now".to_owned();
    }
    let (value, unit) = if elapsed < 3600 {
        (elapsed / 60, "m ago")
    } else if elapsed < 86400 {
        (elapsed / 3600, "h ago")
    } else {
        (elapsed / 86400, "d ago")
    };
    let mut v = chars_of("Opened ");
    let mut digits = decimal_string(value);
    v.append(&mut digits);
    let mut u = chars_of(unit);
    v.append(&mut u);
    string_of(&v)
}

/// Whether two paths name the same file: exactly equal, or equal but for
/// ASCII case where the platform's paths ignore case. Elsewhere the caller
/// hands the paths over rebuilt from their components, so equal text is
/// equal components.
pub open spec fn same_path(a: Seq<char>, b: Seq<char>, ignore_case: bool) -> bool {
    if ignore_case {
        eq_ignore_case(a, b)
    } else {
        a == b
    }
}

pub fn paths_equal(left: &str, right: &str, ignore_case: bool) -> (b: bool)
    ensures
        b == same_path(left@, right@, ignore_case),
{
    if ignore_case {
        eq_ignore_ascii_case(left, right)
    } else {
        str_equal(left, right)
    }
}

/// A path's components as compared: lower-cased where paths ignore case.
pub fn comparable_components(components: &Vec<String>, ignore_case: bool) -> (r: Vec<String>)
    ensures
        r@.len() == components@.len(),
        forall|i: int|
            0 <= i < r@.len() ==> (#[trigger] r@[i])@ == if ignore_case {
                crate::text::lower_seq(components@[i]@)
            } else {
                components@[i]@
            },
{
    let mut r: Vec<String> = Vec::new();
    let mut i: usize = 0;
    while i < components.len()
        invariant
            i <= components@.len(),
            r@.len() == i,
            forall|k: int|
                0 <= k < i ==> (#[trigger] r@[k])@ == if ignore_case {
                    crate::text::lower_seq(components@[k]@)
                } else {
                    components@[k]@
                },
        decreases components@.len() - i,
    {
        let c = &components[i];
        let value = if ignore_case {
            string_of(&crate::text::to_ascii_lower(&chars_of(c.as_str())))
        } else {
            c.clone()
        };
        r.push(value);
        i += 1;
    }
    r
}

/// Whether `parent`'s components begin `candidate`'s.
pub open spec fn same_or_child(candidate: Seq<Seq<char>>, parent: Seq<Seq<char>>) -> bool {
    candidate.len() >= parent.len() && forall|i: int| 0 <= i < parent.len() ==> candidate[i] == parent[i]
}

pub open spec fn component_views(v: Seq<String>) -> Seq<Seq<char>> {
    v.map_values(|s: String| s@)
}

/// Whether a path, given by its comparable components, is `parent` or lies
/// inside it.
pub fn path_is_same_or_child(candidate: &Vec<String>, parent: &Vec<String>) -> (b: bool)
    ensures
        b == same_or_child(component_views(candidate@), component_views(parent@)),
{
    if candidate.len() < parent.len() {
        return false;
    }
    let mut i: usize = 0;
    while i < parent.len()
        invariant
            i <= parent@.len() <= candidate@.len(),
            forall|k: int| 0 <= k < i ==> candidate@[k]@ == parent@[k]@,
        decreases parent@.len() - i,
    {
        if !str_equal(candidate[i].as_str(), parent[i].as_str()) {
            proof {
                assert(component_views(candidate@)[i as int] != component_views(parent@)[i as int]);
            }
            return false;
        }
        i += 1;
    }
    proof {
        assert forall|k: int| 0 <= k < parent@.len() implies component_views(candidate@)[k]
            == component_views(parent@)[k] by {
            assert(candidate@[k]@ == parent@[k]@);
        }
    }
    true
}


/// How many projects the recent list keeps.
pub const MAX_RECENT_PROJECTS: usize = 12;

/// A recently opened project.
#[derive(Debug, Clone, PartialEq, Eq)]
pub struct RecentProjectEntry {
    pub path: String,
    pub last_opened_unix: u64,
    pub name: String,
    pub base_game_root: String,
}

impl RecentProjectEntry {
    pub fn duplicate(&self) -> (r: Self)
        ensures
            r == *self,
    {
        RecentProjectEntry {
            path: self.path.clone(),
            last_opened_unix: self.last_opened_unix,
            name: self.name.clone(),
            base_game_root: self.base_game_root.clone(),
        }
    }
}

/// The recent-projects list and where it is saved, if anywhere.
#[derive(Debug, Clone)]
pub struct RecentProjects {
    config_path: Option<String>,
    entries: Vec<RecentProjectEntry>,
}

/// The entries for other paths than `path`, in order.
pub open spec fn without_path(
    entries: Seq<RecentProjectEntry>,
    path: Seq<char>,
    ignore_case: bool,
) -> Seq<RecentProjectEntry>
    decreases entries.len(),
{
    if entries.len() == 0 {
        Seq::empty()
    } else {
        let rest = without_path(entries.drop_last(), path, ignore_case);
        if same_path(entries.last().path@, path, ignore_case) {
            rest
        } else {
            rest.push(entries.last())
        }
    }
}

/// The list after opening a project: it comes first, any older entry for its
/// path goes, and the list keeps at most its limit.
pub open spec fn touched(
    entries: Seq<RecentProjectEntry>,
    entry: RecentProjectEntry,
    ignore_case: bool,
) -> Seq<RecentProjectEntry> {
    let all = seq![entry] + without_path(entries, entry.path@, ignore_case);
    if all.len() > MAX_RECENT_PROJECTS {
        all.take(MAX_RECENT_PROJECTS as int)
    } else {
        all
    }
}

impl View for RecentProjects {
    type V = Seq<RecentProjectEntry>;

    closed spec fn view(&self) -> Seq<RecentProjectEntry> {
        self.entries@
    }
}

fn remove_path(entries: &Vec<RecentProjectEntry>, path: &str, ignore_case: bool) -> (r: Vec<RecentProjectEntry>)
    ensures
        r@ == without_path(entries@, path@, ignore_case),
{
    let mut r: Vec<RecentProjectEntry> = Vec::new();
    let mut i: usize = 0;
    while i < entries.len()
        invariant
            i <= entries@.len(),
            r@ == without_path(entries@.take(i as int), path@, ignore_case),
        decreases entries@.len() - i,
    {
        proof {
            assert(entries@.take(i + 1).drop_last() =~= entries@.take(i as int));
        }
        if !paths_equal(entries[i].path.as_str(), path, ignore_case) {
            r.push(entries[i].duplicate());
        }
        i += 1;
    }
    proof {
        assert(entries@.take(entries@.len() as int) =~= entries@);
    }
    r
}

impl RecentProjects {
    /// Where the list is saved, if anywhere.
    pub closed spec fn config(&self) -> Option<String> {
        self.config_path
    }

    pub fn config_path(&self) -> (p: &Option<String>)
        ensures
            *p == self.config(),
    {
        &self.config_path
    }

    /// An empty list that is saved nowhere.
    pub fn empty() -> (r: Self)
        ensures
            r@ == Seq::<RecentProjectEntry>::empty(),
            r.config() is None,
    {
        RecentProjects { config_path: None, entries: Vec::new() }
    }

    /// A list read from `config_path`.
    pub fn with_entries(config_path: Option<String>, entries: Vec<RecentProjectEntry>) -> (r: Self)
        ensures
            r@ == entries@,
            r.config() == config_path,
    {
        RecentProjects { config_path, entries }
    }

    pub fn entries(&self) -> (e: &[RecentProjectEntry])
        ensures
            e@ == self@,
    {
        self.entries.as_slice()
    }

    /// Puts a just-opened project first, dropping any older entry for its
    /// path and keeping at most twelve. The caller saves the list.
    pub fn touch(&mut self, entry: RecentProjectEntry, ignore_case: bool)
        ensures
            final(self)@ == touched(old(self)@, entry, ignore_case),
            final(self).config() == old(self).config(),
    {
        let ghost e = entry;
        let rest = remove_path(&self.entries, entry.path.as_str(), ignore_case);
        let mut all: Vec<RecentProjectEntry> = Vec::new();
        all.push(entry);
        let mut i: usize = 0;
        while i < rest.len()
            invariant
                i <= rest@.len(),
                all@ == seq![e] + rest@.take(i as int),
            decreases rest@.len() - i,
        {
            all.push(rest[i].duplicate());
            proof {
                assert(seq![e] + rest@.take(i + 1) =~= (seq![e] + rest@.take(i as int)).push(rest@[i as int]));
            }
            i += 1;
        }
        proof {
            assert(rest@.take(rest@.len() as int) =~= rest@);
        }
        all.truncate(MAX_RECENT_PROJECTS);
        self.entries = all;
    }

    /// Forgets a project. The caller saves the list.
    pub fn remove(&mut self, path: &str, ignore_case: bool)
        ensures
            final(self)@ == without_path(old(self)@, path@, ignore_case),
            final(self).config() == old(self).config(),
    {
        self.entries = remove_path(&self.entries, path, ignore_case);
    }
}

proof fn lemma_without_path_excludes(entries: Seq<RecentProjectEntry>, path: Seq<char>, ignore_case: bool)
    ensures
        forall|k: int|
            0 <= k < without_path(entries, path, ignore_case).len() ==> !same_path(
                #[trigger] without_path(entries, path, ignore_case)[k].path@,
                path,
                ignore_case,
            ),
        without_path(entries, path, ignore_case).len() <= entries.len(),
    decreases entries.len(),
{
    if entries.len() > 0 {
        lemma_without_path_excludes(entries.drop_last(), path, ignore_case);
        let rest = without_path(entries.drop_last(), path, ignore_case);
        assert forall|k: int| 0 <= k < without_path(entries, path, ignore_case).len() implies !same_path(
            #[trigger] without_path(entries, path, ignore_case)[k].path@,
            path,
            ignore_case,
        ) by {
            if k < rest.len() {
                assert(without_path(entries, path, ignore_case)[k] == rest[k]);
            }
        }
    }
}

/// Opening a project puts it first, keeps no other entry for its path, and
/// never lets the list outgrow its limit.
pub proof fn touch_puts_project_first_once(
    entries: Seq<RecentProjectEntry>,
    entry: RecentProjectEntry,
    ignore_case: bool,
)
    ensures
        touched(entries, entry, ignore_case)[0] == entry,
        touched(entries, entry, ignore_case).len() <= MAX_RECENT_PROJECTS,
        touched(entries, entry, ignore_case).len() >= 1,
        forall|k: int|
            1 <= k < touched(entries, entry, ignore_case).len() ==> !same_path(
                #[trigger] touched(entries, entry, ignore_case)[k].path@,
                entry.path@,
                ignore_case,
            ),
{
    lemma_without_path_excludes(entries, entry.path@, ignore_case);
    let rest = without_path(entries, entry.path@, ignore_case);
    let all = seq![entry] + rest;
    assert forall|k: int| 1 <= k < touched(entries, entry, ignore_case).len() implies !same_path(
        #[trigger] touched(entries, entry, ignore_case)[k].path@,
        entry.path@,
        ignore_case,
    ) by {
        assert(touched(entries, entry, ignore_case)[k] == all[k]);
        assert(all[k] == rest[k - 1]);
    }
}


/// What a sound helper assignment points at.
#[derive(Debug, Clone, Copy, PartialEq, Eq)]
pub enum ProjectSoundAssignmentKind {
    MapStatic,
    Graph,
}

/// A sound helper assignment: which sound an object plays instead.
#[derive(Debug, Clone, PartialEq, Eq)]
pub struct ProjectSoundAssignment {
    pub kind: ProjectSoundAssignmentKind,
    pub source_name: String,
    pub original_sound_id: u32,
    pub sound_id: u32,
}

/// What the descriptor rules read of a path: whether it is empty, absolute,
/// or climbs out with a parent, root or prefix component, and how it shows.
#[derive(Debug, Clone)]
pub struct ProjectPathFacts {
    pub empty: bool,
    pub absolute: bool,
    pub escapes: bool,
    pub display: String,
}

/// One component of a path (`std::path::Component`), a normal one with its
/// text.
#[derive(Debug)]
pub enum PathPart {
    Prefix,
    RootDir,
    CurDir,
    ParentDir,
    Normal(String),
}

/// A component that leads out of the directory a relative path starts in:
/// a parent, a root or a prefix.
pub open spec fn part_escapes(p: PathPart) -> bool {
    p is Prefix || p is RootDir || p is ParentDir
}

/// What the descriptor rules read of a path, from its components;
/// `empty`, `absolute` and `display` are the path's own.
pub fn path_facts(parts: &Vec<PathPart>, empty: bool, absolute: bool, display: &str) -> (f: ProjectPathFacts)
    ensures
        f.empty == empty,
        f.absolute == absolute,
        f.display@ == display@,
        f.escapes == exists|i: int| 0 <= i < parts@.len() && part_escapes(#[trigger] parts@[i]),
{
    let mut escapes = false;
    let mut i: usize = 0;
    while i < parts.len()
        invariant
            i <= parts@.len(),
            escapes == exists|j: int| 0 <= j < i && part_escapes(#[trigger] parts@[j]),
        decreases parts@.len() - i,
    {
        let hit = match &parts[i] {
            PathPart::Prefix | PathPart::RootDir | PathPart::ParentDir => true,
            _ => false,
        };
        if hit {
            escapes = true;
        }
        i += 1;
    }
    ProjectPathFacts { empty, absolute, escapes, display: display.to_owned() }
}

/// A project descriptor as its validation reads it.
#[derive(Debug)]
pub struct ProjectDescriptorCheck {
    pub format_version: u32,
    pub kind: String,
    pub name: String,
    pub project_id: String,
    /// Each saved camera's stage and whether the camera's numbers are sound.
    pub stage_cameras: Vec<(String, bool)>,
    pub stage_music: Vec<(String, ProjectStageMusicProfile)>,
    pub sound_assignments: Vec<(String, ProjectSoundAssignment)>,
    pub base_game_root_empty: bool,
    pub project_data_root: ProjectPathFacts,
    pub managed_build_root: Option<ProjectPathFacts>,
}

/// A stage key: not blank, and only ASCII letters, digits, `_` and `-`.
pub open spec fn stage_key_ok(s: Seq<char>) -> bool {
    !all_whitespace(s) && forall|i: int|
        0 <= i < s.len() ==> is_ascii_alphanumeric(#[trigger] s[i]) || s[i] == '_' || s[i] == '-'
}

/// A saved stage key is accepted exactly when it is not empty and each of its
/// characters is an ASCII letter, an ASCII digit, `_` or `-`.
pub proof fn stage_keys_are_word_characters(s: Seq<char>)
    ensures
        stage_key_ok(s) <==> (s.len() > 0 && forall|i: int|
            0 <= i < s.len() ==> ('a' <= #[trigger] s[i] <= 'z' || 'A' <= s[i] <= 'Z' || '0' <= s[i] <= '9'
                || s[i] == '_' || s[i] == '-')),
{
    if s.len() > 0 && forall|i: int|
        0 <= i < s.len() ==> ('a' <= #[trigger] s[i] <= 'z' || 'A' <= s[i] <= 'Z' || '0' <= s[i] <= '9'
            || s[i] == '_' || s[i] == '-') {
        assert(!crate::text::is_whitespace(s[0]));
        assert(!all_whitespace(s));
    }
    if stage_key_ok(s) {
        if s.len() == 0 {
            assert(all_whitespace(s));
        }
    }
}

pub fn stage_key_is_ok(s: &str) -> (b: bool)
    ensures
        b == stage_key_ok(s@),
{
    if is_blank(s) {
        return false;
    }
    let v = chars_of(s);
    let mut i: usize = 0;
    while i < v.len()
        invariant
            i <= v@.len(),
            v@ == s@,
            forall|k: int| 0 <= k < i ==> is_ascii_alphanumeric(#[trigger] v@[k]) || v@[k] == '_' || v@[k] == '-',
        decreases v@.len() - i,
    {
        let c = v[i];
        if !(char_is_ascii_alphanumeric(c) || c == '_' || c == '-') {
            return false;
        }
        i += 1;
    }
    true
}

pub open spec fn camera_bad(c: (String, bool)) -> bool {
    !stage_key_ok(c.0@) || !c.1
}

pub open spec fn music_bad(m: (String, ProjectStageMusicProfile)) -> bool {
    !stage_key_ok(m.0@) || m.1.default_profile() || !m.1.valid()
}

pub open spec fn assignment_bad(a: (String, ProjectSoundAssignment)) -> bool {
    all_whitespace(a.0@) || all_whitespace(a.1.source_name@) || a.1.original_sound_id > 0xffff
        || a.1.sound_id > 0xffff
}

pub open spec fn project_line(path: Seq<char>, rest: Seq<char>) -> Seq<char> {
    "Project '"@ + path + rest
}

/// The first problem of a descriptor, as the message that reports it.
pub open spec fn project_problem(d: ProjectDescriptorCheck, path: Seq<char>) -> Option<Seq<char>> {
    if d.format_version != 2 {
        Some(
            project_line(
                path,
                "' uses format version "@ + decimal(d.format_version as nat)
                    + "; this editor supports version 2"@,
            ),
        )
    } else if d.kind@ != "sms-editor-project"@ {
        Some(project_line(path, "' has unsupported kind '"@ + d.kind@ + "'"@))
    } else if all_whitespace(d.name@) {
        Some(project_line(path, "' has no name"@))
    } else if all_whitespace(d.project_id@) {
        Some(project_line(path, "' has no project id"@))
    } else if exists|i: int| 0 <= i < d.stage_cameras@.len() && camera_bad(#[trigger] d.stage_cameras@[i]) {
        Some(project_line(path, "' has an invalid saved stage camera"@))
    } else if exists|i: int| 0 <= i < d.stage_music@.len() && music_bad(#[trigger] d.stage_music@[i]) {
        Some(project_line(path, "' has an invalid saved stage music override"@))
    } else if exists|i: int|
        0 <= i < d.sound_assignments@.len() && assignment_bad(#[trigger] d.sound_assignments@[i]) {
        Some(project_line(path, "' has an invalid sound helper assignment"@))
    } else if d.base_game_root_empty {
        Some(project_line(path, "' has no extracted base game directory"@))
    } else if d.project_data_root.empty {
        Some(project_line(path, "' has no project data path"@))
    } else if !d.project_data_root.absolute && d.project_data_root.escapes {
        Some(
            project_line(
                path,
                "' has an unsafe relative data path '"@ + d.project_data_root.display@ + "'"@,
            ),
        )
    } else if d.managed_build_root matches Some(b) && b.empty {
        Some(project_line(path, "' has an empty managed build path"@))
    } else if d.managed_build_root matches Some(b) && !b.absolute && b.escapes {
        Some(
            project_line(
                path,
                "' has an unsafe relative managed build path '"@ + d.managed_build_root->0.display@
                    + "'"@,
            ),
        )
    } else {
        None
    }
}

fn project_error(path: &str, rest: Vec<char>) -> (m: String)
    ensures
        m@ == project_line(path@, rest@),
{
    let mut v = chars_of("Project '");
    let mut p = chars_of(path);
    v.append(&mut p);
    let mut r = rest;
    v.append(&mut r);
    string_of(&v)
}

fn concat3(a: &str, b: &str, c: &str) -> (v: Vec<char>)
    ensures
        v@ == a@ + b@ + c@,
{
    let mut v = chars_of(a);
    let mut bv = chars_of(b);
    v.append(&mut bv);
    let mut cv = chars_of(c);
    v.append(&mut cv);
    v
}

fn any_bad_camera(cams: &Vec<(String, bool)>) -> (b: bool)
    ensures
        b == exists|i: int| 0 <= i < cams@.len() && camera_bad(#[trigger] cams@[i]),
{
    let mut i: usize = 0;
    while i < cams.len()
        invariant
            i <= cams@.len(),
            forall|k: int| 0 <= k < i ==> !camera_bad(#[trigger] cams@[k]),
        decreases cams@.len() - i,
    {
        if !stage_key_is_ok(cams[i].0.as_str()) || !cams[i].1 {
            assert(camera_bad(cams@[i as int]));
            return true;
        }
        i += 1;
    }
    false
}

fn any_bad_music(music: &Vec<(String, ProjectStageMusicProfile)>) -> (b: bool)
    ensures
        b == exists|i: int| 0 <= i < music@.len() && music_bad(#[trigger] music@[i]),
{
    let mut i: usize = 0;
    while i < music.len()
        invariant
            i <= music@.len(),
            forall|k: int| 0 <= k < i ==> !music_bad(#[trigger] music@[k]),
        decreases music@.len() - i,
    {
        if !stage_key_is_ok(music[i].0.as_str()) || music[i].1.is_default() || !music[i].1.is_valid() {
            assert(music_bad(music@[i as int]));
            return true;
        }
        i += 1;
    }
    false
}

fn any_bad_assignment(assignments: &Vec<(String, ProjectSoundAssignment)>) -> (b: bool)
    ensures
        b == exists|i: int| 0 <= i < assignments@.len() && assignment_bad(#[trigger] assignments@[i]),
{
    let mut i: usize = 0;
    while i < assignments.len()
        invariant
            i <= assignments@.len(),
            forall|k: int| 0 <= k < i ==> !assignment_bad(#[trigger] assignments@[k]),
        decreases assignments@.len() - i,
    {
        let a = &assignments[i];
        if is_blank(a.0.as_str()) || is_blank(a.1.source_name.as_str()) || a.1.original_sound_id
            > 0xffff || a.1.sound_id > 0xffff {
            assert(assignment_bad(assignments@[i as int]));
            return true;
        }
        i += 1;
    }
    false
}

/// Checks a project descriptor, reporting its first problem; `path` is how
/// the descriptor's path shows.
pub fn validate_project(d: &ProjectDescriptorCheck, path: &str) -> (r: Result<(), String>)
    ensures
        match project_problem(*d, path@) {
            Some(m) => r matches Err(e) && e@ == m,
            None => r is Ok,
        },
{
    if d.format_version != 2 {
        let mut rest = chars_of("' uses format version ");
        let mut digits = decimal_string(d.format_version as u64);
        rest.append(&mut digits);
        let mut tail = chars_of("; this editor supports version 2");
        rest.append(&mut tail);
        return Err(project_error(path, rest));
    }
    if !str_equal(d.kind.as_str(), "sms-editor-project") {
        return Err(project_error(path, concat3("' has unsupported kind '", d.kind.as_str(), "'")));
    }
    if is_blank(d.name.as_str()) {
        return Err(project_error(path, chars_of("' has no name")));
    }
    if is_blank(d.project_id.as_str()) {
        return Err(project_error(path, chars_of("' has no project id")));
    }
    if any_bad_camera(&d.stage_cameras) {
        return Err(project_error(path, chars_of("' has an invalid saved stage camera")));
    }
    if any_bad_music(&d.stage_music) {
        return Err(project_error(path, chars_of("' has an invalid saved stage music override")));
    }
    if any_bad_assignment(&d.sound_assignments) {
        return Err(project_error(path, chars_of("' has an invalid sound helper assignment")));
    }
    if d.base_game_root_empty {
        return Err(project_error(path, chars_of("' has no extracted base game directory")));
    }
    if d.project_data_root.empty {
        return Err(project_error(path, chars_of("' has no project data path")));
    }
    if !d.project_data_root.absolute && d.project_data_root.escapes {
        return Err(
            project_error(
                path,
                concat3("' has an unsafe relative data path '", d.project_data_root.display.as_str(), "'"),
            ),
        );
    }
    if let Some(build_root) = &d.managed_build_root {
        if build_root.empty {
            return Err(project_error(path, chars_of("' has an empty managed build path")));
        }
        if !build_root.absolute && build_root.escapes {
            return Err(
                project_error(
                    path,
                    concat3(
                        "' has an unsafe relative managed build path '",
                        build_root.display.as_str(),
                        "'",
                    ),
                ),
            );
        }
    }
    Ok(())
}


/// Where a project's files lie, each path as its comparable components after
/// normalising it to an absolute one.
#[derive(Debug)]
pub struct ProjectLocations {
    pub descriptor: Vec<String>,
    pub base_root: Vec<String>,
    pub data_root: Vec<String>,
    pub build_root: Vec<String>,
}

pub open spec fn overlap(a: Seq<String>, b: Seq<String>) -> bool {
    same_or_child(component_views(a), component_views(b)) || same_or_child(
        component_views(b),
        component_views(a),
    )
}

/// The first way a project's locations collide, as the message that
/// reports it: the descriptor inside the base game, data or build output
/// overlapping the base game or each other, the descriptor inside the
/// build output.
pub open spec fn location_problem(
    l: ProjectLocations,
    path: Seq<char>,
    data: Seq<char>,
    build: Seq<char>,
) -> Option<Seq<char>> {
    if same_or_child(component_views(l.descriptor@), component_views(l.base_root@)) {
        Some("Project descriptor must be outside the extracted base game directory: "@ + path)
    } else if overlap(l.data_root@, l.base_root@) {
        Some("Project data must not overlap the extracted base game directory: "@ + data)
    } else if overlap(l.build_root@, l.base_root@) {
        Some("Managed build output must not overlap the extracted base game directory: "@ + build)
    } else if overlap(l.build_root@, l.data_root@) {
        Some("Managed build output must not overlap project data: "@ + build)
    } else if same_or_child(component_views(l.descriptor@), component_views(l.build_root@)) {
        Some("Project descriptor must be outside the managed build directory: "@ + path)
    } else {
        None
    }
}

fn message(prefix: &str, detail: &str) -> (m: String)
    ensures
        m@ == prefix@ + detail@,
{
    let mut v = chars_of(prefix);
    let mut d = chars_of(detail);
    v.append(&mut d);
    string_of(&v)
}

/// Checks that a project's descriptor, data and build output stay out of the
/// base game and out of each other. `path`, `data` and `build` are how the
/// descriptor, data root and build root show.
pub fn validate_locations(l: &ProjectLocations, path: &str, data: &str, build: &str) -> (r: Result<(), String>)
    ensures
        match location_problem(*l, path@, data@, build@) {
            Some(m) => r matches Err(e) && e@ == m,
            None => r is Ok,
        },
{
    if path_is_same_or_child(&l.descriptor, &l.base_root) {
        return Err(message("Project descriptor must be outside the extracted base game directory: ", path));
    }
    if path_is_same_or_child(&l.data_root, &l.base_root) || path_is_same_or_child(&l.base_root, &l.data_root) {
        return Err(message("Project data must not overlap the extracted base game directory: ", data));
    }
    if path_is_same_or_child(&l.build_root, &l.base_root) || path_is_same_or_child(&l.base_root, &l.build_root) {
        return Err(message("Managed build output must not overlap the extracted base game directory: ", build));
    }
    if path_is_same_or_child(&l.build_root, &l.data_root) || path_is_same_or_child(&l.data_root, &l.build_root) {
        return Err(message("Managed build output must not overlap project data: ", build));
    }
    if path_is_same_or_child(&l.descriptor, &l.build_root) {
        return Err(message("Project descriptor must be outside the managed build directory: ", path));
    }
    Ok(())
}

/// The stage music entries as characters.
pub open spec fn music_view(music: Seq<(String, ProjectStageMusicProfile)>) -> Seq<(Seq<char>, ProjectStageMusicProfile)> {
    music.map_values(|e: (String, ProjectStageMusicProfile)| (e.0@, e.1))
}

/// The music chosen for a stage: the first entry whose stage key equals the
/// stage id ignoring ASCII case.
pub open spec fn music_for(music: Seq<(Seq<char>, ProjectStageMusicProfile)>, stage: Seq<char>) -> Option<
    ProjectStageMusicProfile,
>
    decreases music.len(),
{
    if music.len() == 0 {
        None
    } else {
        match music_for(music.drop_last(), stage) {
            Some(p) => Some(p),
            None => if eq_ignore_case(music.last().0, stage) {
                Some(music.last().1)
            } else {
                None
            },
        }
    }
}

proof fn lemma_music_for_prefix(music: Seq<(Seq<char>, ProjectStageMusicProfile)>, stage: Seq<char>, n: int)
    requires
        0 <= n <= music.len(),
        music_for(music.take(n), stage) is Some,
    ensures
        music_for(music, stage) == music_for(music.take(n), stage),
    decreases music.len() - n,
{
    if n < music.len() {
        assert(music.take(n + 1).drop_last() =~= music.take(n));
        lemma_music_for_prefix(music, stage, n + 1);
    } else {
        assert(music.take(n) =~= music);
    }
}

/// Whether an entry belongs to some other stage than `stage`.
pub open spec fn other_stage(stage: Seq<char>) -> spec_fn((Seq<char>, ProjectStageMusicProfile)) -> bool {
    |e: (Seq<char>, ProjectStageMusicProfile)| !eq_ignore_case(e.0, stage)
}

/// The stage music after choosing `choice` for `stage`: every entry for the
/// stage, in any ASCII case, goes, and the choice, if any, is added under the
/// stage id as given.
pub open spec fn music_with(
    music: Seq<(Seq<char>, ProjectStageMusicProfile)>,
    stage: Seq<char>,
    choice: Option<ProjectStageMusicProfile>,
) -> Seq<(Seq<char>, ProjectStageMusicProfile)> {
    let kept = music.filter(other_stage(stage));
    match choice {
        Some(p) => kept.push((stage, p)),
        None => kept,
    }
}

/// The music a project has chosen for a stage, if any.
pub fn stage_music_for(music: &Vec<(String, ProjectStageMusicProfile)>, stage_id: &str) -> (r: Option<
    ProjectStageMusicProfile,
>)
    ensures
        r == music_for(music_view(music@), stage_id@),
{
    let ghost all = music_view(music@);
    let mut i: usize = 0;
    assert(all.take(0) =~= Seq::<(Seq<char>, ProjectStageMusicProfile)>::empty());
    while i < music.len()
        invariant
            i <= music@.len(),
            all == music_view(music@),
            music_for(all.take(i as int), stage_id@) is None,
        decreases music@.len() - i,
    {
        proof {
            assert(all.take(i + 1).drop_last() =~= all.take(i as int));
        }
        if eq_ignore_ascii_case(music[i].0.as_str(), stage_id) {
            proof {
                lemma_music_for_prefix(all, stage_id@, i + 1);
            }
            return Some(music[i].1);
        }
        i += 1;
    }
    proof {
        assert(all.take(music@.len() as int) =~= all);
    }
    None
}

/// The stage music after choosing `choice` for the stage `stage_id`.
pub fn with_stage_music(
    music: &Vec<(String, ProjectStageMusicProfile)>,
    stage_id: &str,
    choice: Option<ProjectStageMusicProfile>,
) -> (r: Vec<(String, ProjectStageMusicProfile)>)
    ensures
        music_view(r@) == music_with(music_view(music@), stage_id@, choice),
{
    let ghost all = music_view(music@);
    let ghost keep = other_stage(stage_id@);
    let mut r: Vec<(String, ProjectStageMusicProfile)> = Vec::new();
    let mut i: usize = 0;
    while i < music.len()
        invariant
            i <= music@.len(),
            all == music_view(music@),
            keep == other_stage(stage_id@),
            music_view(r@) == all.take(i as int).filter(keep),
        decreases music@.len() - i,
    {
        proof {
            reveal(Seq::filter);
            assert(all.take(i + 1).drop_last() =~= all.take(i as int));
        }
        if !eq_ignore_ascii_case(music[i].0.as_str(), stage_id) {
            let ghost before = r@;
            r.push((music[i].0.clone(), music[i].1));
            proof {
                assert(music_view(r@) =~= music_view(before).push(all[i as int]));
            }
        }
        i += 1;
    }
    proof {
        assert(all.take(music@.len() as int) =~= all);
    }
    match choice {
        Some(p) => {
            let ghost before = r@;
            r.push((stage_id.to_owned(), p));
            proof {
                assert(music_view(r@) =~= music_view(before).push((stage_id@, p)));
            }
        },
        None => {},
    }
    r
}

/// The line a stage music choice logs: why the save failed, the stage's
/// return to the game's music, or the main role's track it now plays.
pub open spec fn stage_music_message(
    stage: Seq<char>,
    choice: Option<ProjectStageMusicProfile>,
    saved: Result<(), String>,
) -> Seq<char> {
    match saved {
        Err(e) => "Could not save stage music selection: "@ + e@,
        Ok(()) => match choice {
            None => "Restored stage '"@ + stage + "' to the game's default music."@,
            Some(p) => match p.main {
                Some(ProjectMusicRoleOverride::Track { bgm_id, wave_scene_id: Some(w) }) => "Set stage '"@
                    + stage + "' music to BGM 0x"@ + hex_upper_padded(bgm_id as nat, 8) + " (wave scene 0x"@
                    + hex_upper(w as nat) + ")."@,
                Some(ProjectMusicRoleOverride::Track { bgm_id, wave_scene_id: None }) => "Set stage '"@ + stage
                    + "' music to BGM 0x"@ + hex_upper_padded(bgm_id as nat, 8) + "."@,
                _ => "Set stage '"@ + stage + "' music."@,
            },
        },
    }
}

fn append_str(v: &mut Vec<char>, s: &str)
    ensures
        final(v)@ == old(v)@ + s@,
{
    let mut t = chars_of(s);
    v.append(&mut t);
}

/// The line a stage music choice logs once the project was saved, or not.
/// A failed save leaves the caller's previous list in place.
pub fn stage_music_line(stage_id: &str, choice: Option<ProjectStageMusicProfile>, saved: &Result<(), String>) -> (line: String)
    ensures
        line@ == stage_music_message(stage_id@, choice, *saved),
{
    let mut v: Vec<char> = Vec::new();
    match saved {
        Err(e) => {
            append_str(&mut v, "Could not save stage music selection: ");
            append_str(&mut v, e.as_str());
        },
        Ok(()) => match choice {
            None => {
                append_str(&mut v, "Restored stage '");
                append_str(&mut v, stage_id);
                append_str(&mut v, "' to the game's default music.");
            },
            Some(p) => {
                append_str(&mut v, "Set stage '");
                append_str(&mut v, stage_id);
                match p.main {
                    Some(ProjectMusicRoleOverride::Track { bgm_id, wave_scene_id }) => {
                        append_str(&mut v, "' music to BGM 0x");
                        let mut bgm = hex_upper_padded_string(bgm_id, 8);
                        v.append(&mut bgm);
                        match wave_scene_id {
                            Some(w) => {
                                append_str(&mut v, " (wave scene 0x");
                                let mut wave = hex_upper_string(w);
                                v.append(&mut wave);
                                append_str(&mut v, ").");
                            },
                            None => {
                                append_str(&mut v, ".");
                            },
                        }
                    },
                    _ => {
                        append_str(&mut v, "' music.");
                    },
                }
            },
        },
    }
    string_of(&v)
}

proof fn lemma_music_for_push(
    music: Seq<(Seq<char>, ProjectStageMusicProfile)>,
    e: (Seq<char>, ProjectStageMusicProfile),
    stage: Seq<char>,
)
    ensures
        music_for(music.push(e), stage) == match music_for(music, stage) {
            Some(p) => Some(p),
            None => if eq_ignore_case(e.0, stage) {
                Some(e.1)
            } else {
                None
            },
        },
{
    assert(music.push(e).drop_last() =~= music);
}

proof fn lemma_music_for_kept(music: Seq<(Seq<char>, ProjectStageMusicProfile)>, stage: Seq<char>, other: Seq<char>)
    ensures
        music_for(music.filter(other_stage(stage)), stage) is None,
        !eq_ignore_case(other, stage) ==> music_for(music.filter(other_stage(stage)), other) == music_for(
            music,
            other,
        ),
    decreases music.len(),
{
    reveal(Seq::filter);
    if music.len() > 0 {
        lemma_music_for_kept(music.drop_last(), stage, other);
        let kept = music.drop_last().filter(other_stage(stage));
        lemma_music_for_push(kept, music.last(), stage);
        lemma_music_for_push(kept, music.last(), other);
    }
}

/// Choosing music for a stage is what the stage then reads, and no other
/// stage's music changes: after `choice` for `stage`, the stage's music is
/// `choice`, and a stage that differs from it in more than ASCII case keeps
/// the music it had.
pub proof fn chosen_stage_music_is_read_back(
    music: Seq<(Seq<char>, ProjectStageMusicProfile)>,
    stage: Seq<char>,
    choice: Option<ProjectStageMusicProfile>,
    other: Seq<char>,
)
    ensures
        music_for(music_with(music, stage, choice), stage) == choice,
        !eq_ignore_case(other, stage) ==> music_for(music_with(music, stage, choice), other) == music_for(
            music,
            other,
        ),
{
    lemma_music_for_kept(music, stage, other);
    let kept = music.filter(other_stage(stage));
    if let Some(p) = choice {
        lemma_music_for_push(kept, (stage, p), stage);
        lemma_music_for_push(kept, (stage, p), other);
        if eq_ignore_case(stage, other) {
            assert(eq_ignore_case(other, stage));
        }
    }
}

} // verus!
