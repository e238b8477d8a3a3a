//! Turning a manager's goop spawning on or off: which steps run, which
//! errors stop it, the steps the library performs on the document, and the
//! roll-back when a step fails.
use vstd::prelude::*;
use crate::actor_rebind::params_view;
use crate::editor::{
    copy_edits, document_edits, raw_param_of, stage_edits_view, SceneObject, SmsEditorApp, StageDocument,
    StageEdits,
};
use crate::enemy_table::{after_spawn, apply_spawn_to_tables, fresh_tables_document, spawn_applied};
use crate::goop_spawn::{goop_pool_suffix, manager_is};
use crate::jdrama::{record_view, PayloadView, Record, RecordView};
use crate::text::{str_append, str_equal};

verus! {

/// What `{:?}` prints for a string.
pub uninterp spec fn debug_quoted(s: Seq<char>) -> Seq<char>;

/// A character that `{:?}` prints as itself inside the quotes: printable
/// ASCII other than `"` and `\`.
pub open spec fn debug_plain(c: char) -> bool {
    ' ' <= c <= '~' && c != '"' && c != '\\'
}

/// `format!("{:?}", s)` for a string: the string in double quotes, with
/// each character escaped as `char::escape_debug` does. As std documents it,
/// a string of only printable ASCII other than `"` and `\` prints between
/// two quotes unchanged; escapes for other characters are not stated.
#[verifier::external_body]
fn debug_string(s: &str) -> (r: String)
    ensures
        r@ == debug_quoted(s@),
        (forall|i: int| 0 <= i < s@.len() ==> debug_plain(#[trigger] s@[i])) ==> r@ == seq!['"'] + s@
            + seq!['"'],
{
    format!("{:?}", s)
}

/// The hidden pool that spawns from goop for a manager whose placed actors
/// must keep their placements.
pub open spec fn spawn_pool_name(manager: Seq<char>) -> Seq<char> {
    manager + goop_pool_suffix()
}

/// One step of a goop spawn update, in the order it runs.
#[derive(Debug, Clone, Copy, PartialEq, Eq, Structural)]
pub enum SpawnStep {
    /// Restore any model resources the existing clone pool lacks.
    RepairClonePool,
    /// Import a renamed clone of the manager's retail bundle as an unplaced
    /// pool.
    CloneManagerPool,
    /// Set or clear the spawn flag of the manager's clone pool.
    FlagPool(bool),
    /// Set or clear the spawn flag of the manager itself.
    FlagManager(bool),
    /// Tell the author the flag moved from the manager to its clone pool.
    NoteFlagMoved,
    /// Remove the manager's pool-only carriers.
    RemovePoolCarriers,
    /// Import the catalog's pool-only bundle for the manager.
    ImportCatalogPool,
    /// Remove pool bundles nothing uses any more.
    CleanupUnusedPools,
}

/// What a goop spawn update is decided on: the manager, whether spawning
/// goes on, and what the stage and the retail catalog hold for it.
#[derive(Debug)]
pub struct GoopSpawnRequest {
    pub manager_name: String,
    pub enabled: bool,
    /// A hand-placed (not pool-only) actor uses the manager.
    pub placed_actors_use_manager: bool,
    /// The retail catalog's actor factory for the manager's pool bundle.
    pub catalog_actor_factory: Option<String>,
    /// The manager has a decomp-derived factory.
    pub has_manager_factory: bool,
    /// An object already names the manager's clone pool.
    pub clone_exists: bool,
    /// The enemy table flags the manager itself.
    pub manager_flagged: bool,
    /// A pool-only carrier of the catalog's actor already uses the manager.
    pub matching_pool_exists: bool,
    /// The manager stays in the stage when its pool-only carriers go.
    pub manager_survives_pool_removal: bool,
    /// The manager is in the stage.
    pub manager_present: bool,
}

pub open spec fn no_clone_bundle_error(manager: Seq<char>) -> Seq<char> {
    "manager "@ + debug_quoted(manager)
        + " has hand-placed actors but no retail-backed bundle to                          clone for goop spawning"@
}

pub open spec fn no_manager_factory_error(manager: Seq<char>) -> Seq<char> {
    "manager "@ + debug_quoted(manager) + " has no decomp-derived factory"@
}

pub open spec fn no_pool_bundle_error(manager: Seq<char>) -> Seq<char> {
    "manager "@ + debug_quoted(manager) + " has no safe retail-backed pool bundle"@
}

/// The variant whose pool must always be imported: its carrier is what
/// selects the red variant.
pub open spec fn variant_carrier(factory: Seq<char>) -> bool {
    factory == "PoiHanaRed"@
}

/// The steps of a goop spawn update, or the error that stops it before any
/// step runs.
///
/// Turning spawning on for a manager whose placed actors use it puts the
/// flag on an unplaced clone pool (repairing or importing it), and moves a
/// flag the manager already had onto the clone. Turning it on otherwise
/// flags the manager, after replacing pool carriers of another variant and
/// importing the catalog bundle where the manager would not survive without
/// it (or the variant needs its carrier). Turning it off clears both flags
/// and removes pools nothing uses.
pub open spec fn spawn_plan(r: GoopSpawnRequest) -> Result<Seq<SpawnStep>, Seq<char>> {
    let m = r.manager_name@;
    if r.enabled && r.placed_actors_use_manager {
        if r.catalog_actor_factory is None {
            Err(no_clone_bundle_error(m))
        } else if !r.has_manager_factory {
            Err(no_manager_factory_error(m))
        } else {
            let prepare = if r.clone_exists {
                SpawnStep::RepairClonePool
            } else {
                SpawnStep::CloneManagerPool
            };
            let steps = seq![prepare, SpawnStep::FlagPool(true)];
            if r.manager_flagged {
                Ok(steps + seq![SpawnStep::FlagManager(false), SpawnStep::NoteFlagMoved])
            } else {
                Ok(steps)
            }
        }
    } else if r.enabled {
        match r.catalog_actor_factory {
            Some(factory) => if !r.has_manager_factory {
                Err(no_manager_factory_error(m))
            } else if r.matching_pool_exists {
                Ok(seq![SpawnStep::FlagManager(true)])
            } else if !r.manager_survives_pool_removal || variant_carrier(factory@) {
                Ok(seq![SpawnStep::RemovePoolCarriers, SpawnStep::ImportCatalogPool, SpawnStep::FlagManager(true)])
            } else {
                Ok(seq![SpawnStep::RemovePoolCarriers, SpawnStep::FlagManager(true)])
            },
            None => if !r.manager_present {
                Err(no_pool_bundle_error(m))
            } else {
                Ok(seq![SpawnStep::FlagManager(true)])
            },
        }
    } else {
        Ok(seq![SpawnStep::FlagManager(false), SpawnStep::FlagPool(false), SpawnStep::CleanupUnusedPools])
    }
}

fn error_with_manager(prefix: &str, manager: &str, rest: &str) -> (e: String)
    ensures
        e@ == prefix@ + debug_quoted(manager@) + rest@,
{
    let mut e = String::new();
    str_append(&mut e, prefix);
    let quoted = debug_string(manager);
    str_append(&mut e, quoted.as_str());
    str_append(&mut e, rest);
    e
}

/// Decides a goop spawn update: its steps in order, or the error that stops
/// it before anything changes.
pub fn goop_spawn_plan(request: &GoopSpawnRequest) -> (plan: Result<Vec<SpawnStep>, String>)
    ensures
        match (plan, spawn_plan(*request)) {
            (Ok(steps), Ok(expected)) => steps@ == expected,
            (Err(e), Err(expected)) => e@ == expected,
            _ => false,
        },
{
    let m = request.manager_name.as_str();
    if request.enabled && request.placed_actors_use_manager {
        if request.catalog_actor_factory.is_none() {
            return Err(error_with_manager(
                "manager ",
                m,
                " has hand-placed actors but no retail-backed bundle to                          clone for goop spawning",
            ));
        }
        if !request.has_manager_factory {
            return Err(error_with_manager("manager ", m, " has no decomp-derived factory"));
        }
        let mut steps: Vec<SpawnStep> = Vec::new();
        if request.clone_exists {
            steps.push(SpawnStep::RepairClonePool);
        } else {
            steps.push(SpawnStep::CloneManagerPool);
        }
        steps.push(SpawnStep::FlagPool(true));
        if request.manager_flagged {
            steps.push(SpawnStep::FlagManager(false));
            steps.push(SpawnStep::NoteFlagMoved);
        }
        proof {
            let prepare = if request.clone_exists {
                SpawnStep::RepairClonePool
            } else {
                SpawnStep::CloneManagerPool
            };
            if request.manager_flagged {
                assert(steps@ =~= seq![prepare, SpawnStep::FlagPool(true)] + seq![
                    SpawnStep::FlagManager(false),
                    SpawnStep::NoteFlagMoved,
                ]);
            } else {
                assert(steps@ =~= seq![prepare, SpawnStep::FlagPool(true)]);
            }
        }
        return Ok(steps);
    }
    let mut steps: Vec<SpawnStep> = Vec::new();
    if request.enabled {
        match &request.catalog_actor_factory {
            Some(factory) => {
                if !request.has_manager_factory {
                    return Err(error_with_manager("manager ", m, " has no decomp-derived factory"));
                }
                if !request.matching_pool_exists {
                    steps.push(SpawnStep::RemovePoolCarriers);
                    if !request.manager_survives_pool_removal || str_equal(factory.as_str(), "PoiHanaRed") {
                        steps.push(SpawnStep::ImportCatalogPool);
                    }
                }
            },
            None => {
                if !request.manager_present {
                    return Err(error_with_manager("manager ", m, " has no safe retail-backed pool bundle"));
                }
            },
        }
        steps.push(SpawnStep::FlagManager(true));
        proof {
            if request.catalog_actor_factory is Some && !request.matching_pool_exists {
                if !request.manager_survives_pool_removal || variant_carrier(
                    request.catalog_actor_factory->0@,
                ) {
                    assert(steps@ =~= seq![
                        SpawnStep::RemovePoolCarriers,
                        SpawnStep::ImportCatalogPool,
                        SpawnStep::FlagManager(true),
                    ]);
                } else {
                    assert(steps@ =~= seq![SpawnStep::RemovePoolCarriers, SpawnStep::FlagManager(true)]);
                }
            } else {
                assert(steps@ =~= seq![SpawnStep::FlagManager(true)]);
            }
        }
        return Ok(steps);
    }
    steps.push(SpawnStep::FlagManager(false));
    steps.push(SpawnStep::FlagPool(false));
    steps.push(SpawnStep::CleanupUnusedPools);
    assert(steps@ =~= seq![SpawnStep::FlagManager(false), SpawnStep::FlagPool(false), SpawnStep::CleanupUnusedPools]);
    Ok(steps)
}

/// The name of a manager's clone pool.
pub fn spawn_pool(manager: &str) -> (pool: String)
    ensures
        pool@ == spawn_pool_name(manager@),
{
    let mut pool = String::new();
    str_append(&mut pool, manager);
    str_append(&mut pool, "_gp");
    proof {
        reveal_strlit("_gp");
    }
    pool
}

/// The note a moved flag leaves in the log.
pub open spec fn flag_moved_note(manager: Seq<char>) -> Seq<char> {
    "Moved the goop flag off "@ + debug_quoted(manager)
        + " so its placed actors keep their                          placements; spawning now comes from "@
        + debug_quoted(spawn_pool_name(manager)) + "."@
}

/// The note a moved flag leaves in the log.
pub fn flag_moved_message(manager: &str) -> (note: String)
    ensures
        note@ == flag_moved_note(manager@),
{
    let pool = spawn_pool(manager);
    let mut note = error_with_manager(
        "Moved the goop flag off ",
        manager,
        " so its placed actors keep their                          placements; spawning now comes from ",
    );
    let quoted = debug_string(pool.as_str());
    str_append(&mut note, quoted.as_str());
    str_append(&mut note, ".");
    note
}

/// The error when a manager to flag is not a known enemy manager.
pub open spec fn unknown_manager_error(manager: Seq<char>) -> Seq<char> {
    debug_quoted(manager) + " is not a decomp-identified TEnemyManager in the effective scene"@
}

/// The tables a stage's spawn flags are written into: its own, or a fresh
/// root group when it has none.
pub open spec fn tables_or_fresh(tables: Option<Record>) -> RecordView {
    match tables {
        Some(t) => record_view(t),
        None => RecordView {
            record_type: "NameRefGrp"@,
            name: crate::enemy_table::tables_root_name(),
            payload: PayloadView::Group(Seq::empty(), Seq::empty()),
        },
    }
}

impl SmsEditorApp {
    /// Sets or clears one manager's goop spawn flag in the stage's enemy
    /// table. Setting needs the enemy schema's word that the manager is a
    /// decomp-identified enemy manager in the stage (`identified`: `None`
    /// without a schema); clearing does not.
    pub fn apply_manager_spawn(&mut self, manager: &str, enabled: bool, identified: Option<bool>) -> (r: Result<(), String>)
        ensures
            r is Err <==> (old(self).document is None || enabled && identified != Some(true)
                || untyped_tables(old(self).document)),
            r is Err ==> final(self).document == old(self).document,
            r matches Err(e) ==> e@ == manager_spawn_error(old(self).document, manager@, enabled, identified),
            r is Ok ==> spawn_applied_to(old(self).document, final(self).document, manager@, enabled),
            final(self).log == old(self).log,
            final(self).goop_history == old(self).goop_history,
            final(self).document_dirty == old(self).document_dirty,
    {
        if enabled && identified.is_none() {
            return Err("enemy schema is unavailable".to_owned());
        }
        if self.document.is_none() {
            return Err("no stage is open".to_owned());
        }
        if enabled && identified != Some(true) {
            let mut e = debug_string(manager);
            str_append(&mut e, " is not a decomp-identified TEnemyManager in the effective scene");
            return Err(e);
        }
        let untyped = match &self.document {
            Some(d) => d.tables.is_none() && d.tables_untyped,
            None => false,
        };
        if untyped {
            return Err("map/tables.bin is not typed placement data".to_owned());
        }
        let mut document = self.document.take().unwrap();
        let had = document.tables.is_some();
        let mut tables = match document.tables.take() {
            Some(t) => t,
            None => fresh_tables_document(),
        };
        let changed = apply_spawn_to_tables(&mut tables, manager, enabled);
        if changed || had {
            document.tables = Some(tables);
        }
        self.document = Some(document);
        Ok(())
    }
}

/// The stage's `map/tables.bin` is there but not placement data.
pub open spec fn untyped_tables(document: Option<StageDocument>) -> bool {
    document matches Some(d) && d.tables is None && d.tables_untyped
}

/// Why a flag cannot be written.
pub open spec fn manager_spawn_error(
    document: Option<StageDocument>,
    manager: Seq<char>,
    enabled: bool,
    identified: Option<bool>,
) -> Seq<char> {
    if enabled && identified is None {
        "enemy schema is unavailable"@
    } else if document is None {
        "no stage is open"@
    } else if enabled && identified != Some(true) {
        unknown_manager_error(manager)
    } else {
        "map/tables.bin is not typed placement data"@
    }
}

/// The stage after a flag is written: the tables (its own, or a fresh root
/// group) take the flag, a stage without tables gains them only when the
/// flag changed something, and the rest stays.
pub open spec fn spawn_applied_to(
    before: Option<StageDocument>,
    after: Option<StageDocument>,
    manager: Seq<char>,
    enabled: bool,
) -> bool {
    match (before, after) {
        (Some(d0), Some(d)) => {
            &&& d.objects == d0.objects
            &&& d.goop_authoring == d0.goop_authoring
            &&& d.resource_edits == d0.resource_edits
            &&& d.tables_untyped == d0.tables_untyped
            &&& if d0.tables is None && spawn_applied(tables_or_fresh(d0.tables), manager, enabled) is None {
                d.tables is None
            } else {
                d.tables matches Some(t) && record_view(t) == after_spawn(tables_or_fresh(d0.tables), manager, enabled)
            }
        },
        _ => false,
    }
}

/// Whether an object stays when the manager's pool-only carriers go.
pub open spec fn not_carrier_of(manager: Seq<char>) -> spec_fn(SceneObject) -> bool {
    |o: SceneObject| !(o.pool_only && manager_is(o, manager))
}

/// An object as characters.
pub open spec fn object_view(o: SceneObject) -> (Seq<char>, Option<Seq<char>>, Seq<(Seq<char>, Seq<char>)>, bool) {
    (
        o.factory_name@,
        match o.class_name {
            Some(c) => Some(c@),
            None => None,
        },
        params_view(o.raw_params@),
        o.pool_only,
    )
}

pub open spec fn objects_view(os: Seq<SceneObject>) -> Seq<(Seq<char>, Option<Seq<char>>, Seq<(Seq<char>, Seq<char>)>, bool)> {
    os.map_values(|o: SceneObject| object_view(o))
}

fn duplicate_object(o: &SceneObject) -> (r: SceneObject)
    ensures
        object_view(r) == object_view(*o),
{
    let mut params: Vec<(String, String)> = Vec::new();
    let mut i: usize = 0;
    while i < o.raw_params.len()
        invariant
            i <= o.raw_params@.len(),
            params_view(params@) == params_view(o.raw_params@.take(i as int)),
        decreases o.raw_params@.len() - i,
    {
        let ghost before = params@;
        params.push((o.raw_params[i].0.clone(), o.raw_params[i].1.clone()));
        proof {
            assert(params_view(params@) =~= params_view(before).push(
                (o.raw_params@[i as int].0@, o.raw_params@[i as int].1@),
            ));
            assert(o.raw_params@.take(i + 1) =~= o.raw_params@.take(i as int).push(o.raw_params@[i as int]));
            assert(params_view(o.raw_params@.take(i + 1)) =~= params_view(o.raw_params@.take(i as int)).push(
                (o.raw_params@[i as int].0@, o.raw_params@[i as int].1@),
            ));
        }
        i += 1;
    }
    assert(o.raw_params@.take(o.raw_params@.len() as int) =~= o.raw_params@);
    let class_name = match &o.class_name {
        Some(c) => Some(c.clone()),
        None => None,
    };
    SceneObject { factory_name: o.factory_name.clone(), class_name, raw_params: params, pool_only: o.pool_only }
}

fn duplicate_objects(os: &Vec<SceneObject>) -> (r: Vec<SceneObject>)
    ensures
        objects_view(r@) == objects_view(os@),
{
    let mut r: Vec<SceneObject> = Vec::new();
    let mut i: usize = 0;
    while i < os.len()
        invariant
            i <= os@.len(),
            r@.len() == i,
            forall|k: int| 0 <= k < i ==> #[trigger] object_view(r@[k]) == object_view(os@[k]),
        decreases os@.len() - i,
    {
        r.push(duplicate_object(&os[i]));
        i += 1;
    }
    assert(objects_view(r@) =~= objects_view(os@));
    r
}

/// The stage's objects and archive edits as a goop spawn update found them.
#[derive(Debug)]
pub struct GoopSpawnSnapshot {
    pub objects: Vec<SceneObject>,
    pub edits: StageEdits,
}

/// The log line a finished goop spawn update ends with.
pub open spec fn spawn_update_line(manager: Seq<char>, enabled: bool) -> Seq<char> {
    if enabled {
        manager + " now spawns its enemies from painted goop."@
    } else {
        manager + " no longer spawns from goop."@
    }
}

impl SmsEditorApp {
    /// Removes the manager's pool-only carriers from the stage, keeping every
    /// other object in order.
    #[verifier::spinoff_prover]
    #[verifier::rlimit(30)]
    pub fn remove_pool_carriers(&mut self, manager: &str)
        ensures
            match (old(self).document, final(self).document) {
                (Some(d0), Some(d)) => {
                    &&& d.objects@ == d0.objects@.filter(not_carrier_of(manager@))
                    &&& d.goop_authoring == d0.goop_authoring
                    &&& d.tables == d0.tables
                    &&& d.resource_edits == d0.resource_edits
                },
                (None, None) => true,
                _ => false,
            },
            final(self).log == old(self).log,
            final(self).goop_history == old(self).goop_history,
            final(self).document_dirty == old(self).document_dirty,
    {
        let mut document = match self.document.take() {
            Some(d) => d,
            None => return,
        };
        let ghost all = document.objects@;
        let ghost d0 = document;
        let ghost keep = not_carrier_of(manager@);
        let mut i: usize = 0;
        let ghost mut j: int = 0;
        while i < document.objects.len()
            invariant
                0 <= j <= all.len(),
                keep == not_carrier_of(manager@),
                document.goop_authoring == d0.goop_authoring,
                document.tables == d0.tables,
                document.resource_edits == d0.resource_edits,
                i == all.take(j).filter(keep).len(),
                document.objects@ == all.take(j).filter(keep) + all.skip(j),
            decreases document.objects@.len() - i,
        {
            proof {
                reveal(Seq::filter);
                assert(all.take(j + 1).drop_last() =~= all.take(j));
                assert(document.objects@[i as int] == all[j]);
            }
            let carrier = document.objects[i].pool_only && match raw_param_of(&document.objects[i], "manager_name") {
                Some(n) => str_equal(n.as_str(), manager),
                None => false,
            };
            if carrier {
                let ghost before = document.objects@;
                document.objects.remove(i);
                proof {
                    assert(document.objects@ =~= all.take(j + 1).filter(keep) + all.skip(j + 1));
                }
            } else {
                proof {
                    assert(document.objects@ =~= all.take(j + 1).filter(keep) + all.skip(j + 1));
                }
                i += 1;
            }
            proof {
                j = j + 1;
            }
        }
        proof {
            assert(all.skip(j) =~= Seq::<SceneObject>::empty());
            assert(j == all.len());
            assert(all.take(j) =~= all);
            assert(document.objects@ =~= all.filter(keep));
        }
        self.document = Some(document);
    }

    /// What a goop spawn update rolls back to on failure: the stage's objects
    /// and archive edits as they are now. `None` without a stage.
    pub fn begin_goop_spawn_update(&self) -> (snapshot: Option<GoopSpawnSnapshot>)
        ensures
            match (self.document, snapshot) {
                (Some(d), Some(s)) => objects_view(s.objects@) == objects_view(d.objects@)
                    && stage_edits_view(s.edits) == document_edits(d),
                (None, None) => true,
                _ => false,
            },
    {
        match &self.document {
            Some(d) => Some(GoopSpawnSnapshot { objects: duplicate_objects(&d.objects), edits: copy_edits(d) }),
            None => None,
        }
    }

    /// Ends a goop spawn update. On an error the stage's objects and archive
    /// edits go back to the snapshot and the log says why; otherwise the
    /// update's notes are logged, then the line that names the change. The
    /// application then records the undo step, flushes the document and
    /// rebuilds the model preview when a pool was added.
    pub fn finish_goop_spawn_update(
        &mut self,
        manager: &str,
        enabled: bool,
        snapshot: GoopSpawnSnapshot,
        outcome: Result<Vec<String>, String>,
    )
        ensures
            final(self).document is Some <==> old(self).document is Some,
            final(self).goop_history == old(self).goop_history,
            final(self).document_dirty == old(self).document_dirty,
            match outcome {
                Err(e) => {
                    &&& old(self).document matches Some(d0) ==> final(self).document matches Some(d)
                        && objects_view(d.objects@) == objects_view(snapshot.objects@) && document_edits(d)
                        == stage_edits_view(snapshot.edits) && d.goop_authoring == d0.goop_authoring
                    &&& final(self).log@.len() == old(self).log@.len() + 1
                    &&& final(self).log@.take(old(self).log@.len() as int) == old(self).log@
                    &&& final(self).log@.last()@ == "Could not update goop spawning: "@ + e@
                },
                Ok(notes) => {
                    &&& final(self).document == old(self).document
                    &&& final(self).log@.len() == old(self).log@.len() + notes@.len() + 1
                    &&& final(self).log@.take((old(self).log@.len() + notes@.len()) as int) == old(self).log@ + notes@
                    &&& final(self).log@.last()@ == spawn_update_line(manager@, enabled)
                },
            },
    {
        match outcome {
            Err(e) => {
                match self.document.take() {
                    Some(mut d) => {
                        d.objects = snapshot.objects;
                        d.resource_edits = snapshot.edits.resource_edits;
                        d.tables = snapshot.edits.tables;
                        self.document = Some(d);
                    },
                    None => {},
                }
                let mut line = String::new();
                str_append(&mut line, "Could not update goop spawning: ");
                str_append(&mut line, e.as_str());
                let ghost before = self.log@;
                self.log.push(line);
                proof {
                    assert(self.log@.take(before.len() as int) =~= before);
                }
            },
            Ok(notes) => {
                let ghost before = self.log@;
                let ghost document = self.document;
                let ghost history = self.goop_history;
                let ghost dirty = self.document_dirty;
                let mut i: usize = 0;
                while i < notes.len()
                    invariant
                        i <= notes@.len(),
                        self.document == document,
                        self.goop_history == history,
                        self.document_dirty == dirty,
                        self.log@ == before + notes@.take(i as int),
                    decreases notes@.len() - i,
                {
                    self.log.push(notes[i].clone());
                    proof {
                        assert(notes@.take(i + 1) =~= notes@.take(i as int).push(notes@[i as int]));
                    }
                    i += 1;
                }
                let mut line = String::new();
                str_append(&mut line, manager);
                if enabled {
                    str_append(&mut line, " now spawns its enemies from painted goop.");
                } else {
                    str_append(&mut line, " no longer spawns from goop.");
                }
                self.log.push(line);
                proof {
                    assert(notes@.take(notes@.len() as int) =~= notes@);
                    assert(self.log@.take((before.len() + notes@.len()) as int) =~= before + notes@);
                }
            },
        }
    }
}

/// Placed actors keep their placements: turning spawning on for a manager
/// whose placed actors use it never flags the manager itself, and flags its
/// clone pool; turning spawning off clears both flags.
pub proof fn placed_actors_keep_their_manager_unflagged(r: GoopSpawnRequest)
    ensures
        r.enabled && r.placed_actors_use_manager ==> (spawn_plan(r) matches Ok(steps) ==> !steps.contains(
            SpawnStep::FlagManager(true),
        ) && steps.contains(SpawnStep::FlagPool(true))),
        !r.enabled ==> (spawn_plan(r) matches Ok(steps) && steps.contains(SpawnStep::FlagManager(false))
            && steps.contains(SpawnStep::FlagPool(false))),
{
    if r.enabled && r.placed_actors_use_manager {
        if let Ok(steps) = spawn_plan(r) {
            assert(steps[1] == SpawnStep::FlagPool(true));
            if steps.contains(SpawnStep::FlagManager(true)) {
                let k = choose|k: int| 0 <= k < steps.len() && steps[k] == SpawnStep::FlagManager(true);
                assert(steps[k] != SpawnStep::FlagManager(true));
            }
        }
    }
    if !r.enabled {
        let steps = spawn_plan(r)->Ok_0;
        assert(steps[0] == SpawnStep::FlagManager(false));
        assert(steps[1] == SpawnStep::FlagPool(false));
    }
}

/// The steps the library performs itself; the others import or repair pool
/// bundles from the retail archives, which the application does.
pub open spec fn library_step(step: SpawnStep) -> bool {
    step is FlagPool || step is FlagManager || step is NoteFlagMoved || step is RemovePoolCarriers
}

impl SmsEditorApp {
    /// Performs one of the library's own steps of a goop spawn update for
    /// `manager`: writing the manager's or its clone pool's flag (with the
    /// enemy schema's word on that manager), removing the manager's pool
    /// carriers, or giving the note that the flag moved. Gives the note to
    /// log, if any.
    pub fn run_spawn_step(&mut self, manager: &str, step: SpawnStep, identified: Option<bool>) -> (r: Result<
        Option<String>,
        String,
    >)
        requires
            library_step(step),
        ensures
            match step {
                SpawnStep::FlagManager(enabled) => {
                    &&& r is Err <==> (old(self).document is None || enabled && identified != Some(true)
                        || untyped_tables(old(self).document))
                    &&& r matches Err(e) ==> e@ == manager_spawn_error(old(self).document, manager@, enabled, identified)
                        && final(self).document == old(self).document
                    &&& r is Ok ==> r == Ok::<Option<String>, String>(None) && spawn_applied_to(
                        old(self).document,
                        final(self).document,
                        manager@,
                        enabled,
                    )
                },
                SpawnStep::FlagPool(enabled) => {
                    &&& r is Err <==> (old(self).document is None || enabled && identified != Some(true)
                        || untyped_tables(old(self).document))
                    &&& r matches Err(e) ==> e@ == manager_spawn_error(
                        old(self).document,
                        spawn_pool_name(manager@),
                        enabled,
                        identified,
                    ) && final(self).document == old(self).document
                    &&& r is Ok ==> r == Ok::<Option<String>, String>(None) && spawn_applied_to(
                        old(self).document,
                        final(self).document,
                        spawn_pool_name(manager@),
                        enabled,
                    )
                },
                SpawnStep::NoteFlagMoved => r matches Ok(Some(note)) && note@ == flag_moved_note(manager@)
                    && final(self).document == old(self).document,
                _ => r == Ok::<Option<String>, String>(None) && match (old(self).document, final(self).document) {
                    (Some(d0), Some(d)) => d.objects@ == d0.objects@.filter(not_carrier_of(manager@))
                        && d.tables == d0.tables && d.resource_edits == d0.resource_edits
                        && d.goop_authoring == d0.goop_authoring,
                    (None, None) => true,
                    _ => false,
                },
            },
            final(self).log == old(self).log,
            final(self).goop_history == old(self).goop_history,
            final(self).document_dirty == old(self).document_dirty,
    {
        match step {
            SpawnStep::FlagManager(enabled) => match self.apply_manager_spawn(manager, enabled, identified) {
                Ok(()) => Ok(None),
                Err(e) => Err(e),
            },
            SpawnStep::FlagPool(enabled) => {
                let pool = spawn_pool(manager);
                match self.apply_manager_spawn(pool.as_str(), enabled, identified) {
                    Ok(()) => Ok(None),
                    Err(e) => Err(e),
                }
            },
            SpawnStep::NoteFlagMoved => Ok(Some(flag_moved_message(manager))),
            _ => {
                self.remove_pool_carriers(manager);
                Ok(None)
            },
        }
    }
}

} // verus!
