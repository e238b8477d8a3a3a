//! The editor state that the verified editing operations act on: the open
//! stage's goop layers and placed objects, the goop undo history, the stroke
//! in progress, and the log the editor shows.
use crate::goop::{
    apply_pixel_spans, apply_spans, history_push, history_redo, history_undo, GoopHistory,
    GoopStroke, GoopUndoRecord, coalesced_from,
};
use crate::text::{lemma_name_before_irreflexive, name_before, string_of};
use crate::jdrama::{duplicate_record, record_view, Record, RecordView};
use vstd::prelude::*;

verus! {

broadcast use vstd::std_specs::btree::group_btree_axioms;

/// One goop layer as the editor holds it.
#[derive(Debug)]
pub struct GoopLayer {
    pub visible: bool,
    /// Whether the brush may paint the layer: a floor layer with its own
    /// pollution mask. Retail wall and wave layers are read-only.
    pub editable: bool,
    /// The display name of the retail style the layer uses, if any.
    pub style_name: Option<String>,
    /// One byte of goop per cell.
    pub mask: Vec<u8>,
}

pub struct GoopLayerView {
    pub visible: bool,
    pub editable: bool,
    pub style_name: Option<Seq<char>>,
    pub mask: Seq<u8>,
}

impl View for GoopLayer {
    type V = GoopLayerView;

    open spec fn view(&self) -> GoopLayerView {
        GoopLayerView {
            visible: self.visible,
            editable: self.editable,
            style_name: match self.style_name {
                Some(s) => Some(s@),
                None => None,
            },
            mask: self.mask@,
        }
    }
}

/// The stage's goop authoring: its layers in order.
#[derive(Debug)]
pub struct GoopAuthoring {
    pub layers: Vec<GoopLayer>,
}

impl View for GoopAuthoring {
    type V = Seq<GoopLayerView>;

    open spec fn view(&self) -> Seq<GoopLayerView> {
        self.layers@.map_values(|l: GoopLayer| l@)
    }
}

impl GoopLayer {
    pub fn duplicate(&self) -> (r: Self)
        ensures
            r@ == self@,
    {
        let style_name = match &self.style_name {
            Some(s) => Some(s.clone()),
            None => None,
        };
        GoopLayer { visible: self.visible, editable: self.editable, style_name, mask: self.mask.clone() }
    }
}

impl GoopAuthoring {
    pub fn duplicate(&self) -> (r: Self)
        ensures
            r@ == self@,
    {
        let mut layers: Vec<GoopLayer> = Vec::new();
        let mut i: usize = 0;
        while i < self.layers.len()
            invariant
                i <= self.layers.len(),
                layers@.len() == i,
                forall|k: int| 0 <= k < i ==> #[trigger] layers@[k]@ == self.layers@[k]@,
            decreases self.layers.len() - i,
        {
            layers.push(self.layers[i].duplicate());
            i += 1;
        }
        let r = GoopAuthoring { layers };
        proof {
            assert(r@ =~= self@);
        }
        r
    }
}

/// Copies optional goop authoring.
pub fn duplicate_authoring(a: &Option<GoopAuthoring>) -> (r: Option<GoopAuthoring>)
    ensures
        authoring_view(r) == authoring_view(*a),
{
    match a {
        Some(a) => Some(a.duplicate()),
        None => None,
    }
}

pub open spec fn authoring_view(a: Option<GoopAuthoring>) -> Option<Seq<GoopLayerView>> {
    match a {
        Some(a) => Some(a@),
        None => None,
    }
}

/// The goop authoring and the stage's archive edits before and after a
/// whole-document goop edit.
#[derive(Debug)]
pub struct GoopSnapshotUndo {
    pub before: Option<GoopAuthoring>,
    pub after: Option<GoopAuthoring>,
    pub before_edits: StageEdits,
    pub after_edits: StageEdits,
}

/// The stage's archive edits: the resources it replaces or adds, and the
/// effective `map/tables.bin` they give.
#[derive(Debug)]
pub struct StageEdits {
    pub resource_edits: Vec<ResourceEdit>,
    pub tables: Option<Record>,
}

/// Archive edits as a value.
pub struct EditsView {
    pub resources: Seq<(Seq<u8>, Option<ModelStainState>)>,
    pub tables: Option<RecordView>,
}

pub open spec fn resource_view(e: ResourceEdit) -> (Seq<u8>, Option<ModelStainState>) {
    (e.raw_resource_path@, e.model)
}

pub open spec fn edits_view(resources: Seq<ResourceEdit>, tables: Option<Record>) -> EditsView {
    EditsView {
        resources: resources.map_values(|e: ResourceEdit| resource_view(e)),
        tables: match tables {
            Some(t) => Some(record_view(t)),
            None => None,
        },
    }
}

pub open spec fn stage_edits_view(e: StageEdits) -> EditsView {
    edits_view(e.resource_edits@, e.tables)
}

/// The archive edits a stage document carries.
pub open spec fn document_edits(d: StageDocument) -> EditsView {
    edits_view(d.resource_edits@, d.tables)
}

fn duplicate_resources(edits: &Vec<ResourceEdit>) -> (r: Vec<ResourceEdit>)
    ensures
        r@.map_values(|e: ResourceEdit| resource_view(e)) == edits@.map_values(|e: ResourceEdit| resource_view(e)),
{
    let mut r: Vec<ResourceEdit> = Vec::new();
    let mut i: usize = 0;
    while i < edits.len()
        invariant
            i <= edits.len(),
            r@.len() == i,
            forall|k: int| 0 <= k < i ==> #[trigger] resource_view(r@[k]) == resource_view(edits@[k]),
        decreases edits.len() - i,
    {
        let path = edits[i].raw_resource_path.clone();
        assert(path@ =~= edits@[i as int].raw_resource_path@);
        r.push(ResourceEdit { raw_resource_path: path, model: edits[i].model });
        i += 1;
    }
    assert(r@.map_values(|e: ResourceEdit| resource_view(e)) =~= edits@.map_values(|e: ResourceEdit| resource_view(e)));
    r
}

/// A copy of one resource edit.
pub fn duplicate_resource_edit(e: &ResourceEdit) -> (r: ResourceEdit)
    ensures
        resource_view(r) == resource_view(*e),
{
    let path = e.raw_resource_path.clone();
    assert(path@ =~= e.raw_resource_path@);
    ResourceEdit { raw_resource_path: path, model: e.model }
}

fn duplicate_tables(tables: &Option<Record>) -> (r: Option<Record>)
    ensures
        edits_view(Seq::empty(), r).tables == edits_view(Seq::empty(), *tables).tables,
{
    match tables {
        Some(t) => Some(duplicate_record(t)),
        None => None,
    }
}

/// A copy of a document's archive edits.
pub fn copy_edits(d: &StageDocument) -> (e: StageEdits)
    ensures
        stage_edits_view(e) == document_edits(*d),
{
    StageEdits { resource_edits: duplicate_resources(&d.resource_edits), tables: duplicate_tables(&d.tables) }
}

/// A copy of a snapshot's archive edits.
pub fn copy_stage_edits(e: &StageEdits) -> (r: StageEdits)
    ensures
        stage_edits_view(r) == stage_edits_view(*e),
{
    StageEdits { resource_edits: duplicate_resources(&e.resource_edits), tables: duplicate_tables(&e.tables) }
}

/// A placed scene object as the editing rules read it.
#[derive(Debug, Clone)]
pub struct SceneObject {
    pub factory_name: String,
    pub class_name: Option<String>,
    /// The object's raw parameters, name and value, in name order.
    pub raw_params: Vec<(String, String)>,
    /// Whether the object is a pool-only carrier rather than a placed actor.
    pub pool_only: bool,
}

/// The position of the first raw parameter named `key`.
pub open spec fn param_position(params: Seq<(String, String)>, key: Seq<char>) -> Option<int> {
    if exists|i: int| 0 <= i < params.len() && params[i].0@ == key {
        Some(
            choose|i: int|
                0 <= i < params.len() && params[i].0@ == key && forall|j: int|
                    0 <= j < i ==> params[j].0@ != key,
        )
    } else {
        None
    }
}

/// An object's raw parameters form a map: their names strictly ascend in
/// `String`'s order, so each name occurs once.
pub open spec fn params_wf(o: SceneObject) -> bool {
    forall|i: int, j: int|
        0 <= i < j < o.raw_params@.len() ==> name_before(
            #[trigger] o.raw_params@[i].0@,
            #[trigger] o.raw_params@[j].0@,
        )
}

/// In a well-formed object every parameter is what its name looks up: the
/// first entry with a name is its only one.
pub proof fn params_wf_lookup(o: SceneObject, i: int)
    requires
        params_wf(o),
        0 <= i < o.raw_params@.len(),
    ensures
        param_position(o.raw_params@, o.raw_params@[i].0@) == Some(i),
        raw_param(o, o.raw_params@[i].0@) == Some(o.raw_params@[i].1@),
{
    let ps = o.raw_params@;
    let key = ps[i].0@;
    let k = choose|k: int| 0 <= k < ps.len() && ps[k].0@ == key && forall|j: int| 0 <= j < k ==> ps[j].0@ != key;
    assert forall|j: int| 0 <= j < ps.len() && j != i implies ps[j].0@ != key by {
        lemma_name_before_irreflexive(key);
        if j < i {
            assert(name_before(ps[j].0@, ps[i].0@));
        } else {
            assert(name_before(ps[i].0@, ps[j].0@));
        }
    }
    assert(k == i);
}

/// The value of an object's raw parameter `key`.
pub open spec fn raw_param(o: SceneObject, key: Seq<char>) -> Option<Seq<char>> {
    match param_position(o.raw_params@, key) {
        Some(i) => Some(o.raw_params@[i].1@),
        None => None,
    }
}

/// The value of an object's raw parameter `key`.
pub fn raw_param_of<'a>(o: &'a SceneObject, key: &str) -> (r: Option<&'a String>)
    ensures
        match r {
            Some(v) => raw_param(*o, key@) == Some(v@),
            None => raw_param(*o, key@) is None,
        },
{
    let mut i: usize = 0;
    while i < o.raw_params.len()
        invariant
            i <= o.raw_params.len(),
            forall|j: int| 0 <= j < i ==> o.raw_params@[j].0@ != key@,
        decreases o.raw_params.len() - i,
    {
        if crate::text::str_equal(o.raw_params[i].0.as_str(), key) {
            proof {
                let k = choose|k: int|
                    0 <= k < o.raw_params@.len() && o.raw_params@[k].0@ == key@ && forall|j: int|
                        0 <= j < k ==> o.raw_params@[j].0@ != key@;
                if k < i {
                    assert(o.raw_params@[k].0@ != key@);
                }
                if i < k {
                    assert(o.raw_params@[i as int].0@ != key@);
                }
            }
            return Some(&o.raw_params[i].1);
        }
        i += 1;
    }
    None
}

/// What the stain tools read of a model the stage's archive edits carry.
#[derive(Debug, Clone, Copy, PartialEq, Eq)]
pub struct ModelStainState {
    /// The model has a texture named `H_ma_rak_dummy`, the stain slot.
    pub has_stain_dummy_texture: bool,
    /// The material `_mat_body_top1` can have its konst alpha pinned at half.
    pub can_pin_stain_blend: bool,
    /// The material `_mat_body_top1` has its konst alpha pinned at half.
    pub stain_blend_pinned: bool,
}

/// One resource the stage's archive edits replace or add.
#[derive(Debug, Clone)]
pub struct ResourceEdit {
    pub raw_resource_path: Vec<u8>,
    /// The stain state when the resource is a model; `None` otherwise.
    pub model: Option<ModelStainState>,
}

/// The open stage as the goop tools read it.
#[derive(Debug)]
pub struct StageDocument {
    pub goop_authoring: Option<GoopAuthoring>,
    pub objects: Vec<SceneObject>,
    /// The root of the stage's effective `map/tables.bin`, when it is a
    /// placement document.
    pub tables: Option<Record>,
    /// The stage's `map/tables.bin` is there but is not typed placement data
    /// (then `tables` is `None`).
    pub tables_untyped: bool,
    pub resource_edits: Vec<ResourceEdit>,
}

/// The editor state that the verified editing operations act on.
pub struct SmsEditorApp {
    pub document: Option<StageDocument>,
    pub goop_history: GoopHistory<GoopUndoRecord<GoopSnapshotUndo>>,
    pub goop_stroke: Option<GoopStroke>,
    pub selected_goop_layer: usize,
    pub document_dirty: bool,
    pub log: Vec<String>,
    /// Whether the Mask Tool reads mask values inverted.
    pub mask_wash_invert: bool,
    /// The actor the Mask Tool has loaded, as its wash reads it.
    pub mask_preview: Option<crate::mask::MaskPreview>,
    /// Where the Mask Tool's mask comes from.
    pub mask_mask_source: crate::mask::MaskTextureSource,
    /// Whether generated mask content has been made.
    pub mask_generated: bool,
    /// The side of the generated square mask, and its values row by row.
    pub mask_mask_size: usize,
    pub mask_mask: Vec<u8>,
    /// The stage model the Material Library works on, as its rows read it.
    pub model_preview: Option<crate::material::MaterialPreview>,
    /// What the Material Library's two resources were before its first
    /// install this session.
    pub material_library_baseline: Option<crate::material::MaterialLibraryBaseline>,
    /// The effects applied since the baseline, in order.
    pub material_library_assignments: Vec<crate::material::MaterialEffectAssignment>,
}

/// The goop layers of the open stage: `None` without a document, `Some(None)`
/// when the stage has no goop authoring.
pub open spec fn goop_state(document: Option<StageDocument>) -> Option<Option<Seq<GoopLayerView>>> {
    match document {
        Some(d) => Some(authoring_view(d.goop_authoring)),
        None => None,
    }
}

/// The goop layers after replaying (`forward`) or reverting a goop edit.
pub open spec fn goop_after_record(
    state: Option<Option<Seq<GoopLayerView>>>,
    record: GoopUndoRecord<GoopSnapshotUndo>,
    forward: bool,
) -> Option<Option<Seq<GoopLayerView>>> {
    match state {
        None => None,
        Some(layers) => match record {
            GoopUndoRecord::Pixels { layer, spans } => match layers {
                Some(ls) => if layer < ls.len() {
                    Some(
                        Some(
                            ls.update(
                                layer as int,
                                GoopLayerView {
                                    mask: apply_spans(ls[layer as int].mask, spans@, forward),
                                    ..ls[layer as int]
                                },
                            ),
                        ),
                    )
                } else {
                    state
                },
                None => state,
            },
            GoopUndoRecord::Snapshot(s) => Some(
                if forward {
                    authoring_view(s.after)
                } else {
                    authoring_view(s.before)
                },
            ),
        },
    }
}

/// The log line a finished document change adds: its label and a full stop.
pub open spec fn change_line(label: Seq<char>) -> Seq<char> {
    label.push('.')
}

/// The Mask Tool's and the Material Library's state is the same in both.
pub open spec fn same_tools(a: SmsEditorApp, b: SmsEditorApp) -> bool {
    &&& a.mask_wash_invert == b.mask_wash_invert
    &&& a.mask_preview == b.mask_preview
    &&& a.mask_mask_source == b.mask_mask_source
    &&& a.mask_generated == b.mask_generated
    &&& a.mask_mask_size == b.mask_mask_size
    &&& a.mask_mask == b.mask_mask
    &&& a.model_preview == b.model_preview
    &&& a.material_library_baseline == b.material_library_baseline
    &&& a.material_library_assignments == b.material_library_assignments
}

/// The archive edits after replaying (`forward`) or reverting a goop edit: a
/// snapshot puts back its own, a pixel record leaves them.
pub open spec fn edits_after_record(
    current: EditsView,
    record: GoopUndoRecord<GoopSnapshotUndo>,
    forward: bool,
) -> EditsView {
    match record {
        GoopUndoRecord::Pixels { .. } => current,
        GoopUndoRecord::Snapshot(s) => if forward {
            stage_edits_view(s.after_edits)
        } else {
            stage_edits_view(s.before_edits)
        },
    }
}

/// Two editor states that differ at most in their log.
pub open spec fn same_but_log(a: SmsEditorApp, b: SmsEditorApp) -> bool {
    &&& a.document == b.document
    &&& a.goop_history == b.goop_history
    &&& a.goop_stroke == b.goop_stroke
    &&& a.selected_goop_layer == b.selected_goop_layer
    &&& a.document_dirty == b.document_dirty
    &&& a.mask_wash_invert == b.mask_wash_invert
    &&& a.mask_preview == b.mask_preview
    &&& a.mask_mask_source == b.mask_mask_source
    &&& a.mask_generated == b.mask_generated
    &&& a.mask_mask_size == b.mask_mask_size
    &&& a.mask_mask == b.mask_mask
    &&& a.model_preview == b.model_preview
    &&& a.material_library_baseline == b.material_library_baseline
    &&& a.material_library_assignments == b.material_library_assignments
}

impl SmsEditorApp {
    pub open spec fn wf(&self) -> bool {
        self.goop_history.wf()
    }

    /// Records a goop edit for undo.
    pub fn push_goop_undo(&mut self, record: GoopUndoRecord<GoopSnapshotUndo>)
        requires
            old(self).wf(),
        ensures
            final(self).wf(),
            final(self).goop_history@ == history_push(old(self).goop_history@, record),
            final(self).document == old(self).document,
            final(self).log == old(self).log,
            final(self).document_dirty == old(self).document_dirty,
            final(self).goop_stroke == old(self).goop_stroke,
            final(self).selected_goop_layer == old(self).selected_goop_layer,
            same_tools(*old(self), *final(self)),
    {
        self.goop_history.push(record);
    }

    /// Marks the document changed and logs `label`. The application then
    /// flushes the document and rebuilds the model preview.
    pub fn finish_goop_document_change(&mut self, label: &str)
        ensures
            final(self).document_dirty,
            final(self).log@.len() == old(self).log@.len() + 1,
            final(self).log@.take(old(self).log@.len() as int) == old(self).log@,
            final(self).log@.last()@ == change_line(label@),
            final(self).document == old(self).document,
            final(self).goop_history == old(self).goop_history,
            final(self).goop_stroke == old(self).goop_stroke,
            final(self).selected_goop_layer == old(self).selected_goop_layer,
            same_tools(*old(self), *final(self)),
    {
        self.document_dirty = true;
        let mut line = crate::text::chars_of(label);
        line.push('.');
        let line = string_of(&line);
        let ghost before = self.log@;
        self.log.push(line);
        proof {
            assert(self.log@.take(before.len() as int) =~= before);
        }
    }

    /// Replays (`forward`) or reverts one goop edit on the open document.
    pub fn apply_goop_undo_record(&mut self, record: &GoopUndoRecord<GoopSnapshotUndo>, forward: bool)
        ensures
            goop_state(final(self).document) == goop_after_record(
                goop_state(old(self).document),
                *record,
                forward,
            ),
            final(self).document is Some <==> old(self).document is Some,
            old(self).document is Some ==> final(self).document->0.objects == old(self).document->0.objects,
            old(self).document is Some ==> document_edits(final(self).document->0) == edits_after_record(
                document_edits(old(self).document->0),
                *record,
                forward,
            ),
            final(self).goop_history == old(self).goop_history,
            final(self).log == old(self).log,
            final(self).document_dirty == old(self).document_dirty,
            final(self).goop_stroke == old(self).goop_stroke,
            final(self).selected_goop_layer == old(self).selected_goop_layer,
            same_tools(*old(self), *final(self)),
    {
        let mut document = match self.document.take() {
            Some(d) => d,
            None => return,
        };
        match record {
            GoopUndoRecord::Pixels { layer, spans } => {
                let mut authoring = match document.goop_authoring.take() {
                    Some(a) => a,
                    None => {
                        self.document = Some(document);
                        return;
                    },
                };
                if *layer < authoring.layers.len() {
                    let ghost before = authoring@;
                    let mut target = authoring.layers.remove(*layer);
                    apply_pixel_spans(&mut target.mask, spans, forward);
                    authoring.layers.insert(*layer, target);
                    proof {
                        assert(authoring@ =~= before.update(
                            *layer as int,
                            GoopLayerView {
                                mask: apply_spans(before[*layer as int].mask, spans@, forward),
                                ..before[*layer as int]
                            },
                        ));
                    }
                }
                document.goop_authoring = Some(authoring);
            },
            GoopUndoRecord::Snapshot(snapshot) => {
                document.goop_authoring = if forward {
                    duplicate_authoring(&snapshot.after)
                } else {
                    duplicate_authoring(&snapshot.before)
                };
                let edits = if forward {
                    copy_stage_edits(&snapshot.after_edits)
                } else {
                    copy_stage_edits(&snapshot.before_edits)
                };
                document.resource_edits = edits.resource_edits;
                document.tables = edits.tables;
            },
        }
        self.document = Some(document);
    }

    /// Reverts the newest goop edit and moves it to the redo stack; false
    /// when there is nothing to undo.
    pub fn undo_goop(&mut self) -> (undone: bool)
        requires
            old(self).wf(),
        ensures
            final(self).wf(),
            undone == (old(self).goop_history@.0.len() > 0),
            final(self).goop_history@ == history_undo(old(self).goop_history@),
            !undone ==> final(self).document == old(self).document && final(self).log
                == old(self).log && final(self).document_dirty == old(self).document_dirty,
            undone ==> goop_state(final(self).document) == goop_after_record(
                goop_state(old(self).document),
                old(self).goop_history@.0.last(),
                false,
            ),
            undone ==> final(self).document_dirty,
            undone ==> (final(self).document is Some <==> old(self).document is Some),
            undone && old(self).document is Some ==> final(self).document->0.objects
                == old(self).document->0.objects,
            undone && old(self).document is Some ==> document_edits(final(self).document->0)
                == edits_after_record(
                document_edits(old(self).document->0),
                old(self).goop_history@.0.last(),
                false,
            ),
            final(self).goop_stroke == old(self).goop_stroke,
            final(self).selected_goop_layer == old(self).selected_goop_layer,
            same_tools(*old(self), *final(self)),
            undone ==> final(self).log@ == old(self).log@.push(final(self).log@.last())
                && final(self).log@.last()@ == change_line(undo_goop_label()),
    {
        if !self.goop_history.undo() {
            return false;
        }
        let record = self.goop_history.take_last_redo();
        self.apply_goop_undo_record(&record, false);
        self.goop_history.restore_last_redo(record);
        self.finish_goop_document_change("Undo goop edit");
        proof {
            assert(self.log@ =~= old(self).log@.push(self.log@.last()));
        }
        true
    }

    /// Replays the newest undone goop edit and moves it back to the undo
    /// stack; false when there is nothing to redo.
    pub fn redo_goop(&mut self) -> (redone: bool)
        requires
            old(self).wf(),
        ensures
            final(self).wf(),
            redone == (old(self).goop_history@.1.len() > 0),
            final(self).goop_history@ == history_redo(old(self).goop_history@),
            !redone ==> final(self).document == old(self).document && final(self).log
                == old(self).log && final(self).document_dirty == old(self).document_dirty,
            redone ==> goop_state(final(self).document) == goop_after_record(
                goop_state(old(self).document),
                old(self).goop_history@.1.last(),
                true,
            ),
            redone ==> final(self).document_dirty,
            redone ==> (final(self).document is Some <==> old(self).document is Some),
            redone && old(self).document is Some ==> final(self).document->0.objects
                == old(self).document->0.objects,
            redone && old(self).document is Some ==> document_edits(final(self).document->0)
                == edits_after_record(
                document_edits(old(self).document->0),
                old(self).goop_history@.1.last(),
                true,
            ),
            final(self).goop_stroke == old(self).goop_stroke,
            final(self).selected_goop_layer == old(self).selected_goop_layer,
            same_tools(*old(self), *final(self)),
            redone ==> final(self).log@ == old(self).log@.push(final(self).log@.last())
                && final(self).log@.last()@ == change_line(redo_goop_label()),
    {
        if self.goop_history.redo_len() == 0 {
            let moved = self.goop_history.redo();
            return moved;
        }
        let record = self.goop_history.take_last_redo();
        self.apply_goop_undo_record(&record, true);
        self.goop_history.restore_last_redo(record);
        let moved = self.goop_history.redo();
        self.finish_goop_document_change("Redo goop edit");
        proof {
            assert(self.log@ =~= old(self).log@.push(self.log@.last()));
        }
        moved
    }
}

pub open spec fn undo_goop_label() -> Seq<char> {
    "Undo goop edit"@
}

pub open spec fn redo_goop_label() -> Seq<char> {
    "Redo goop edit"@
}


impl SmsEditorApp {
    /// Whether a stroke is in progress that has changed some bytes: only then
    /// does committing it compile the goop authoring.
    pub fn goop_stroke_pending(&self) -> (pending: bool)
        ensures
            pending == (self.goop_stroke is Some && self.goop_stroke->0.changed@.dom().len() > 0),
    {
        match &self.goop_stroke {
            Some(stroke) => !stroke.changed.is_empty(),
            None => false,
        }
    }

    /// Ends the stroke in progress. A stroke that changed something becomes
    /// one pixel record on the undo stack, unless compiling the painted goop
    /// failed (`compiled`, the outcome of compiling the document's goop
    /// authoring), which is logged instead.
    pub fn commit_goop_stroke(&mut self, compiled: Result<(), String>)
        requires
            old(self).wf(),
        ensures
            final(self).wf(),
            final(self).goop_stroke is None,
            final(self).document == old(self).document,
            same_tools(*old(self), *final(self)),
            final(self).selected_goop_layer == old(self).selected_goop_layer,
            ({
                let pending = old(self).goop_stroke is Some && old(self).goop_stroke->0.changed@.dom().len() > 0;
                let failed = old(self).document is Some && compiled is Err;
                &&& !pending ==> final(self).goop_history == old(self).goop_history && final(self).log
                    == old(self).log && final(self).document_dirty == old(self).document_dirty
                &&& pending && failed ==> final(self).goop_history == old(self).goop_history
                    && final(self).document_dirty == old(self).document_dirty && final(self).log@
                    == old(self).log@.push(final(self).log@.last()) && final(self).log@.last()@
                    == compile_failure_line(compiled->Err_0@)
                &&& pending && !failed ==> {
                    let stroke = old(self).goop_stroke->0;
                    let record = final(self).goop_history@.0.last();
                    &&& final(self).goop_history@.1.len() == 0
                    &&& final(self).goop_history@.0.len() > 0
                    &&& final(self).goop_history@ == history_push(old(self).goop_history@, record)
                    &&& (match record {
                        GoopUndoRecord::Pixels { layer, spans } => layer == stroke.layer
                            && coalesced_from(spans@, stroke.changed@),
                        _ => false,
                    })
                    &&& final(self).document_dirty
                    &&& final(self).log@ == old(self).log@.push(final(self).log@.last())
                    &&& final(self).log@.last()@ == change_line(painted_goop_label())
                }
            }),
    {
        let stroke = match self.goop_stroke.take() {
            Some(stroke) => stroke,
            None => return,
        };
        let record = match stroke.finish() {
            Some(record) => record,
            None => return,
        };
        if self.document.is_some() {
            if let Err(error) = compiled {
                let mut line = crate::text::chars_of("Could not compile painted goop mask: ");
                let detail = crate::text::chars_of(error.as_str());
                let ghost before = line@;
                let mut detail_copy = detail.clone();
                line.append(&mut detail_copy);
                let line = string_of(&line);
                let ghost old_log = self.log@;
                self.log.push(line);
                proof {
                    assert(self.log@ =~= old_log.push(self.log@.last()));
                }
                return;
            }
        }
        let ghost pushed = record;
        self.push_goop_undo(record);
        self.finish_goop_document_change("Painted goop mask");
        proof {
            assert(self.log@ =~= old(self).log@.push(self.log@.last()));
            let h = history_push(old(self).goop_history@, pushed);
            assert(h.0.last() == pushed);
        }
    }

    /// Shows or hides the selected goop layer, as one undoable edit.
    pub fn set_selected_goop_visibility(&mut self, visible: bool)
        requires
            old(self).wf(),
        ensures
            final(self).wf(),
            final(self).goop_stroke == old(self).goop_stroke,
            final(self).selected_goop_layer == old(self).selected_goop_layer,
            same_tools(*old(self), *final(self)),
            ({
                let sel = old(self).selected_goop_layer as int;
                let applies = goop_state(old(self).document) matches Some(Some(ls)) && sel < ls.len();
                &&& !applies ==> final(self).document == old(self).document
                    && final(self).goop_history == old(self).goop_history && final(self).log
                    == old(self).log && final(self).document_dirty == old(self).document_dirty
                &&& applies ==> {
                    let ls = goop_state(old(self).document)->0->0;
                    let changed = ls.update(sel, GoopLayerView { visible, ..ls[sel] });
                    let record = final(self).goop_history@.0.last();
                    &&& goop_state(final(self).document) == Some(Some(changed))
                    &&& final(self).document->0.objects == old(self).document->0.objects
                    &&& document_edits(final(self).document->0) == document_edits(old(self).document->0)
                    &&& final(self).goop_history@.0.len() > 0
                    &&& final(self).goop_history@ == history_push(old(self).goop_history@, record)
                    &&& (match record {
                        GoopUndoRecord::Snapshot(s) => authoring_view(s.before) == Some(ls)
                            && authoring_view(s.after) == Some(changed)
                            && stage_edits_view(s.before_edits) == document_edits(old(self).document->0)
                            && stage_edits_view(s.after_edits) == document_edits(old(self).document->0),
                        _ => false,
                    })
                    &&& final(self).document_dirty
                    &&& final(self).log@ == old(self).log@.push(final(self).log@.last())
                    &&& final(self).log@.last()@ == change_line(visibility_label())
                }
            }),
    {
        let mut document = match self.document.take() {
            Some(d) => d,
            None => return,
        };
        let mut authoring = match document.goop_authoring.take() {
            Some(a) => a,
            None => {
                self.document = Some(document);
                return;
            },
        };
        let sel = self.selected_goop_layer;
        if sel >= authoring.layers.len() {
            document.goop_authoring = Some(authoring);
            self.document = Some(document);
            return;
        }
        let before = authoring.duplicate();
        let ghost ls = authoring@;
        let mut layer = authoring.layers.remove(sel);
        layer.visible = visible;
        authoring.layers.insert(sel, layer);
        proof {
            assert(authoring@ =~= ls.update(sel as int, GoopLayerView { visible, ..ls[sel as int] }));
        }
        let after = authoring.duplicate();
        let before_edits = copy_edits(&document);
        let after_edits = copy_edits(&document);
        document.goop_authoring = Some(authoring);
        self.document = Some(document);
        let record = GoopUndoRecord::Snapshot(
            GoopSnapshotUndo { before: Some(before), after: Some(after), before_edits, after_edits },
        );
        let ghost pushed = record;
        self.push_goop_undo(record);
        self.finish_goop_document_change("Changed goop layer visibility");
        proof {
            assert(self.log@ =~= old(self).log@.push(self.log@.last()));
            let h = history_push(old(self).goop_history@, pushed);
            assert(h.0.last() == pushed);
        }
    }
}

/// Undoing a snapshot edit and redoing it gives back the goop layers and
/// the archive edits it left.
pub proof fn snapshot_undo_then_redo_restores(
    layers: Option<Seq<GoopLayerView>>,
    edits: EditsView,
    snapshot: GoopSnapshotUndo,
)
    requires
        layers == authoring_view(snapshot.after),
        edits == stage_edits_view(snapshot.after_edits),
    ensures
        ({
            let record = GoopUndoRecord::Snapshot(snapshot);
            &&& goop_after_record(goop_after_record(Some(layers), record, false), record, true) == Some(
                layers,
            )
            &&& edits_after_record(edits_after_record(edits, record, false), record, true) == edits
        }),
{
}

pub open spec fn painted_goop_label() -> Seq<char> {
    "Painted goop mask"@
}

pub open spec fn visibility_label() -> Seq<char> {
    "Changed goop layer visibility"@
}

/// The log line when the painted goop could not be compiled.
pub open spec fn compile_failure_line(error: Seq<char>) -> Seq<char> {
    "Could not compile painted goop mask: "@ + error
}

impl SmsEditorApp {
    /// Starts a brush stroke on the selected goop layer, when the stage has
    /// goop authoring and the layer is editable: goop tools paint floor
    /// layers only. Whether a stroke started.
    pub fn begin_goop_stroke(&mut self) -> (started: bool)
        ensures
            started == (goop_state(old(self).document) matches Some(Some(ls)) && old(
                self,
            ).selected_goop_layer < ls.len() && ls[old(self).selected_goop_layer as int].editable),
            started ==> (final(self).goop_stroke matches Some(stroke) && stroke.layer
                == old(self).selected_goop_layer && stroke.changed@.dom().len() == 0),
            !started ==> final(self).goop_stroke == old(self).goop_stroke,
            final(self).document == old(self).document,
            final(self).goop_history == old(self).goop_history,
            final(self).log == old(self).log,
            final(self).document_dirty == old(self).document_dirty,
            final(self).selected_goop_layer == old(self).selected_goop_layer,
            same_tools(*old(self), *final(self)),
    {
        let editable = match &self.document {
            Some(d) => match &d.goop_authoring {
                Some(a) => self.selected_goop_layer < a.layers.len() && a.layers[self.selected_goop_layer].editable,
                None => false,
            },
            None => false,
        };
        if editable {
            self.goop_stroke = Some(GoopStroke::new(self.selected_goop_layer));
        }
        editable
    }
}

} // verus!
