//! The Material Library's rules: which render layers a click can land on,
//! how an effect is written, labels for texture formats and texgen sources,
//! card notes, and the rows of a map's materials.
use vstd::prelude::*;
use crate::editor::{
    duplicate_resource_edit, resource_view, same_tools, ModelStainState, ResourceEdit, SmsEditorApp,
    StageDocument,
};
use vstd::string::StringSliceAdditionalSpecFns;
use crate::text::{
    chars_of, char_is_whitespace, char_utf8_width, decimal, decimal_string, ends_with, is_whitespace,
    str_append, str_equal, string_of, string_of_seq_append, utf8_len, utf8_width,
};

verus! {

/// The layers the renderer draws.
#[derive(Debug, Clone, Copy, PartialEq, Eq)]
pub enum PreviewRenderLayer {
    Main,
    Water,
    IndirectWater,
    WaveFoam,
    MirrorSurface,
    Goop,
    Shadow,
    Particle,
    Heatwave,
    Sky,
    MirrorScene,
}

/// The position of a layer's toggle, in the order the pick settings list
/// them.
pub open spec fn slot_of(layer: PreviewRenderLayer) -> usize {
    match layer {
        PreviewRenderLayer::Main => 0,
        PreviewRenderLayer::Water => 1,
        PreviewRenderLayer::IndirectWater => 2,
        PreviewRenderLayer::WaveFoam => 3,
        PreviewRenderLayer::MirrorSurface => 4,
        PreviewRenderLayer::Goop => 5,
        PreviewRenderLayer::Shadow => 6,
        PreviewRenderLayer::Particle => 7,
        PreviewRenderLayer::Heatwave => 8,
        PreviewRenderLayer::Sky => 9,
        PreviewRenderLayer::MirrorScene => 10,
    }
}

pub fn layer_slot(layer: PreviewRenderLayer) -> (slot: usize)
    ensures
        slot == slot_of(layer),
{
    match layer {
        PreviewRenderLayer::Main => 0,
        PreviewRenderLayer::Water => 1,
        PreviewRenderLayer::IndirectWater => 2,
        PreviewRenderLayer::WaveFoam => 3,
        PreviewRenderLayer::MirrorSurface => 4,
        PreviewRenderLayer::Goop => 5,
        PreviewRenderLayer::Shadow => 6,
        PreviewRenderLayer::Particle => 7,
        PreviewRenderLayer::Heatwave => 8,
        PreviewRenderLayer::Sky => 9,
        PreviewRenderLayer::MirrorScene => 10,
    }
}

/// Every layer has its own toggle.
pub proof fn layer_slots_are_distinct(a: PreviewRenderLayer, b: PreviewRenderLayer)
    ensures
        slot_of(a) < 11,
        slot_of(a) == slot_of(b) ==> a == b,
{
}

/// Which layers a click lands on out of the box: the surfaces (solid, water,
/// indirect water, wave foam, mirror surfaces, goop), not what is drawn over
/// them (shadows, particles, heat haze, sky, the mirrored scene copy).
pub fn default_pick_layers() -> (layers: [bool; 11])
    ensures
        layers@ == seq![true, true, true, true, true, true, false, false, false, false, false],
{
    let layers = [true, true, true, true, true, true, false, false, false, false, false];
    proof {
        assert(layers@ =~= seq![true, true, true, true, true, true, false, false, false, false, false]);
    }
    layers
}

/// How an effect is written: a texture-matrix animation, a texture pattern
/// animation, or material state.
#[derive(Debug, Clone, Copy, PartialEq, Eq)]
pub enum Mechanism {
    Scroll,
    Pattern,
    Material,
}

impl Mechanism {
    /// The file kind a mechanism writes.
    pub fn label(self) -> (l: &'static str)
        ensures
            l@ == match self {
                Mechanism::Scroll => "BTK"@,
                Mechanism::Pattern => "BTP"@,
                Mechanism::Material => "MAT3"@,
            },
    {
        match self {
            Mechanism::Scroll => "BTK",
            Mechanism::Pattern => "BTP",
            Mechanism::Material => "MAT3",
        }
    }
}

/// One material an author can put on a surface.
#[derive(Debug, Clone)]
pub struct Sample {
    pub name: String,
    pub note: String,
    pub material: String,
    pub stage: String,
    pub model: String,
    /// The animation that drives it, empty where it has none.
    pub animation: String,
    pub keep_texture_slots: usize,
    pub description: String,
    pub stages: usize,
}

impl Sample {
    /// A sample animated by a `.btp` is a pattern, one without animation is
    /// material state, any other animation a scroll.
    pub open spec fn mechanism_of(&self) -> Mechanism {
        if ends_with(self.animation@, ".btp"@) {
            Mechanism::Pattern
        } else if self.animation@.len() == 0 {
            Mechanism::Material
        } else {
            Mechanism::Scroll
        }
    }

    pub fn mechanism(&self) -> (m: Mechanism)
        ensures
            m == self.mechanism_of(),
    {
        if crate::text::str_ends_with(self.animation.as_str(), ".btp") {
            Mechanism::Pattern
        } else if chars_of(self.animation.as_str()).len() == 0 {
            Mechanism::Material
        } else {
            Mechanism::Scroll
        }
    }
}

/// The samples of one category of the library.
pub struct RuntimeCategory {
    pub name: String,
    pub token: String,
    pub samples: Vec<Sample>,
}

/// One concept of the library and its categories.
pub struct RuntimeConcept {
    pub name: String,
    pub note: &'static str,
    pub categories: Vec<RuntimeCategory>,
}

/// An effect put on one of the map's materials: the material slot, and the
/// sample's place in the library.
#[derive(Debug, Clone, Copy)]
pub struct MaterialEffectAssignment {
    pub material: usize,
    pub concept: usize,
    pub category: usize,
    pub effect: usize,
}

impl MaterialEffectAssignment {
    /// The sample an assignment names in `library`, if it is there.
    pub fn effect<'a>(&self, library: &'a [RuntimeConcept]) -> (s: Option<&'a Sample>)
        ensures
            match s {
                Some(s) => self.concept < library@.len() && self.category
                    < library@[self.concept as int].categories@.len() && self.effect
                    < library@[self.concept as int].categories@[self.category as int].samples@.len()
                    && *s == library@[self.concept as int].categories@[self.category as int].samples@[self.effect as int],
                None => !(self.concept < library@.len() && self.category
                    < library@[self.concept as int].categories@.len() && self.effect
                    < library@[self.concept as int].categories@[self.category as int].samples@.len()),
            },
    {
        if self.concept >= library.len() {
            return None;
        }
        let concept = &library[self.concept];
        if self.category >= concept.categories.len() {
            return None;
        }
        let category = &concept.categories[self.category];
        if self.effect >= category.samples.len() {
            return None;
        }
        Some(&category.samples[self.effect])
    }
}

/// The name of a GX texture coordinate source.
pub open spec fn tex_gen_source_name(source: u8) -> Seq<char> {
    if source == 0 {
        "position"@
    } else if source == 1 {
        "normal"@
    } else if source == 2 {
        "binormal"@
    } else if source == 3 {
        "tangent"@
    } else if 4 <= source <= 11 {
        "UVs"@
    } else {
        "other"@
    }
}

pub fn tex_gen_source_label(source: u8) -> (l: &'static str)
    ensures
        l@ == tex_gen_source_name(source),
{
    match source {
        0 => "position",
        1 => "normal",
        2 => "binormal",
        3 => "tangent",
        4..=11 => "UVs",
        _ => "other",
    }
}

/// The name of a GX texture format.
pub open spec fn texture_format_name(format: u8) -> Seq<char> {
    if format == 0 {
        "I4"@
    } else if format == 1 {
        "I8"@
    } else if format == 2 {
        "IA4"@
    } else if format == 3 {
        "IA8"@
    } else if format == 4 {
        "RGB565"@
    } else if format == 5 {
        "RGB5A3"@
    } else if format == 6 {
        "RGBA8"@
    } else if format == 8 {
        "C4"@
    } else if format == 9 {
        "C8"@
    } else if format == 10 {
        "C14X2"@
    } else if format == 14 {
        "CMPR"@
    } else {
        "?"@
    }
}

pub fn texture_format_label(format: u8) -> (l: &'static str)
    ensures
        l@ == texture_format_name(format),
{
    match format {
        0 => "I4",
        1 => "I8",
        2 => "IA4",
        3 => "IA8",
        4 => "RGB565",
        5 => "RGB5A3",
        6 => "RGBA8",
        8 => "C4",
        9 => "C8",
        10 => "C14X2",
        14 => "CMPR",
        _ => "?",
    }
}


/// The stage model's materials as the Material Library reads them: each
/// material's name and how many animation bindings drive it, and the
/// material each triangle uses.
#[derive(Debug, Clone)]
pub struct MaterialPreview {
    pub material_names: Vec<String>,
    pub animation_binding_counts: Vec<usize>,
    pub triangle_materials: Vec<Option<usize>>,
}

/// The slots, in order, whose material is named `name`.
pub open spec fn named_slots(names: Seq<String>, name: Seq<char>) -> Seq<usize>
    decreases names.len(),
{
    if names.len() == 0 {
        Seq::empty()
    } else {
        let rest = named_slots(names.drop_last(), name);
        if names.last()@ == name {
            rest.push((names.len() - 1) as usize)
        } else {
            rest
        }
    }
}

impl SmsEditorApp {
    /// Every material slot sharing slot `index`'s name: one material as far
    /// as an author is concerned.
    pub fn material_library_group(&self, index: usize) -> (group: Vec<usize>)
        ensures
            group@ == match self.model_preview {
                Some(p) => if index < p.material_names@.len() {
                    named_slots(p.material_names@, p.material_names@[index as int]@)
                } else {
                    Seq::empty()
                },
                None => Seq::empty(),
            },
    {
        let mut group: Vec<usize> = Vec::new();
        let preview = match &self.model_preview {
            Some(p) => p,
            None => return group,
        };
        if index >= preview.material_names.len() {
            return group;
        }
        let name = preview.material_names[index].as_str();
        let ghost names = preview.material_names@;
        let mut i: usize = 0;
        while i < preview.material_names.len()
            invariant
                i <= names.len(),
                names == preview.material_names@,
                name@ == names[index as int]@,
                group@ == named_slots(names.take(i as int), name@),
            decreases names.len() - i,
        {
            proof {
                assert(names.take(i + 1).drop_last() =~= names.take(i as int));
            }
            if str_equal(preview.material_names[i].as_str(), name) {
                group.push(i);
            }
            i += 1;
        }
        proof {
            assert(names.take(names.len() as int) =~= names);
        }
        group
    }
}

/// One row of the Material Library: a material as an author sees it, every
/// slot that wears its name.
#[derive(Debug)]
pub struct MaterialSlot {
    /// The slot that stands for it, the first one the scene loaded.
    pub index: usize,
    /// Every slot wearing this name that carries triangles.
    pub slots: Vec<usize>,
    pub name: String,
    /// How many triangles carry it, across every slot.
    pub triangles: usize,
    /// Whether the stage already animates one of its slots.
    pub animated: bool,
}

pub struct SlotView {
    pub index: usize,
    pub slots: Seq<usize>,
    pub name: Seq<char>,
    pub triangles: nat,
    pub animated: bool,
}

pub open spec fn slot_view(s: MaterialSlot) -> SlotView {
    SlotView { index: s.index, slots: s.slots@, name: s.name@, triangles: s.triangles as nat, animated: s.animated }
}

/// How many triangles use material slot `m`.
pub open spec fn triangle_count(tris: Seq<Option<usize>>, m: usize) -> nat
    decreases tris.len(),
{
    if tris.len() == 0 {
        0
    } else {
        triangle_count(tris.drop_last(), m) + if tris.last() == Some(m) {
            1nat
        } else {
            0nat
        }
    }
}

/// The triangles of the first `n` slots together.
pub open spec fn count_sum(tris: Seq<Option<usize>>, n: int) -> nat
    decreases n,
{
    if n <= 0 {
        0
    } else {
        count_sum(tris, n - 1) + triangle_count(tris, (n - 1) as usize)
    }
}

/// Whether the stage's own animations drive slot `i`.
pub open spec fn slot_animated(p: MaterialPreview, i: int) -> bool {
    i < p.animation_binding_counts@.len() && p.animation_binding_counts@[i] > 0
}

/// The row, if any, named `name`.
pub open spec fn row_named(rows: Seq<SlotView>, name: Seq<char>) -> Option<int> {
    if exists|k: int| 0 <= k < rows.len() && rows[k].name == name {
        Some(choose|k: int| 0 <= k < rows.len() && rows[k].name == name)
    } else {
        None
    }
}

/// The Material Library's rows for the first `n` slots: slots without
/// triangles are left out, and a slot joins the row of its name, or starts
/// a new one at the end.
pub open spec fn library_rows(p: MaterialPreview, n: int) -> Seq<SlotView>
    decreases n,
{
    if n <= 0 {
        Seq::empty()
    } else {
        let rows = library_rows(p, n - 1);
        let i = n - 1;
        let c = triangle_count(p.triangle_materials@, i as usize);
        if c == 0 {
            rows
        } else {
            let name = p.material_names@[i]@;
            match row_named(rows, name) {
                Some(k) => rows.update(
                    k,
                    SlotView {
                        slots: rows[k].slots.push(i as usize),
                        triangles: rows[k].triangles + c,
                        animated: rows[k].animated || slot_animated(p, i),
                        ..rows[k]
                    },
                ),
                None => rows.push(
                    SlotView {
                        index: i as usize,
                        slots: seq![i as usize],
                        name,
                        triangles: c,
                        animated: slot_animated(p, i),
                    },
                ),
            }
        }
    }
}

/// Whether the stage's own animations bind one of `slots`.
pub open spec fn some_slot_bound(p: MaterialPreview, slots: Seq<usize>) -> bool {
    exists|j: int|
        0 <= j < slots.len() && (slots[j] as int) < p.animation_binding_counts@.len()
            && #[trigger] p.animation_binding_counts@[slots[j] as int] > 0
}

/// A Material Library row is marked animated exactly when the stage's own
/// animations bind at least one of the slots merged into that row.
pub proof fn library_rows_are_animated_by_their_slots(p: MaterialPreview)
    ensures
        ({
            let rows = library_rows(p, p.material_names@.len() as int);
            forall|k: int| 0 <= k < rows.len() ==> (#[trigger] rows[k].animated <==> some_slot_bound(p, rows[k].slots))
        }),
{
    lemma_rows_animated(p, p.material_names@.len() as int);
}

proof fn lemma_rows_animated(p: MaterialPreview, n: int)
    requires
        n <= p.material_names@.len(),
    ensures
        forall|k: int|
            0 <= k < library_rows(p, n).len() ==> (#[trigger] library_rows(p, n)[k].animated <==> some_slot_bound(
                p,
                library_rows(p, n)[k].slots,
            )),
    decreases n,
{
    if n > 0 {
        lemma_rows_animated(p, n - 1);
        let rows = library_rows(p, n - 1);
        let i = n - 1;
        assert(p.material_names@.len() == p.material_names.len());
        assert((i as usize) as int == i);
        let c = triangle_count(p.triangle_materials@, i as usize);
        if c != 0 {
            let name = p.material_names@[i]@;
            let next = library_rows(p, n);
            match row_named(rows, name) {
                Some(k) => {
                    assert(0 <= k < rows.len());
                    let old_slots = rows[k].slots;
                    let new_slots = old_slots.push(i as usize);
                    assert(next[k].slots == new_slots);
                    if next[k].animated {
                        if rows[k].animated {
                            let j = choose|j: int|
                                0 <= j < old_slots.len() && (old_slots[j] as int)
                                    < p.animation_binding_counts@.len()
                                    && #[trigger] p.animation_binding_counts@[old_slots[j] as int] > 0;
                            assert(new_slots[j] == old_slots[j]);
                        } else {
                            assert(new_slots[old_slots.len() as int] == i as usize);
                        }
                        assert(some_slot_bound(p, new_slots));
                    }
                    if some_slot_bound(p, new_slots) {
                        let j = choose|j: int|
                            0 <= j < new_slots.len() && (new_slots[j] as int) < p.animation_binding_counts@.len()
                                && #[trigger] p.animation_binding_counts@[new_slots[j] as int] > 0;
                        if j < old_slots.len() {
                            assert(new_slots[j] == old_slots[j]);
                            assert(some_slot_bound(p, old_slots));
                        }
                    }
                    assert forall|t: int| 0 <= t < next.len() && t != k implies (#[trigger] next[t].animated
                        <==> some_slot_bound(p, next[t].slots)) by {
                        assert(next[t] == rows[t]);
                    }
                },
                None => {
                    let s1 = seq![i as usize];
                    assert(next[rows.len() as int].slots == s1);
                    if some_slot_bound(p, s1) {
                        let j = choose|j: int|
                            0 <= j < s1.len() && (s1[j] as int) < p.animation_binding_counts@.len()
                                && #[trigger] p.animation_binding_counts@[s1[j] as int] > 0;
                        assert(j == 0);
                    }
                    if slot_animated(p, i) {
                        assert(s1[0] == i as usize);
                    }
                    assert forall|t: int| 0 <= t < rows.len() implies (#[trigger] next[t].animated
                        <==> some_slot_bound(p, next[t].slots)) by {
                        assert(next[t] == rows[t]);
                    }
                },
            }
        }
    }
}

/// The triangles of `slots` together.
pub open spec fn slots_triangles(p: MaterialPreview, slots: Seq<usize>) -> nat
    decreases slots.len(),
{
    if slots.len() == 0 {
        0
    } else {
        slots_triangles(p, slots.drop_last()) + triangle_count(p.triangle_materials@, slots.last())
    }
}

/// What a Material Library row holds, for the first `n` slots of `p`.
pub open spec fn row_holds(p: MaterialPreview, n: int, r: SlotView) -> bool {
    &&& r.slots.len() > 0
    &&& r.index == r.slots[0]
    &&& r.triangles == slots_triangles(p, r.slots)
    &&& forall|j: int|
        0 <= j < r.slots.len() ==> (#[trigger] r.slots[j] as int) < n && p.material_names@[r.slots[j] as int]@
            == r.name && triangle_count(p.triangle_materials@, r.slots[j]) > 0
}

/// The Material Library's rows: each row gathers slots of one material
/// name, all used by some triangle, starts at its first slot, and counts the
/// triangles of all its slots; no two rows share a name; and every slot that
/// some triangle uses is in a row.
pub proof fn library_rows_gather_slots_by_name(p: MaterialPreview)
    ensures
        ({
            let n = p.material_names@.len() as int;
            let rows = library_rows(p, n);
            &&& forall|k: int| 0 <= k < rows.len() ==> row_holds(p, n, #[trigger] rows[k])
            &&& forall|a: int, b: int| 0 <= a < b < rows.len() ==> #[trigger] rows[a].name != #[trigger] rows[b].name
            &&& forall|i: int|
                0 <= i < n && #[trigger] triangle_count(p.triangle_materials@, i as usize) > 0 ==> exists|k: int, j: int|
                    0 <= k < rows.len() && 0 <= j < rows[k].slots.len() && #[trigger] rows[k].slots[j] == i
        }),
{
    lemma_rows_shape(p, p.material_names@.len() as int);
}

proof fn lemma_rows_shape(p: MaterialPreview, n: int)
    requires
        n <= p.material_names@.len(),
    ensures
        forall|k: int| 0 <= k < library_rows(p, n).len() ==> row_holds(p, n, #[trigger] library_rows(p, n)[k]),
        forall|a: int, b: int|
            0 <= a < b < library_rows(p, n).len() ==> #[trigger] library_rows(p, n)[a].name
                != #[trigger] library_rows(p, n)[b].name,
        forall|i: int|
            0 <= i < n && #[trigger] triangle_count(p.triangle_materials@, i as usize) > 0 ==> exists|k: int, j: int|
                0 <= k < library_rows(p, n).len() && 0 <= j < library_rows(p, n)[k].slots.len()
                    && #[trigger] library_rows(p, n)[k].slots[j] == i,
    decreases n,
{
    if n > 0 {
        lemma_rows_shape(p, n - 1);
        let rows = library_rows(p, n - 1);
        let next = library_rows(p, n);
        let i = n - 1;
        assert(p.material_names@.len() == p.material_names.len());
        assert((i as usize) as int == i);
        let c = triangle_count(p.triangle_materials@, i as usize);
        assert forall|k: int| 0 <= k < rows.len() implies row_holds(p, n, #[trigger] rows[k]) by {
            assert(row_holds(p, n - 1, rows[k]));
        }
        if c == 0 {
            assert forall|t: int|
                0 <= t < n && #[trigger] triangle_count(p.triangle_materials@, t as usize) > 0 implies exists|
                k: int,
                j: int,
            | 0 <= k < next.len() && 0 <= j < next[k].slots.len() && #[trigger] next[k].slots[j] == t by {
                assert(t < n - 1);
            }
        } else {
            let name = p.material_names@[i]@;
            match row_named(rows, name) {
                Some(k) => {
                    assert(0 <= k < rows.len() && rows[k].name == name);
                    let old_slots = rows[k].slots;
                    let new_slots = old_slots.push(i as usize);
                    assert(next[k].slots == new_slots);
                    assert(new_slots.drop_last() =~= old_slots);
                    assert(new_slots[0] == old_slots[0]);
                    assert forall|j: int| 0 <= j < new_slots.len() implies (#[trigger] new_slots[j] as int) < n
                        && p.material_names@[new_slots[j] as int]@ == next[k].name && triangle_count(
                        p.triangle_materials@,
                        new_slots[j],
                    ) > 0 by {
                        if j < old_slots.len() {
                            assert(new_slots[j] == old_slots[j]);
                        }
                    }
                    assert(row_holds(p, n, next[k]));
                    assert forall|t: int| 0 <= t < next.len() implies row_holds(p, n, #[trigger] next[t]) by {
                        if t != k {
                            assert(next[t] == rows[t]);
                        }
                    }
                    assert forall|a: int, b: int| 0 <= a < b < next.len() implies #[trigger] next[a].name
                        != #[trigger] next[b].name by {
                        assert(rows[a].name != rows[b].name);
                    }
                    assert forall|t: int|
                        0 <= t < n && #[trigger] triangle_count(p.triangle_materials@, t as usize) > 0 implies exists|
                        kk: int,
                        j: int,
                    | 0 <= kk < next.len() && 0 <= j < next[kk].slots.len() && #[trigger] next[kk].slots[j] == t by {
                        if t == i {
                            assert(next[k].slots[old_slots.len() as int] == t);
                        } else {
                            let (kk, j) = choose|kk: int, j: int|
                                0 <= kk < rows.len() && 0 <= j < rows[kk].slots.len() && #[trigger] rows[kk].slots[j]
                                    == t;
                            if kk == k {
                                assert(next[kk].slots[j] == t);
                            } else {
                                assert(next[kk] == rows[kk]);
                                assert(next[kk].slots[j] == t);
                            }
                        }
                    }
                },
                None => {
                    let s1 = seq![i as usize];
                    let row = next[rows.len() as int];
                    assert(row.slots == s1);
                    assert(s1.drop_last() =~= Seq::<usize>::empty());
                    assert(s1.last() == i as usize);
                    assert(slots_triangles(p, s1.drop_last()) == 0);
                    assert(slots_triangles(p, s1) == c);
                    assert(row_holds(p, n, row));
                    assert forall|t: int| 0 <= t < next.len() implies row_holds(p, n, #[trigger] next[t]) by {
                        if t < rows.len() {
                            assert(next[t] == rows[t]);
                        }
                    }
                    assert forall|a: int, b: int| 0 <= a < b < next.len() implies #[trigger] next[a].name
                        != #[trigger] next[b].name by {
                        if b < rows.len() {
                            assert(rows[a].name != rows[b].name);
                        } else {
                            assert(next[a] == rows[a]);
                            assert(rows[a].name != name);
                        }
                    }
                    assert forall|t: int|
                        0 <= t < n && #[trigger] triangle_count(p.triangle_materials@, t as usize) > 0 implies exists|
                        kk: int,
                        j: int,
                    | 0 <= kk < next.len() && 0 <= j < next[kk].slots.len() && #[trigger] next[kk].slots[j] == t by {
                        if t == i {
                            assert(next[rows.len() as int].slots[0] == t);
                        } else {
                            let (kk, j) = choose|kk: int, j: int|
                                0 <= kk < rows.len() && 0 <= j < rows[kk].slots.len() && #[trigger] rows[kk].slots[j]
                                    == t;
                            assert(next[kk] == rows[kk]);
                            assert(next[kk].slots[j] == t);
                        }
                    }
                },
            }
        }
    }
}

proof fn lemma_count_sum_step(tris: Seq<Option<usize>>, n: int)
    requires
        tris.len() > 0,
        0 <= n <= usize::MAX + 1,
    ensures
        count_sum(tris, n) == count_sum(tris.drop_last(), n) + if (tris.last() matches Some(x) && (x as int) < n) {
            1nat
        } else {
            0nat
        },
    decreases n,
{
    if n > 0 {
        lemma_count_sum_step(tris, n - 1);
        assert(triangle_count(tris, (n - 1) as usize) == triangle_count(tris.drop_last(), (n - 1) as usize)
            + if tris.last() == Some((n - 1) as usize) {
            1nat
        } else {
            0nat
        });
    }
}

proof fn lemma_count_sum_bound(tris: Seq<Option<usize>>, n: int)
    requires
        0 <= n <= usize::MAX + 1,
    ensures
        count_sum(tris, n) <= tris.len(),
    decreases tris.len(),
{
    if tris.len() == 0 {
        lemma_count_sum_zero(tris, n);
    } else {
        lemma_count_sum_step(tris, n);
        lemma_count_sum_bound(tris.drop_last(), n);
    }
}

proof fn lemma_count_sum_zero(tris: Seq<Option<usize>>, n: int)
    requires
        tris.len() == 0,
        0 <= n,
    ensures
        count_sum(tris, n) == 0,
    decreases n,
{
    if n > 0 {
        lemma_count_sum_zero(tris, n - 1);
    }
}

fn triangle_counts(p: &MaterialPreview) -> (counts: Vec<usize>)
    ensures
        counts@.len() == p.material_names@.len(),
        forall|j: int| 0 <= j < counts@.len() ==> #[trigger] counts@[j] == triangle_count(p.triangle_materials@, j as usize),
{
    let n = p.material_names.len();
    let mut counts: Vec<usize> = Vec::new();
    let mut j: usize = 0;
    while j < n
        invariant
            j <= n,
            n == p.material_names@.len(),
            counts@.len() == j,
            forall|t: int| 0 <= t < j ==> #[trigger] counts@[t] == 0,
        decreases n - j,
    {
        counts.push(0);
        j += 1;
    }
    let tris = &p.triangle_materials;
    let mut k: usize = 0;
    while k < tris.len()
        invariant
            k <= tris@.len(),
            n == p.material_names@.len(),
            tris@ == p.triangle_materials@,
            counts@.len() == n,
            forall|t: int| 0 <= t < n ==> #[trigger] counts@[t] == triangle_count(tris@.take(k as int), t as usize),
            forall|t: int| 0 <= t < n ==> #[trigger] counts@[t] <= k,
        decreases tris@.len() - k,
    {
        proof {
            assert(tris@.take(k + 1).drop_last() =~= tris@.take(k as int));
        }
        match tris[k] {
            Some(index) => {
                if index < n {
                    let c = counts[index];
                    counts.set(index, c + 1);
                }
            },
            None => {},
        }
        k += 1;
    }
    proof {
        assert(tris@.take(tris@.len() as int) =~= tris@);
    }
    counts
}

impl SmsEditorApp {
    /// The Material Library's rows: one per material name, in the order the
    /// scene loaded the names, with every slot that wears it, its triangle
    /// count and whether the stage animates it. Slots no triangle uses are
    /// left out.
    pub fn material_library_slots(&self) -> (rows: Vec<MaterialSlot>)
        ensures
            rows@.map_values(|r: MaterialSlot| slot_view(r)) == match self.model_preview {
                Some(p) => library_rows(p, p.material_names@.len() as int),
                None => Seq::empty(),
            },
    {
        let mut rows: Vec<MaterialSlot> = Vec::new();
        let preview = match &self.model_preview {
            Some(p) => p,
            None => {
                assert(rows@.map_values(|r: MaterialSlot| slot_view(r)) =~= Seq::<SlotView>::empty());
                return rows;
            },
        };
        let counts = triangle_counts(preview);
        let n = preview.material_names.len();
        let total = preview.triangle_materials.len();
        let ghost tris = preview.triangle_materials@;
        let mut i: usize = 0;
        while i < n
            invariant
                i <= n,
                n == preview.material_names@.len(),
                self.model_preview == Some(*preview),
                tris == preview.triangle_materials@,
                counts@.len() == n,
                forall|j: int| 0 <= j < n ==> #[trigger] counts@[j] == triangle_count(tris, j as usize),
                rows@.map_values(|r: MaterialSlot| slot_view(r)) == library_rows(*preview, i as int),
                forall|a: int, b: int| 0 <= a < b < rows@.len() ==> rows@[a].name@ != rows@[b].name@,
                forall|r: int| 0 <= r < rows@.len() ==> (#[trigger] rows@[r]).triangles <= count_sum(tris, i as int),
                count_sum(tris, i as int) <= tris.len(),
                tris.len() == total,
            decreases n - i,
        {
            let ghost before = rows@.map_values(|r: MaterialSlot| slot_view(r));
            let c = counts[i];
            proof {
                lemma_count_sum_bound(tris, i + 1);
                assert(count_sum(tris, i + 1) == count_sum(tris, i as int) + c);
            }
            if c > 0 {
                let animated = i < preview.animation_binding_counts.len() && preview.animation_binding_counts[i] > 0;
                let name = preview.material_names[i].as_str();
                let mut found: Option<usize> = None;
                let mut k: usize = 0;
                while k < rows.len()
                    invariant
                        k <= rows@.len(),
                        match found {
                            Some(t) => t < rows@.len() && rows@[t as int].name@ == name@,
                            None => forall|t: int| 0 <= t < k ==> rows@[t].name@ != name@,
                        },
                    decreases rows@.len() - k,
                {
                    if found.is_none() && str_equal(rows[k].name.as_str(), name) {
                        found = Some(k);
                    }
                    k += 1;
                }
                match found {
                    Some(k) => {
                        proof {
                            assert(before[k as int].name == name@);
                            let chosen = choose|t: int| 0 <= t < before.len() && before[t].name == name@;
                            if chosen != k as int {
                                assert(rows@[chosen].name@ == rows@[k as int].name@);
                            }
                            assert(row_named(before, name@) == Some(k as int));
                        }
                        let mut row = rows.remove(k);
                        row.slots.push(i);
                        row.triangles = row.triangles + c;
                        row.animated = row.animated || animated;
                        rows.insert(k, row);
                        proof {
                            assert(rows@.map_values(|r: MaterialSlot| slot_view(r)) =~= library_rows(*preview, i + 1));
                        }
                    },
                    None => {
                        proof {
                            assert(row_named(before, name@) is None);
                        }
                        let slots = vec![i];
                        let row = MaterialSlot {
                            index: i,
                            slots,
                            name: preview.material_names[i].clone(),
                            triangles: c,
                            animated,
                        };
                        proof {
                            assert(slots@ =~= seq![i]);
                            assert(slot_view(row) == SlotView {
                                index: i,
                                slots: seq![i],
                                name: preview.material_names@[i as int]@,
                                triangles: triangle_count(tris, i),
                                animated: slot_animated(*preview, i as int),
                            });
                        }
                        rows.push(row);
                        proof {
                            assert(rows@.map_values(|r: MaterialSlot| slot_view(r)) =~= library_rows(*preview, i + 1));
                        }
                    },
                }
            }
            i += 1;
        }
        rows
    }
}

/// `s` split into its runs of non-white-space characters
/// (`str::split_whitespace`).
pub open spec fn words_of(s: Seq<char>) -> Seq<Seq<char>> {
    words_from(s, s.len() as int)
}

/// The finished words of `s.take(n)`, and the word in progress at its end.
pub open spec fn word_scan(s: Seq<char>, n: int) -> (Seq<Seq<char>>, Seq<char>)
    decreases n,
{
    if n <= 0 {
        (Seq::empty(), Seq::empty())
    } else {
        let (done, cur) = word_scan(s, n - 1);
        if is_whitespace(s[n - 1]) {
            if cur.len() > 0 {
                (done.push(cur), Seq::empty())
            } else {
                (done, cur)
            }
        } else {
            (done, cur.push(s[n - 1]))
        }
    }
}

pub open spec fn words_from(s: Seq<char>, n: int) -> Seq<Seq<char>> {
    let (done, cur) = word_scan(s, n);
    if cur.len() > 0 {
        done.push(cur)
    } else {
        done
    }
}

/// The state of wrapping a note: the lines so far, the line in progress,
/// and whether the card is full.
pub open spec fn wrap_words(words: Seq<Seq<char>>, width: nat) -> (Seq<Seq<char>>, Seq<char>, bool)
    decreases words.len(),
{
    if words.len() == 0 {
        (Seq::empty(), Seq::empty(), false)
    } else {
        let (lines, cur, full) = wrap_words(words.drop_last(), width);
        let word = words.last();
        if full {
            (lines, cur, full)
        } else if cur.len() > 0 && utf8_len(cur) + 1 + utf8_len(word) > width {
            let lines2 = lines.push(cur);
            if lines2.len() == 2 {
                (lines2.update(1, lines2[1].push('\u{2026}')), Seq::empty(), true)
            } else {
                (lines2, word, false)
            }
        } else if cur.len() > 0 {
            (lines, cur + seq![' '] + word, false)
        } else {
            (lines, word, false)
        }
    }
}

/// A card note broken at word boundaries into lines of at most `width`
/// bytes where the words allow, at most two of them, the second ending in an
/// ellipsis when the note goes on.
pub open spec fn wrapped_note(note: Seq<char>, width: nat) -> Seq<Seq<char>> {
    let (lines, cur, full) = wrap_words(words_of(note), width);
    if full {
        lines
    } else if cur.len() > 0 {
        lines.push(cur)
    } else {
        lines
    }
}


/// A card note takes at most two lines, none of them empty, and a note with
/// no words takes none.
pub proof fn wrapped_notes_fit_the_card(note: Seq<char>, width: nat)
    ensures
        wrapped_note(note, width).len() <= 2,
        forall|k: int| 0 <= k < wrapped_note(note, width).len() ==> #[trigger] wrapped_note(note, width)[k].len() > 0,
        words_of(note).len() == 0 ==> wrapped_note(note, width).len() == 0,
{
    lemma_wrap_words_shape(words_of(note), width);
}

proof fn lemma_wrap_words_shape(words: Seq<Seq<char>>, width: nat)
    ensures
        ({
            let (lines, cur, full) = wrap_words(words, width);
            &&& full ==> lines.len() == 2 && lines[1].len() > 0 && lines[1].last() == '\u{2026}'
            &&& !full ==> lines.len() <= 1
            &&& forall|k: int| 0 <= k < lines.len() ==> #[trigger] lines[k].len() > 0
        }),
    decreases words.len(),
{
    if words.len() > 0 {
        lemma_wrap_words_shape(words.drop_last(), width);
        let (lines, cur, full) = wrap_words(words.drop_last(), width);
        let word = words.last();
        if !full && cur.len() > 0 && utf8_len(cur) + 1 + utf8_len(word) > width {
            let lines2 = lines.push(cur);
            if lines2.len() == 2 {
                let l = lines2.update(1, lines2[1].push('\u{2026}'));
                assert forall|k: int| 0 <= k < l.len() implies #[trigger] l[k].len() > 0 by {
                    if k == 0 {
                        assert(l[0] == lines2[0]);
                    }
                }
            } else {
                assert forall|k: int| 0 <= k < lines2.len() implies #[trigger] lines2[k].len() > 0 by {
                    if k < lines.len() {
                        assert(lines2[k] == lines[k]);
                    }
                }
            }
        }
    }
}

fn utf8_length(v: &Vec<char>) -> (n: u128)
    ensures
        n == utf8_len(v@),
        n <= 4 * v@.len(),
{
    let mut n: u128 = 0;
    let mut i: usize = 0;
    while i < v.len()
        invariant
            i <= v@.len(),
            n == utf8_len(v@.take(i as int)),
            n <= 4 * i,
        decreases v@.len() - i,
    {
        proof {
            assert(v@.take(i + 1).drop_last() =~= v@.take(i as int));
        }
        n = n + char_utf8_width(v[i]) as u128;
        i += 1;
    }
    proof {
        assert(v@.take(v@.len() as int) =~= v@);
    }
    n
}

/// The words of a text, in order.
fn split_words(chars: &Vec<char>) -> (words: Vec<Vec<char>>)
    ensures
        words@.map_values(|w: Vec<char>| w@) == words_of(chars@),
{
    let mut words: Vec<Vec<char>> = Vec::new();
    let mut cur: Vec<char> = Vec::new();
    let mut i: usize = 0;
    while i < chars.len()
        invariant
            i <= chars@.len(),
            word_scan(chars@, i as int) == (words@.map_values(|w: Vec<char>| w@), cur@),
        decreases chars@.len() - i,
    {
        let c = chars[i];
        if char_is_whitespace(c) {
            if cur.len() > 0 {
                let ghost before = words@.map_values(|w: Vec<char>| w@);
                let finished = cur;
                words.push(finished);
                cur = Vec::new();
                proof {
                    assert(words@.map_values(|w: Vec<char>| w@) =~= before.push(finished@));
                }
            }
        } else {
            cur.push(c);
        }
        i += 1;
    }
    if cur.len() > 0 {
        let ghost before = words@.map_values(|w: Vec<char>| w@);
        let finished = cur;
        words.push(finished);
        proof {
            assert(words@.map_values(|w: Vec<char>| w@) =~= before.push(finished@));
        }
    }
    words
}

/// Breaks a note at word boundaries so a card can show two lines of it.
pub fn wrap_note(note: &str, width: usize) -> (lines: Vec<String>)
    ensures
        lines@.map_values(|l: String| l@) == wrapped_note(note@, width as nat),
{
    let chars = chars_of(note);
    let words = split_words(&chars);
    let ghost wv = words@.map_values(|w: Vec<char>| w@);
    let mut lines: Vec<Vec<char>> = Vec::new();
    let mut current: Vec<char> = Vec::new();
    let mut k: usize = 0;
    while k < words.len()
        invariant
            k <= words@.len(),
            wv == words@.map_values(|w: Vec<char>| w@),
            wv == words_of(note@),
            chars@ == note@,
            wrap_words(wv.take(k as int), width as nat) == (
                lines@.map_values(|l: Vec<char>| l@),
                current@,
                false,
            ),
            lines@.len() < 2,
        decreases words@.len() - k,
    {
        let word = &words[k];
        let ghost lv = lines@.map_values(|l: Vec<char>| l@);
        proof {
            assert(wv.take(k + 1).drop_last() =~= wv.take(k as int));
            assert(wv.take(k + 1).last() == word@);
        }
        let cur_len = current.len();
        let word_len = word.len();
        if cur_len > 0 && utf8_length(&current) + 1 + utf8_length(word) > width as u128 {
            let finished = current;
            lines.push(finished);
            current = Vec::new();
            proof {
                assert(lines@.map_values(|l: Vec<char>| l@) =~= lv.push(finished@));
            }
            if lines.len() == 2 {
                let mut last = lines.pop().unwrap();
                last.push('\u{2026}');
                let ghost lv2 = lines@.map_values(|l: Vec<char>| l@);
                lines.push(last);
                let mut out: Vec<String> = Vec::new();
                let mut j: usize = 0;
                while j < lines.len()
                    invariant
                        j <= lines@.len(),
                        out@.len() == j,
                        forall|t: int| 0 <= t < j ==> (#[trigger] out@[t])@ == lines@[t]@,
                    decreases lines@.len() - j,
                {
                    out.push(string_of(&lines[j]));
                    j += 1;
                }
                proof {
                    let full = wrap_words(wv.take(k + 1), width as nat);
                    assert(full.2);
                    assert(out@.map_values(|l: String| l@) =~= full.0);
                    lemma_wrap_full_stays(wv, (k + 1) as int, width as nat);
                    assert(wv.take(wv.len() as int) =~= wv);
                }
                return out;
            }
        }
        if current.len() > 0 {
            current.push(' ');
        }
        let mut w = word.clone();
        current.append(&mut w);
        k += 1;
    }
    proof {
        assert(wv.take(wv.len() as int) =~= wv);
    }
    if current.len() > 0 {
        lines.push(current);
    }
    let mut out: Vec<String> = Vec::new();
    let mut j: usize = 0;
    while j < lines.len()
        invariant
            j <= lines@.len(),
            out@.len() == j,
            forall|t: int| 0 <= t < j ==> (#[trigger] out@[t])@ == lines@[t]@,
        decreases lines@.len() - j,
    {
        out.push(string_of(&lines[j]));
        j += 1;
    }
    proof {
        assert(out@.map_values(|l: String| l@) =~= lines@.map_values(|l: Vec<char>| l@));
    }
    out
}

/// Once the card is full, later words change nothing.
proof fn lemma_wrap_full_stays(words: Seq<Seq<char>>, n: int, width: nat)
    requires
        0 <= n <= words.len(),
        wrap_words(words.take(n), width).2,
    ensures
        wrap_words(words, width) == wrap_words(words.take(n), width),
    decreases words.len() - n,
{
    if n < words.len() {
        assert(words.take(n + 1).drop_last() =~= words.take(n));
        lemma_wrap_full_stays(words, n + 1, width);
    } else {
        assert(words.take(n) =~= words);
    }
}

/// What the Material Library's two resources, the map model and its texture
/// animation, were before its first install this session. `None` for a path
/// means no edit was there, and putting that back removes the library's.
#[derive(Debug)]
pub struct MaterialLibraryBaseline {
    pub model: Option<ResourceEdit>,
    pub animation: Option<ResourceEdit>,
}

/// The map model the Material Library rewrites.
pub open spec fn library_model_path() -> Seq<u8> {
    "map/map/map.bmd".spec_bytes()
}

/// The texture animation the Material Library folds its tracks into.
pub open spec fn library_animation_path() -> Seq<u8> {
    "map/map/map.btk".spec_bytes()
}

fn library_model_path_bytes() -> (p: &'static [u8])
    ensures
        p@ == library_model_path(),
{
    "map/map/map.bmd".as_bytes()
}

fn library_animation_path_bytes() -> (p: &'static [u8])
    ensures
        p@ == library_animation_path(),
{
    "map/map/map.btk".as_bytes()
}

pub type ResourceView = (Seq<u8>, Option<ModelStainState>);

pub open spec fn resources_view(rs: Seq<ResourceEdit>) -> Seq<ResourceView> {
    rs.map_values(|e: ResourceEdit| resource_view(e))
}

pub open spec fn optional_edit_view(e: Option<ResourceEdit>) -> Option<ResourceView> {
    match e {
        Some(e) => Some(resource_view(e)),
        None => None,
    }
}

/// Whether an edit is not at `path`.
pub open spec fn not_at(path: Seq<u8>) -> spec_fn(ResourceView) -> bool {
    |r: ResourceView| r.0 != path
}

/// Whether an edit is at `path`.
pub open spec fn at(path: Seq<u8>) -> spec_fn(ResourceView) -> bool {
    |r: ResourceView| r.0 == path
}

/// Whether an edit is at neither library path.
pub open spec fn elsewhere() -> spec_fn(ResourceView) -> bool {
    |r: ResourceView| r.0 != library_model_path() && r.0 != library_animation_path()
}

/// The resource edits with every edit at `path` taken out and `edit`, if
/// any, added at the end.
pub open spec fn put_back(rs: Seq<ResourceView>, path: Seq<u8>, edit: Option<ResourceView>) -> Seq<ResourceView> {
    let kept = rs.filter(not_at(path));
    match edit {
        Some(e) => kept.push(e),
        None => kept,
    }
}

/// The resource edits with both library resources put back to a baseline.
pub open spec fn restored_resources(rs: Seq<ResourceView>, b: MaterialLibraryBaseline) -> Seq<ResourceView> {
    put_back(
        put_back(rs, library_model_path(), optional_edit_view(b.model)),
        library_animation_path(),
        optional_edit_view(b.animation),
    )
}

fn bytes_equal(a: &[u8], b: &[u8]) -> (r: bool)
    ensures
        r == (a@ == b@),
{
    if a.len() != b.len() {
        return false;
    }
    let mut i: usize = 0;
    while i < a.len()
        invariant
            i <= a@.len(),
            a@.len() == b@.len(),
            forall|k: int| 0 <= k < i ==> a@[k] == b@[k],
        decreases a@.len() - i,
    {
        if a[i] != b[i] {
            return false;
        }
        i += 1;
    }
    assert(a@ =~= b@);
    true
}

fn put_back_edit(resources: &mut Vec<ResourceEdit>, path: &[u8], edit: &Option<ResourceEdit>)
    ensures
        resources_view(final(resources)@) == put_back(resources_view(old(resources)@), path@, optional_edit_view(*edit)),
{
    let ghost old_view = resources_view(resources@);
    let ghost pred = |r: ResourceView| r.0 != path@;
    let mut kept: Vec<ResourceEdit> = Vec::new();
    let mut i: usize = 0;
    while i < resources.len()
        invariant
            i <= resources@.len(),
            old_view == resources_view(resources@),
            pred == (|r: ResourceView| r.0 != path@),
            resources_view(kept@) == old_view.take(i as int).filter(pred),
        decreases resources@.len() - i,
    {
        proof {
            reveal(Seq::filter);
            assert(old_view.take(i + 1).drop_last() =~= old_view.take(i as int));
        }
        if !bytes_equal(resources[i].raw_resource_path.as_slice(), path) {
            let e = duplicate_resource_edit(&resources[i]);
            let ghost before = kept@;
            kept.push(e);
            proof {
                assert(resources_view(kept@) =~= resources_view(before).push(resource_view(e)));
            }
        }
        i += 1;
    }
    proof {
        assert(old_view.take(resources@.len() as int) =~= old_view);
    }
    match edit {
        Some(e) => {
            let ghost before = kept@;
            kept.push(duplicate_resource_edit(e));
            proof {
                assert(resources_view(kept@) =~= resources_view(before).push(resource_view(*e)));
            }
        },
        None => {},
    }
    *resources = kept;
}

proof fn lemma_library_paths_differ()
    ensures
        library_model_path() != library_animation_path(),
{
    broadcast use vstd::utf8::encode_utf8_decode_utf8;

    reveal_strlit("map/map/map.bmd");
    reveal_strlit("map/map/map.btk");
    assert(vstd::utf8::decode_utf8(library_model_path()) == "map/map/map.bmd"@);
    assert(vstd::utf8::decode_utf8(library_animation_path()) == "map/map/map.btk"@);
    assert("map/map/map.bmd"@[14] != "map/map/map.btk"@[14]);
}

proof fn lemma_filter_push(s: Seq<ResourceView>, x: ResourceView, p: spec_fn(ResourceView) -> bool)
    ensures
        s.push(x).filter(p) == if p(x) {
            s.filter(p).push(x)
        } else {
            s.filter(p)
        },
{
    reveal(Seq::filter);
    assert(s.push(x).drop_last() =~= s);
}

proof fn lemma_filter_filter(
    s: Seq<ResourceView>,
    p: spec_fn(ResourceView) -> bool,
    q: spec_fn(ResourceView) -> bool,
    pq: spec_fn(ResourceView) -> bool,
)
    requires
        forall|r: ResourceView| #[trigger] pq(r) == (p(r) && q(r)),
    ensures
        s.filter(p).filter(q) == s.filter(pq),
    decreases s.len(),
{
    reveal(Seq::filter);
    if s.len() > 0 {
        lemma_filter_filter(s.drop_last(), p, q, pq);
        let rest = s.drop_last().filter(p);
        lemma_filter_push(rest, s.last(), q);
    }
}

proof fn lemma_filter_none(s: Seq<ResourceView>, p: spec_fn(ResourceView) -> bool)
    requires
        forall|r: ResourceView| !#[trigger] p(r),
    ensures
        s.filter(p) == Seq::<ResourceView>::empty(),
    decreases s.len(),
{
    reveal(Seq::filter);
    if s.len() > 0 {
        lemma_filter_none(s.drop_last(), p);
    }
}

proof fn lemma_filter_singleton(e: ResourceView, p: spec_fn(ResourceView) -> bool)
    ensures
        seq![e].filter(p) == if p(e) {
            seq![e]
        } else {
            Seq::<ResourceView>::empty()
        },
{
    lemma_filter_push(Seq::empty(), e, p);
    reveal(Seq::filter);
    assert(Seq::<ResourceView>::empty().push(e) =~= seq![e]);
}

proof fn lemma_filter_singletons(em: Option<ResourceView>, ea: Option<ResourceView>)
    ensures
        forall|p: spec_fn(ResourceView) -> bool|
            #![trigger optional_seq(em).filter(p)]
            optional_seq(em).filter(p) == match em {
                Some(e) => if p(e) {
                    seq![e]
                } else {
                    Seq::<ResourceView>::empty()
                },
                None => Seq::<ResourceView>::empty(),
            },
        forall|p: spec_fn(ResourceView) -> bool|
            #![trigger optional_seq(ea).filter(p)]
            optional_seq(ea).filter(p) == match ea {
                Some(e) => if p(e) {
                    seq![e]
                } else {
                    Seq::<ResourceView>::empty()
                },
                None => Seq::<ResourceView>::empty(),
            },
{
    assert forall|p: spec_fn(ResourceView) -> bool| #![trigger optional_seq(em).filter(p)]
    optional_seq(em).filter(p) == match em {
        Some(e) => if p(e) {
            seq![e]
        } else {
            Seq::<ResourceView>::empty()
        },
        None => Seq::<ResourceView>::empty(),
    } by {
        reveal(Seq::filter);
        if let Some(e) = em {
            lemma_filter_singleton(e, p);
        }
    }
    assert forall|p: spec_fn(ResourceView) -> bool| #![trigger optional_seq(ea).filter(p)]
    optional_seq(ea).filter(p) == match ea {
        Some(e) => if p(e) {
            seq![e]
        } else {
            Seq::<ResourceView>::empty()
        },
        None => Seq::<ResourceView>::empty(),
    } by {
        reveal(Seq::filter);
        if let Some(e) = ea {
            lemma_filter_singleton(e, p);
        }
    }
}

/// The edits at `path` among `rs`, in order.
pub open spec fn edits_at(rs: Seq<ResourceView>, path: Seq<u8>) -> Seq<ResourceView> {
    rs.filter(at(path))
}

/// The edits at neither library path among `rs`, in order.
pub open spec fn edits_elsewhere(rs: Seq<ResourceView>) -> Seq<ResourceView> {
    rs.filter(elsewhere())
}

pub open spec fn optional_seq(e: Option<ResourceView>) -> Seq<ResourceView> {
    match e {
        Some(e) => seq![e],
        None => Seq::empty(),
    }
}

/// Putting the library's resources back to a baseline taken at their paths
/// leaves at each path exactly the baseline's edit, or none where the
/// baseline had none, and every other edit as it was.
pub proof fn restoring_puts_back_exactly_the_baseline(rs: Seq<ResourceView>, b: MaterialLibraryBaseline)
    requires
        taken_at_library_paths(b),
    ensures
        edits_at(restored_resources(rs, b), library_model_path()) == optional_seq(optional_edit_view(b.model)),
        edits_at(restored_resources(rs, b), library_animation_path()) == optional_seq(
            optional_edit_view(b.animation),
        ),
        edits_elsewhere(restored_resources(rs, b)) == edits_elsewhere(rs),
{
    lemma_library_paths_differ();
    let m = library_model_path();
    let a = library_animation_path();
    let not_m = not_at(m);
    let not_a = not_at(a);
    let is_m = at(m);
    let is_a = at(a);
    let other = elsewhere();
    let never = |r: ResourceView| false;
    let em = optional_edit_view(b.model);
    let ea = optional_edit_view(b.animation);
    let base = rs.filter(not_m).filter(not_a);
    lemma_filter_filter(rs, not_m, not_a, other);
    let step1 = put_back(rs, m, em);
    let step2 = restored_resources(rs, b);
    // The kept part of step 1 after the animation filter, then the two
    // baseline edits.
    let mid = step1.filter(not_a);
    match em {
        Some(e) => {
            lemma_filter_push(rs.filter(not_m), e, not_a);
        },
        None => {},
    }
    assert(mid == base + optional_seq(em)) by {
        match em {
            Some(e) => {
                assert(base.push(e) =~= base + seq![e]);
            },
            None => {
                assert(base =~= base + Seq::<ResourceView>::empty());
            },
        }
    }
    assert(step2 == base + optional_seq(em) + optional_seq(ea)) by {
        match ea {
            Some(e) => {
                assert(mid.push(e) =~= mid + seq![e]);
            },
            None => {
                assert(mid =~= mid + Seq::<ResourceView>::empty());
            },
        }
    }
    broadcast use Seq::filter_distributes_over_add;

    // Edits at the model path.
    lemma_filter_filter(rs, other, is_m, never);
    lemma_filter_none(rs, never);
    reveal(Seq::filter);
    lemma_filter_singletons(em, ea);
    assert(optional_seq(em).filter(is_m) =~= optional_seq(em));
    assert(optional_seq(ea).filter(is_m) =~= Seq::<ResourceView>::empty());
    assert(edits_at(step2, m) =~= optional_seq(em)) by {
        assert(step2.filter(is_m) == base.filter(is_m) + optional_seq(em).filter(is_m) + optional_seq(ea).filter(is_m));
        assert(base.filter(is_m) =~= Seq::<ResourceView>::empty());
    }
    // Edits at the animation path.
    lemma_filter_filter(rs, other, is_a, never);
    assert(optional_seq(em).filter(is_a) =~= Seq::<ResourceView>::empty());
    assert(optional_seq(ea).filter(is_a) =~= optional_seq(ea));
    assert(edits_at(step2, a) =~= optional_seq(ea)) by {
        assert(step2.filter(is_a) == base.filter(is_a) + optional_seq(em).filter(is_a) + optional_seq(ea).filter(is_a));
        assert(base.filter(is_a) =~= Seq::<ResourceView>::empty());
    }
    // Every other edit.
    lemma_filter_filter(rs, other, other, other);
    assert(optional_seq(em).filter(other) =~= Seq::<ResourceView>::empty());
    assert(optional_seq(ea).filter(other) =~= Seq::<ResourceView>::empty());
    assert(edits_elsewhere(step2) =~= edits_elsewhere(rs)) by {
        assert(step2.filter(other) == base.filter(other) + optional_seq(em).filter(other) + optional_seq(ea).filter(other));
    }
}

/// The open stage after its library resources are put back to `b`: the
/// rest of the stage stays as it was.
pub open spec fn library_restored(
    before: Option<StageDocument>,
    after: Option<StageDocument>,
    b: MaterialLibraryBaseline,
) -> bool {
    match (before, after) {
        (Some(d0), Some(d)) => {
            &&& resources_view(d.resource_edits@) == restored_resources(resources_view(d0.resource_edits@), b)
            &&& d.tables == d0.tables
            &&& d.objects == d0.objects
            &&& d.goop_authoring == d0.goop_authoring
        },
        _ => false,
    }
}

/// The log line a reset writes.
pub open spec fn reset_line(applied: nat) -> Seq<char> {
    "Material Library reset: "@ + decimal(applied) + " effect(s) removed"@
}

impl SmsEditorApp {
    /// Puts the two library resources back to the baseline, keeping the
    /// baseline; whether there was anything to put back.
    pub fn restore_material_library_baseline(&mut self) -> (restored: bool)
        ensures
            restored == (old(self).material_library_baseline is Some && old(self).document is Some),
            restored ==> library_restored(
                old(self).document,
                final(self).document,
                old(self).material_library_baseline->0,
            ),
            !restored ==> final(self).document == old(self).document,
            final(self).material_library_baseline == old(self).material_library_baseline,
            final(self).material_library_assignments == old(self).material_library_assignments,
            final(self).log == old(self).log,
            final(self).goop_history == old(self).goop_history,
            final(self).document_dirty == old(self).document_dirty,
            final(self).goop_stroke == old(self).goop_stroke,
            final(self).selected_goop_layer == old(self).selected_goop_layer,
            same_tools(*old(self), *final(self)),
    {
        let baseline = match &self.material_library_baseline {
            Some(b) => b,
            None => return false,
        };
        let document = match &mut self.document {
            Some(d) => d,
            None => return false,
        };
        put_back_edit(&mut document.resource_edits, library_model_path_bytes(), &baseline.model);
        put_back_edit(&mut document.resource_edits, library_animation_path_bytes(), &baseline.animation);
        true
    }

    /// Puts the stage's model and animation back to what they were before any
    /// effect was applied, drops the baseline and the applied effects, and
    /// logs how many were removed. The application then rebuilds the model
    /// preview.
    pub fn reset_material_library(&mut self)
        ensures
            final(self).material_library_assignments@ == Seq::<MaterialEffectAssignment>::empty(),
            old(self).material_library_baseline is None || old(self).document is None ==> {
                &&& final(self).document == old(self).document
                &&& final(self).material_library_baseline == old(self).material_library_baseline
                &&& final(self).log == old(self).log
            },
            old(self).material_library_baseline is Some && old(self).document is Some ==> {
                &&& library_restored(
                    old(self).document,
                    final(self).document,
                    old(self).material_library_baseline->0,
                )
                &&& final(self).material_library_baseline is None
                &&& final(self).log@ == old(self).log@.push(final(self).log@.last())
                &&& final(self).log@.last()@ == reset_line(
                    old(self).material_library_assignments@.len(),
                )
            },
            final(self).goop_history == old(self).goop_history,
            final(self).document_dirty == old(self).document_dirty,
            final(self).goop_stroke == old(self).goop_stroke,
            final(self).selected_goop_layer == old(self).selected_goop_layer,
            final(self).model_preview == old(self).model_preview,
            final(self).mask_mask == old(self).mask_mask,
            final(self).mask_preview == old(self).mask_preview,
    {
        let applied = self.material_library_assignments.len();
        if !self.restore_material_library_baseline() {
            self.material_library_assignments.clear();
            return;
        }
        self.material_library_baseline = None;
        self.material_library_assignments.clear();
        let mut line = String::new();
        str_append(&mut line, "Material Library reset: ");
        string_of_seq_append(&mut line, &decimal_string(applied as u64));
        str_append(&mut line, " effect(s) removed");
        self.log.push(line);
    }
}

/// Each edit of the baseline is at its library path.
pub open spec fn taken_at_library_paths(b: MaterialLibraryBaseline) -> bool {
    &&& b.model matches Some(e) ==> e.raw_resource_path@ == library_model_path()
    &&& b.animation matches Some(e) ==> e.raw_resource_path@ == library_animation_path()
}

/// The first edit at `path` among `rs`.
pub open spec fn first_at(rs: Seq<ResourceView>, path: Seq<u8>) -> Option<ResourceView> {
    if edits_at(rs, path).len() > 0 {
        Some(edits_at(rs, path)[0])
    } else {
        None
    }
}

fn first_edit_at(resources: &Vec<ResourceEdit>, path: &[u8]) -> (r: Option<ResourceEdit>)
    ensures
        optional_edit_view(r) == first_at(resources_view(resources@), path@),
        r matches Some(e) ==> e.raw_resource_path@ == path@,
{
    let ghost all = resources_view(resources@);
    let mut i: usize = 0;
    while i < resources.len()
        invariant
            i <= resources@.len(),
            all == resources_view(resources@),
            all.take(i as int).filter(at(path@)) == Seq::<ResourceView>::empty(),
        decreases resources@.len() - i,
    {
        proof {
            assert(all.take(i + 1).drop_last() =~= all.take(i as int));
            lemma_filter_push(all.take(i as int), all[i as int], at(path@));
            assert(all.take(i + 1) =~= all.take(i as int).push(all[i as int]));
        }
        if bytes_equal(resources[i].raw_resource_path.as_slice(), path) {
            let e = duplicate_resource_edit(&resources[i]);
            proof {
                let rest = all.skip(i + 1);
                assert(all =~= all.take(i + 1) + rest);
                broadcast use Seq::filter_distributes_over_add;

                assert(all.take(i + 1).filter(at(path@)) =~= seq![all[i as int]]);
                assert(edits_at(all, path@) == seq![all[i as int]] + rest.filter(at(path@)));
            }
            return Some(e);
        }
        i += 1;
    }
    proof {
        assert(all.take(resources@.len() as int) =~= all);
    }
    None
}

impl SmsEditorApp {
    /// Once, before the Material Library's first install: what its two
    /// resources' edits are now. A baseline already taken stays.
    pub fn take_material_library_baseline(&mut self)
        ensures
            old(self).material_library_baseline is Some || old(self).document is None
                ==> final(self).material_library_baseline == old(self).material_library_baseline,
            old(self).material_library_baseline is None && old(self).document is Some ==> {
                &&& final(self).material_library_baseline matches Some(b)
                &&& optional_edit_view(final(self).material_library_baseline->0.model) == first_at(
                    resources_view(old(self).document->0.resource_edits@),
                    library_model_path(),
                )
                &&& optional_edit_view(final(self).material_library_baseline->0.animation) == first_at(
                    resources_view(old(self).document->0.resource_edits@),
                    library_animation_path(),
                )
            },
            old(self).material_library_baseline is None ==> (final(self).material_library_baseline matches Some(
                b,
            ) ==> taken_at_library_paths(b)),
            final(self).document == old(self).document,
            final(self).material_library_assignments == old(self).material_library_assignments,
            final(self).log == old(self).log,
            final(self).goop_history == old(self).goop_history,
            final(self).document_dirty == old(self).document_dirty,
            final(self).goop_stroke == old(self).goop_stroke,
            final(self).selected_goop_layer == old(self).selected_goop_layer,
            final(self).model_preview == old(self).model_preview,
    {
        if self.material_library_baseline.is_some() {
            return;
        }
        let baseline = match &self.document {
            Some(document) => MaterialLibraryBaseline {
                model: first_edit_at(&document.resource_edits, library_model_path_bytes()),
                animation: first_edit_at(&document.resource_edits, library_animation_path_bytes()),
            },
            None => return,
        };
        self.material_library_baseline = Some(baseline);
    }
}

impl SmsEditorApp {
    /// The first step of taking the last applied effect back off: an install
    /// cannot be picked apart, so the library's resources go back to the
    /// baseline and every effect but the last is handed back, in order, to be
    /// applied again. `None`, with nothing changed, when no effect is applied
    /// or there is no baseline to put back.
    pub fn begin_material_library_undo(&mut self) -> (remaining: Option<Vec<MaterialEffectAssignment>>)
        ensures
            old(self).material_library_assignments@.len() == 0 || old(self).material_library_baseline
                is None || old(self).document is None ==> {
                &&& remaining is None
                &&& final(self).document == old(self).document
                &&& final(self).material_library_assignments == old(self).material_library_assignments
            },
            old(self).material_library_assignments@.len() > 0 && old(self).material_library_baseline
                is Some && old(self).document is Some ==> {
                &&& remaining matches Some(r) && r@ == old(self).material_library_assignments@.drop_last()
                &&& library_restored(
                    old(self).document,
                    final(self).document,
                    old(self).material_library_baseline->0,
                )
                &&& final(self).material_library_assignments@ == Seq::<MaterialEffectAssignment>::empty()
            },
            final(self).material_library_baseline == old(self).material_library_baseline,
            final(self).log == old(self).log,
            final(self).goop_history == old(self).goop_history,
            final(self).document_dirty == old(self).document_dirty,
            final(self).goop_stroke == old(self).goop_stroke,
            final(self).selected_goop_layer == old(self).selected_goop_layer,
            final(self).model_preview == old(self).model_preview,
    {
        if self.material_library_assignments.len() == 0 {
            return None;
        }
        let mut remaining: Vec<MaterialEffectAssignment> = Vec::new();
        let mut i: usize = 0;
        let last = self.material_library_assignments.len() - 1;
        while i < last
            invariant
                i <= last,
                last == self.material_library_assignments@.len() - 1,
                remaining@ == self.material_library_assignments@.take(i as int),
            decreases last - i,
        {
            remaining.push(self.material_library_assignments[i]);
            proof {
                assert(self.material_library_assignments@.take(i + 1) =~= self.material_library_assignments@.take(
                    i as int,
                ).push(self.material_library_assignments@[i as int]));
            }
            i += 1;
        }
        if !self.restore_material_library_baseline() {
            return None;
        }
        self.material_library_assignments.clear();
        Some(remaining)
    }
}

} // verus!
