//! The Mask Tool's wash rules: which texels show goop at a wash level, the
//! material stage that carries a model's wash, alpha tests, and reading a
//! texture as a mask.
use vstd::prelude::*;
use crate::editor::{same_but_log, SmsEditorApp};
use crate::text::{chars_of, decimal, decimal_string, lower_seq, occurs_at, to_ascii_lower, find_pattern, string_of};

verus! {

/// Whether goop shows at a texel: the game's own comparison, mask value at
/// most the wash level.
pub fn goop_is_visible(mask_value: u8, level: u8) -> (b: bool)
    ensures
        b == (mask_value <= level),
{
    mask_value <= level
}

/// Whether a texture's name marks a toon shading ramp: it contains `toon` in
/// any case.
pub fn is_toon_ramp(name: &str) -> (b: bool)
    ensures
        b == exists|i: int| occurs_at(lower_seq(name@), seq!['t', 'o', 'o', 'n'], i),
{
    let lowered = to_ascii_lower(&chars_of(name));
    let toon = vec!['t', 'o', 'o', 'n'];
    proof {
        assert(toon@ =~= seq!['t', 'o', 'o', 'n']);
    }
    match find_pattern(&lowered, &toon) {
        Some(_) => true,
        None => false,
    }
}

/// A material alpha test: two comparisons against reference alphas and the
/// operation joining them.
#[derive(Debug, Clone, Copy)]
pub struct J3dAlphaCompare {
    pub comp0: u8,
    pub ref0: u8,
    pub op: u8,
    pub comp1: u8,
    pub ref1: u8,
}

/// One GX alpha comparison: never, less, equal, less or equal, greater, not
/// equal, greater or equal, always.
pub open spec fn alpha_test(function: u8, reference: u8, alpha: u8) -> bool {
    if function == 0 {
        false
    } else if function == 1 {
        alpha < reference
    } else if function == 2 {
        alpha == reference
    } else if function == 3 {
        alpha <= reference
    } else if function == 4 {
        alpha > reference
    } else if function == 5 {
        alpha != reference
    } else if function == 6 {
        alpha >= reference
    } else {
        true
    }
}

/// Whether a pixel survives the alpha test: both comparisons joined by and,
/// or, exclusive or, or its negation.
pub open spec fn alpha_passes(c: J3dAlphaCompare, alpha: u8) -> bool {
    let first = alpha_test(c.comp0, c.ref0, alpha);
    let second = alpha_test(c.comp1, c.ref1, alpha);
    if c.op == 0 {
        first && second
    } else if c.op == 1 {
        first || second
    } else if c.op == 2 {
        first != second
    } else if c.op == 3 {
        first == second
    } else {
        true
    }
}

fn alpha_test_exec(function: u8, reference: u8, alpha: u8) -> (b: bool)
    ensures
        b == alpha_test(function, reference, alpha),
{
    match function {
        0 => false,
        1 => alpha < reference,
        2 => alpha == reference,
        3 => alpha <= reference,
        4 => alpha > reference,
        5 => alpha != reference,
        6 => alpha >= reference,
        _ => true,
    }
}

pub fn alpha_compare_passes(compare: &J3dAlphaCompare, alpha: u8) -> (b: bool)
    ensures
        b == alpha_passes(*compare, alpha),
{
    let first = alpha_test_exec(compare.comp0, compare.ref0, alpha);
    let second = alpha_test_exec(compare.comp1, compare.ref1, alpha);
    match compare.op {
        0 => first && second,
        1 => first || second,
        2 => first != second,
        3 => first == second,
        _ => true,
    }
}

/// One TEV stage as the wash detection reads it.
#[derive(Debug, Clone, Copy)]
pub struct TevStage {
    pub color_op: u8,
    pub alpha_op: u8,
    pub konst_color: u8,
    pub konst_alpha: u8,
    pub tex_map: Option<u8>,
    pub tex_coord: Option<u8>,
}

/// A stage is the wash's comparison when it compares (operation 8 or above)
/// and takes its level from a konst register's alpha (selectors 0x1c-0x1f).
pub open spec fn wash_comparison(s: TevStage) -> bool {
    (s.color_op >= 8 || s.alpha_op >= 8) && 0x1c <= s.konst_alpha <= 0x1f
}

pub fn stage_is_wash_comparison(stage: &TevStage) -> (b: bool)
    ensures
        b == wash_comparison(*stage),
{
    (stage.color_op >= 8 || stage.alpha_op >= 8) && 0x1c <= stage.konst_alpha && stage.konst_alpha
        <= 0x1f
}

/// The konst register a wash comparison sweeps: colour selectors 12-15 name
/// registers 0-3 whole, selectors 16-31 one channel of register
/// `(selector - 16) & 3`, anything else register 0.
pub open spec fn wash_konst(s: TevStage) -> usize {
    if 12 <= s.konst_color <= 15 {
        (s.konst_color - 12) as usize
    } else if 16 <= s.konst_color <= 31 {
        ((s.konst_color - 16) % 4) as usize
    } else {
        0
    }
}

pub fn wash_konst_index(stage: &TevStage) -> (index: usize)
    ensures
        index == wash_konst(*stage),
        index < 4,
{
    if 12 <= stage.konst_color && stage.konst_color <= 15 {
        (stage.konst_color - 12) as usize
    } else if 16 <= stage.konst_color && stage.konst_color <= 31 {
        let k = stage.konst_color - 16;
        assert(k & 3 == k % 4) by (bit_vector);
        (k & 3) as usize
    } else {
        0
    }
}

/// A material of the Mask Tool's actor: its TEV stages, the texture each
/// texture map binds, and the source of each texture coordinate generator.
#[derive(Debug, Clone)]
pub struct MaskMaterial {
    pub tev_stages: Vec<TevStage>,
    pub texture_indices: Vec<Option<usize>>,
    pub tex_gen_sources: Vec<u8>,
}

/// A texture of the Mask Tool's actor, decoded to RGBA.
#[derive(Debug, Clone)]
pub struct MaskTexture {
    pub name: String,
    pub width: u16,
    pub height: u16,
    pub rgba: Vec<u8>,
}

/// The actor the Mask Tool has loaded: its materials and textures.
#[derive(Debug, Clone)]
pub struct MaskPreview {
    pub materials: Vec<MaskMaterial>,
    pub textures: Vec<MaskTexture>,
}

/// Where the Mask Tool's mask comes from.
#[derive(Debug, Clone, Copy, PartialEq, Eq)]
pub enum MaskTextureSource {
    Generated,
    Model(usize),
    GoopStyle(usize),
}

/// The stored UV set a texture coordinate generator reads: sources 4 to 11
/// are UV0 to UV7; other generators, or a missing one, leave the slot's own
/// number.
pub open spec fn stored_coord(m: MaskMaterial, coord: u8) -> usize {
    if (coord as int) < m.tex_gen_sources@.len() && 4 <= m.tex_gen_sources@[coord as int] <= 11 {
        (m.tex_gen_sources@[coord as int] - 4) as usize
    } else {
        coord as usize
    }
}

/// The mask texture and UV set a stage's wash comparison names, when it is
/// one and its texture exists.
pub open spec fn stage_binding(m: MaskMaterial, s: TevStage, texture_count: nat) -> Option<(usize, usize)> {
    if !wash_comparison(s) || s.tex_map is None || s.tex_coord is None {
        None
    } else {
        let map = s.tex_map->0 as int;
        if map < m.texture_indices@.len() && (m.texture_indices@[map] matches Some(t) && t < texture_count) {
            Some((m.texture_indices@[map]->0, stored_coord(m, s.tex_coord->0)))
        } else {
            None
        }
    }
}

/// The first binding among a material's stages from position `i` on.
pub open spec fn material_binding(m: MaskMaterial, i: int, texture_count: nat) -> Option<(usize, usize)>
    decreases m.tev_stages@.len() - i,
{
    if i < 0 || i >= m.tev_stages@.len() {
        None
    } else {
        match stage_binding(m, m.tev_stages@[i], texture_count) {
            Some(b) => Some(b),
            None => material_binding(m, i + 1, texture_count),
        }
    }
}

/// The first binding among the materials from position `i` on.
pub open spec fn preview_binding(ms: Seq<MaskMaterial>, i: int, texture_count: nat) -> Option<(usize, usize)>
    decreases ms.len() - i,
{
    if i < 0 || i >= ms.len() {
        None
    } else {
        match material_binding(ms[i], 0, texture_count) {
            Some(b) => Some(b),
            None => preview_binding(ms, i + 1, texture_count),
        }
    }
}

/// A wash comparison names the texture its texture map binds, and reads the
/// UV set that its texture coordinate generator takes from the stored UVs:
/// a generator whose source is 4 to 11 reads UV0 to UV7; a slot with any
/// other source, or with no generator, keeps its own number.
pub proof fn wash_reads_the_generated_uv_set(m: MaskMaterial, s: TevStage, texture_count: nat)
    ensures
        stage_binding(m, s, texture_count) matches Some((t, c)) ==> {
            &&& s.tex_map matches Some(map) && (map as int) < m.texture_indices@.len() && m.texture_indices@[
                map as int] == Some(t) && t < texture_count
            &&& s.tex_coord matches Some(k) && if (k as int) < m.tex_gen_sources@.len() && 4 <= m.tex_gen_sources@[
                k as int] && m.tex_gen_sources@[k as int] <= 11 {
                c as int == m.tex_gen_sources@[k as int] - 4
            } else {
                c as int == k as int
            }
        },
{
}

/// Whatever binding the actor reports comes from one wash comparison: a
/// stage of one of its materials.
pub proof fn reported_binding_is_a_stage_binding(ms: Seq<MaskMaterial>, i: int, texture_count: nat)
    ensures
        preview_binding(ms, i, texture_count) matches Some(b) ==> exists|a: int, j: int|
            0 <= a < ms.len() && 0 <= j < ms[a].tev_stages@.len() && #[trigger] stage_binding(
                ms[a],
                ms[a].tev_stages@[j],
                texture_count,
            ) == Some(b),
    decreases ms.len() - i,
{
    if 0 <= i < ms.len() {
        reported_binding_is_a_stage_binding(ms, i + 1, texture_count);
        lemma_material_binding_is_a_stage_binding(ms[i], 0, texture_count);
        if let Some(b) = material_binding(ms[i], 0, texture_count) {
            let j = choose|j: int|
                0 <= j < ms[i].tev_stages@.len() && #[trigger] stage_binding(ms[i], ms[i].tev_stages@[j], texture_count)
                    == Some(b);
            assert(stage_binding(ms[i], ms[i].tev_stages@[j], texture_count) == Some(b));
        }
    }
}

proof fn lemma_material_binding_is_a_stage_binding(m: MaskMaterial, i: int, texture_count: nat)
    ensures
        material_binding(m, i, texture_count) matches Some(b) ==> exists|j: int|
            0 <= j < m.tev_stages@.len() && #[trigger] stage_binding(m, m.tev_stages@[j], texture_count) == Some(b),
    decreases m.tev_stages@.len() - i,
{
    if 0 <= i < m.tev_stages@.len() {
        lemma_material_binding_is_a_stage_binding(m, i + 1, texture_count);
        if stage_binding(m, m.tev_stages@[i], texture_count) is Some {
            assert(stage_binding(m, m.tev_stages@[i], texture_count) == material_binding(m, i, texture_count));
        }
    }
}

fn stage_binding_of(m: &MaskMaterial, s: &TevStage, texture_count: usize) -> (r: Option<(usize, usize)>)
    ensures
        r == stage_binding(*m, *s, texture_count as nat),
{
    if !stage_is_wash_comparison(s) {
        return None;
    }
    let map = match s.tex_map {
        Some(map) => map,
        None => return None,
    };
    let coord = match s.tex_coord {
        Some(coord) => coord,
        None => return None,
    };
    if map as usize >= m.texture_indices.len() {
        return None;
    }
    let texture_index = match m.texture_indices[map as usize] {
        Some(t) => t,
        None => return None,
    };
    if texture_index >= texture_count {
        return None;
    }
    let stored = if (coord as usize) < m.tex_gen_sources.len() && 4 <= m.tex_gen_sources[coord as usize]
        && m.tex_gen_sources[coord as usize] <= 11 {
        (m.tex_gen_sources[coord as usize] - 4) as usize
    } else {
        coord as usize
    };
    Some((texture_index, stored))
}

fn material_binding_of(m: &MaskMaterial, texture_count: usize) -> (r: Option<(usize, usize)>)
    ensures
        r == material_binding(*m, 0, texture_count as nat),
{
    let mut i: usize = 0;
    while i < m.tev_stages.len()
        invariant
            i <= m.tev_stages@.len(),
            material_binding(*m, 0, texture_count as nat) == material_binding(*m, i as int, texture_count as nat),
        decreases m.tev_stages@.len() - i,
    {
        match stage_binding_of(m, &m.tev_stages[i], texture_count) {
            Some(b) => return Some(b),
            None => {},
        }
        i += 1;
    }
    None
}

impl SmsEditorApp {
    /// The mask texture and UV set the loaded actor's wash comparison reads:
    /// the first wash comparison, over the materials in order, whose texture
    /// exists.
    pub fn authored_goop_binding(&self) -> (r: Option<(usize, usize)>)
        ensures
            r == match self.mask_preview {
                Some(p) => preview_binding(p.materials@, 0, p.textures@.len()),
                None => None,
            },
    {
        let preview = match &self.mask_preview {
            Some(p) => p,
            None => return None,
        };
        let count = preview.textures.len();
        let mut i: usize = 0;
        while i < preview.materials.len()
            invariant
                i <= preview.materials@.len(),
                self.mask_preview == Some(*preview),
                count == preview.textures@.len(),
                preview_binding(preview.materials@, 0, count as nat) == preview_binding(
                    preview.materials@,
                    i as int,
                    count as nat,
                ),
            decreases preview.materials@.len() - i,
        {
            match material_binding_of(&preview.materials[i], count) {
                Some(b) => return Some(b),
                None => {},
            }
            i += 1;
        }
        None
    }

    /// The UV set the wash comparison reads, where the actor authors one.
    pub fn authored_goop_coord(&self) -> (r: Option<usize>)
        ensures
            r == match self.mask_preview {
                Some(p) => match preview_binding(p.materials@, 0, p.textures@.len()) {
                    Some(b) => Some(b.1),
                    None => None,
                },
                None => None,
            },
    {
        match self.authored_goop_binding() {
            Some((_, coord)) => Some(coord),
            None => None,
        }
    }

    /// How a mask value reads for the wash: inverted when the tool inverts.
    pub fn mask_reading(&self, value: u8) -> (r: u8)
        ensures
            r == if self.mask_wash_invert {
                (255 - value) as u8
            } else {
                value
            },
    {
        if self.mask_wash_invert {
            255 - value
        } else {
            value
        }
    }

    /// Reports that the glTF export is not available yet.
    pub fn export_mask_gltf(&mut self)
        ensures
            same_but_log(*old(self), *final(self)),
            final(self).log@ == old(self).log@.push(final(self).log@.last()),
            final(self).log@.last()@ == "Export glTF is not wired yet: it will pack the body UV and the goop UV as separate sets, each with its own texture."@,
    {
        let ghost before = self.log@;
        self.log.push(
            "Export glTF is not wired yet: it will pack the body UV and the goop UV as separate sets, each with its own texture.".to_owned(),
        );
        proof {
            assert(self.log@ =~= before.push(self.log@.last()));
        }
    }

    /// Reports that reimporting an edited UV set is not available yet.
    pub fn reimport_mask_uv(&mut self)
        ensures
            same_but_log(*old(self), *final(self)),
            final(self).log@ == old(self).log@.push(final(self).log@.last()),
            final(self).log@.last()@ == "Reimport UV is not wired yet: it will read the goop set from an edited glTF."@,
    {
        let ghost before = self.log@;
        self.log.push(
            "Reimport UV is not wired yet: it will read the goop set from an edited glTF.".to_owned(),
        );
        proof {
            assert(self.log@ =~= before.push(self.log@.last()));
        }
    }
}


/// The mask a model texture reads as: the red channel of its largest
/// top-left square, a missing texel reading as zero; none for an empty
/// texture.
pub open spec fn texture_mask(t: MaskTexture) -> Option<(usize, Seq<u8>)> {
    let size = if t.width <= t.height {
        t.width as int
    } else {
        t.height as int
    };
    if size == 0 {
        None
    } else {
        Some(
            (
                size as usize,
                Seq::new(
                    (size * size) as nat,
                    |k: int| texel_red(t, k / size, k % size),
                ),
            ),
        )
    }
}

/// The red channel of texel `(x, y)`, zero past the end of the data.
pub open spec fn texel_red(t: MaskTexture, y: int, x: int) -> u8 {
    let source = (y * t.width + x) * 4;
    if source < t.rgba@.len() {
        t.rgba@[source]
    } else {
        0
    }
}

proof fn lemma_square_index(size: int, y: int, x: int)
    requires
        0 <= y < size,
        0 <= x < size,
    ensures
        (y * size + x) / size == y,
        (y * size + x) % size == x,
        y * size + x < size * size,
        0 <= y * size,
{
    assert((y * size + x) / size == y && (y * size + x) % size == x) by (nonlinear_arith)
        requires
            0 <= y < size,
            0 <= x < size,
    ;
    assert(y * size + x < size * size) by (nonlinear_arith)
        requires
            0 <= y < size,
            0 <= x < size,
    ;
    assert(0 <= y * size) by (nonlinear_arith)
        requires
            0 <= y < size,
    ;
}

impl SmsEditorApp {
    /// Reads a model texture as a wash mask.
    pub fn mask_from_texture(texture: &MaskTexture) -> (r: Option<(usize, Vec<u8>)>)
        ensures
            match texture_mask(*texture) {
                Some((size, values)) => r matches Some((s, v)) && s == size && v@ == values,
                None => r is None,
            },
    {
        let size: usize = if texture.width <= texture.height {
            texture.width as usize
        } else {
            texture.height as usize
        };
        if size == 0 {
            return None;
        }
        assert(size * size <= 65535 * 65535) by (nonlinear_arith)
            requires
                size <= 65535,
        ;
        let width = texture.width as u64;
        let rgba_len = texture.rgba.len();
        let len = rgba_len as u64;
        assert(len as int == texture.rgba@.len());
        let ghost expected = Seq::new((size * size) as nat, |k: int| texel_red(*texture, k / (size as int), k % (size as int)));
        let mut values: Vec<u8> = Vec::new();
        let mut y: usize = 0;
        while y < size
            invariant
                0 < size <= 65535,
                size == (if texture.width <= texture.height {
                    texture.width as int
                } else {
                    texture.height as int
                }),
                width == texture.width,
                len == texture.rgba@.len(),
                texture.rgba@.len() <= usize::MAX,
                y <= size,
                values@.len() == y * size,
                expected == Seq::new((size * size) as nat, |k: int| texel_red(*texture, k / (size as int), k % (size as int))),
                forall|k: int| 0 <= k < values@.len() ==> #[trigger] values@[k] == expected[k],
            decreases size - y,
        {
            let mut x: usize = 0;
            while x < size
                invariant
                    0 < size <= 65535,
                    width == texture.width,
                    len == texture.rgba@.len(),
                    texture.rgba@.len() <= usize::MAX,
                    y < size,
                    x <= size,
                    values@.len() == y * size + x,
                    expected == Seq::new((size * size) as nat, |k: int| texel_red(*texture, k / (size as int), k % (size as int))),
                    forall|k: int| 0 <= k < values@.len() ==> #[trigger] values@[k] == expected[k],
                decreases size - x,
            {
                assert(y as u64 * width + x as u64 <= 65535 * 65535 + 65535) by (nonlinear_arith)
                    requires
                        y < 65535,
                        width <= 65535,
                        x <= 65535,
                ;
                let source = (y as u64 * width + x as u64) * 4;
                let value = if source < len {
                    let at = source as usize;
                    assert(at as int == source as int);
                    texture.rgba[at]
                } else {
                    0
                };
                proof {
                    lemma_square_index(size as int, y as int, x as int);
                    let k = y * size + x;
                    assert(expected[k as int] == texel_red(*texture, y as int, x as int));
                    assert(source as int == (y * texture.width + x) * 4);
                    assert(value == texel_red(*texture, y as int, x as int));
                }
                let ghost before = values@;
                values.push(value);
                proof {
                    assert forall|k: int| 0 <= k < values@.len() implies #[trigger] values@[k] == expected[k] by {
                        if k < before.len() {
                            assert(values@[k] == before[k]);
                        }
                    }
                }
                x += 1;
            }
            proof {
                assert((y + 1) * size == y * size + size) by (nonlinear_arith);
            }
            y += 1;
        }
        assert(values@ =~= expected);
        Some((size, values))
    }

    /// The wash mask the Mask Tool works on: the generated one, once made,
    /// or the chosen model texture read as a mask.
    pub fn active_mask(&self) -> (r: Option<(usize, Vec<u8>)>)
        ensures
            match self.mask_mask_source {
                MaskTextureSource::Model(index) => match self.mask_preview {
                    Some(p) => if index < p.textures@.len() {
                        match texture_mask(p.textures@[index as int]) {
                            Some((size, values)) => r matches Some((s, v)) && s == size && v@ == values,
                            None => r is None,
                        }
                    } else {
                        r is None
                    },
                    None => r is None,
                },
                _ => if self.mask_generated {
                    r matches Some((s, v)) && s == self.mask_mask_size && v@ == self.mask_mask@
                } else {
                    r is None
                },
            },
    {
        match self.mask_mask_source {
            MaskTextureSource::Model(index) => {
                let preview = match &self.mask_preview {
                    Some(p) => p,
                    None => return None,
                };
                if index >= preview.textures.len() {
                    return None;
                }
                Self::mask_from_texture(&preview.textures[index])
            },
            _ => if self.mask_generated {
                Some((self.mask_mask_size, self.mask_mask.clone()))
            } else {
                None
            },
        }
    }
}

impl MaskPreview {
    /// The textures' names with their sizes, for the assignment lists.
    pub fn texture_names(&self) -> (names: Vec<(usize, String)>)
        ensures
            names@.len() == self.textures@.len(),
            forall|i: int| 0 <= i < names@.len() ==> (#[trigger] names@[i]).0 == i && names@[i].1@
                == self.textures@[i].name@ + " ("@ + decimal(self.textures@[i].width as nat) + "x"@
                + decimal(self.textures@[i].height as nat) + ")"@,
    {
        let mut names: Vec<(usize, String)> = Vec::new();
        let mut i: usize = 0;
        while i < self.textures.len()
            invariant
                i <= self.textures@.len(),
                names@.len() == i,
                forall|k: int| 0 <= k < i ==> (#[trigger] names@[k]).0 == k && names@[k].1@
                    == self.textures@[k].name@ + " ("@ + decimal(self.textures@[k].width as nat) + "x"@
                    + decimal(self.textures@[k].height as nat) + ")"@,
            decreases self.textures@.len() - i,
        {
            let t = &self.textures[i];
            let mut v = chars_of(t.name.as_str());
            let mut open = chars_of(" (");
            v.append(&mut open);
            let mut w = decimal_string(t.width as u64);
            v.append(&mut w);
            let mut x = chars_of("x");
            v.append(&mut x);
            let mut h = decimal_string(t.height as u64);
            v.append(&mut h);
            let mut close = chars_of(")");
            v.append(&mut close);
            names.push((i, string_of(&v)));
            i += 1;
        }
        names
    }
}

} // verus!
