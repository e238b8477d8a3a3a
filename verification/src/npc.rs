//! NPC colour variants for the model preview: the per-instance body and
//! cloth colours of Pianta and Noki villagers, their pollution register, the
//! nozzle box's item colour, and accessory colour changes.
use vstd::prelude::*;
use crate::editor::{raw_param, raw_param_of, SceneObject};
use crate::text::{
    chars_of, ends_with, eq_ignore_ascii_case, eq_ignore_case, has_prefix, has_suffix, lower_seq,
    starts_with, to_ascii_lower, digits_value, all_ascii_digits, is_ascii_digit, char_is_ascii_digit,
};

verus! {

/// A model material's colour registers as the preview renders them.
#[derive(Debug, Clone)]
pub struct J3dMaterial {
    pub name: String,
    pub material_index: usize,
    pub material_colors: [[u8; 4]; 2],
    pub tev_colors: [[i16; 4]; 4],
    pub tev_k_colors: [[u8; 4]; 4],
}

/// `s` as a decimal `i32` (`str::parse::<i32>`): an optional sign and at
/// least one digit, in range.
pub open spec fn parse_i32(s: Seq<char>) -> Option<int> {
    let negative = s.len() > 0 && s[0] == '-';
    let signed = s.len() > 0 && (s[0] == '-' || s[0] == '+');
    let digits = if signed {
        s.drop_first()
    } else {
        s
    };
    if digits.len() == 0 || !all_ascii_digits(digits) {
        None
    } else {
        let v: int = if negative {
            -digits_value(digits)
        } else {
            digits_value(digits) as int
        };
        if i32::MIN <= v <= i32::MAX {
            Some(v)
        } else {
            None
        }
    }
}

proof fn lemma_digits_value_step(d: Seq<char>, i: int)
    requires
        0 <= i < d.len(),
    ensures
        digits_value(d.take(i + 1)) == digits_value(d.take(i)) * 10 + ((d[i] as u32) - 48) as nat,
{
    assert(d.take(i + 1).drop_last() =~= d.take(i));
}

proof fn lemma_digits_value_grows(d: Seq<char>, i: int, j: int)
    requires
        0 <= i <= j <= d.len(),
        all_ascii_digits(d),
    ensures
        digits_value(d.take(i)) <= digits_value(d.take(j)),
    decreases j - i,
{
    if i < j {
        lemma_digits_value_grows(d, i, j - 1);
        lemma_digits_value_step(d, j - 1);
    }
}

/// Parses a decimal `i32`.
pub fn parse_i32_of(s: &str) -> (r: Option<i32>)
    ensures
        match r {
            Some(v) => parse_i32(s@) == Some(v as int),
            None => parse_i32(s@) is None,
        },
{
    let chars = chars_of(s);
    let n = chars.len();
    if n == 0 {
        return None;
    }
    let negative = chars[0] == '-';
    let start: usize = if chars[0] == '-' || chars[0] == '+' {
        1
    } else {
        0
    };
    let ghost digits = chars@.skip(start as int);
    proof {
        let signed = chars@[0] == '-' || chars@[0] == '+';
        if signed {
            assert(digits =~= chars@.drop_first());
        } else {
            assert(digits =~= chars@);
        }
    }
    if start == n {
        proof {
            assert(digits.len() == 0);
        }
        return None;
    }
    let mut value: i64 = 0;
    let mut i: usize = start;
    while i < n
        invariant
            start <= i <= n,
            n == chars@.len(),
            n > 0,
            chars@ == s@,
            negative == (chars@[0] == '-'),
            digits == chars@.skip(start as int),
            digits == (if chars@[0] == '-' || chars@[0] == '+' {
                chars@.drop_first()
            } else {
                chars@
            }),
            forall|k: int| 0 <= k < i - start ==> is_ascii_digit(#[trigger] digits[k]),
            value as int == digits_value(digits.take(i - start)),
            value <= 2147483648,
        decreases n - i,
    {
        let c = chars[i];
        assert(digits[i - start] == chars@[i as int]);
        if !char_is_ascii_digit(c) {
            proof {
                assert(!is_ascii_digit(digits[i - start]));
                assert(!all_ascii_digits(digits));
            }
            return None;
        }
        proof {
            lemma_digits_value_step(digits, i - start);
            assert(digits.take(i - start + 1).drop_last() =~= digits.take(i - start));
        }
        let next = value * 10 + (c as u32 - 48) as i64;
        if next > 2147483648 {
            proof {
                // Any further digits only make the value larger.
                assert(digits_value(digits.take(i - start + 1)) > 2147483648);
                if all_ascii_digits(digits) {
                    lemma_digits_value_grows(digits, i - start + 1, digits.len() as int);
                    assert(digits.take(digits.len() as int) =~= digits);
                    assert(digits_value(digits) > 2147483648);
                }
            }
            return None;
        }
        value = next;
        i += 1;
    }
    proof {
        assert(digits.take(n - start) =~= digits);
    }
    if negative {
        Some((-value) as i32)
    } else if value <= 2147483647 {
        Some(value as i32)
    } else {
        None
    }
}

pub open spec fn monte_m_body() -> Seq<[i16; 4]> {
    seq![[100i16, 255i16, 300i16, 255i16], [120i16, 120i16, 300i16, 255i16], [350i16, 300i16, 0i16, 255i16], [200i16, 70i16, 0i16, 255i16], [300i16, 130i16, 255i16, 255i16], [255i16, 350i16, 0i16, 255i16], [400i16, 255i16, 255i16, 255i16], [320i16, 140i16, 0i16, 255i16], [200i16, 255i16, 400i16, 255i16], [400i16, 250i16, 100i16, 255i16]]
}

fn monte_m_body_table() -> (t: [[i16; 4]; 10])
    ensures
        t@ == monte_m_body(),
{
    let t = [
        [100, 255, 300, 255],
        [120, 120, 300, 255],
        [350, 300, 0, 255],
        [200, 70, 0, 255],
        [300, 130, 255, 255],
        [255, 350, 0, 255],
        [400, 255, 255, 255],
        [320, 140, 0, 255],
        [200, 255, 400, 255],
        [400, 250, 100, 255],
    ];
    proof {
        assert(t@ =~= monte_m_body());
    }
    t
}

pub open spec fn monte_ma_cloth_reg1() -> Seq<[i16; 4]> {
    seq![[255i16, 255i16, 255i16, 255i16], [255i16, 255i16, 255i16, 255i16], [255i16, 255i16, 255i16, 255i16], [200i16, 200i16, 170i16, 255i16], [50i16, 50i16, 50i16, 255i16], [150i16, 200i16, 255i16, 255i16], [0i16, 70i16, 150i16, 255i16], [400i16, 300i16, 200i16, 255i16], [255i16, 255i16, 255i16, 255i16], [255i16, 255i16, 255i16, 255i16], [255i16, 255i16, 150i16, 255i16]]
}

fn monte_ma_cloth_reg1_table() -> (t: [[i16; 4]; 11])
    ensures
        t@ == monte_ma_cloth_reg1(),
{
    let t = [
        [255, 255, 255, 255],
        [255, 255, 255, 255],
        [255, 255, 255, 255],
        [200, 200, 170, 255],
        [50, 50, 50, 255],
        [150, 200, 255, 255],
        [0, 70, 150, 255],
        [400, 300, 200, 255],
        [255, 255, 255, 255],
        [255, 255, 255, 255],
        [255, 255, 150, 255],
    ];
    proof {
        assert(t@ =~= monte_ma_cloth_reg1());
    }
    t
}

pub open spec fn monte_ma_cloth_reg2() -> Seq<[i16; 4]> {
    seq![[250i16, 130i16, 50i16, 255i16], [50i16, 130i16, 100i16, 255i16], [150i16, 180i16, 20i16, 255i16], [200i16, 200i16, 170i16, 255i16], [50i16, 50i16, 50i16, 255i16], [150i16, 200i16, 255i16, 255i16], [0i16, 70i16, 150i16, 255i16], [230i16, 150i16, 100i16, 255i16], [60i16, 150i16, 230i16, 255i16], [180i16, 150i16, 200i16, 255i16], [100i16, 220i16, 300i16, 255i16]]
}

fn monte_ma_cloth_reg2_table() -> (t: [[i16; 4]; 11])
    ensures
        t@ == monte_ma_cloth_reg2(),
{
    let t = [
        [250, 130, 50, 255],
        [50, 130, 100, 255],
        [150, 180, 20, 255],
        [200, 200, 170, 255],
        [50, 50, 50, 255],
        [150, 200, 255, 255],
        [0, 70, 150, 255],
        [230, 150, 100, 255],
        [60, 150, 230, 255],
        [180, 150, 200, 255],
        [100, 220, 300, 255],
    ];
    proof {
        assert(t@ =~= monte_ma_cloth_reg2());
    }
    t
}

pub open spec fn monte_mb_body() -> Seq<[i16; 4]> {
    seq![[160i16, 200i16, 300i16, 255i16], [255i16, 160i16, 150i16, 255i16], [300i16, 200i16, 80i16, 255i16], [200i16, 300i16, 100i16, 255i16]]
}

fn monte_mb_body_table() -> (t: [[i16; 4]; 4])
    ensures
        t@ == monte_mb_body(),
{
    let t = [
        [160, 200, 300, 255],
        [255, 160, 150, 255],
        [300, 200, 80, 255],
        [200, 300, 100, 255],
    ];
    proof {
        assert(t@ =~= monte_mb_body());
    }
    t
}

pub open spec fn monte_mb_cloth() -> Seq<[i16; 4]> {
    seq![[70i16, 130i16, 200i16, 255i16], [200i16, 20i16, 20i16, 255i16], [130i16, 30i16, 80i16, 255i16], [130i16, 200i16, 80i16, 255i16], [230i16, 200i16, 80i16, 255i16], [50i16, 100i16, 150i16, 255i16]]
}

fn monte_mb_cloth_table() -> (t: [[i16; 4]; 6])
    ensures
        t@ == monte_mb_cloth(),
{
    let t = [
        [70, 130, 200, 255],
        [200, 20, 20, 255],
        [130, 30, 80, 255],
        [130, 200, 80, 255],
        [230, 200, 80, 255],
        [50, 100, 150, 255],
    ];
    proof {
        assert(t@ =~= monte_mb_cloth());
    }
    t
}

pub open spec fn monte_mc_cloth_reg1() -> Seq<[i16; 4]> {
    seq![[230i16, 230i16, 210i16, 255i16], [150i16, 70i16, 0i16, 255i16], [230i16, 230i16, 210i16, 255i16], [0i16, 70i16, 150i16, 255i16], [50i16, 150i16, 130i16, 255i16], [60i16, 40i16, 0i16, 255i16], [0i16, 100i16, 100i16, 255i16], [0i16, 150i16, 200i16, 255i16], [0i16, 50i16, 100i16, 255i16], [100i16, 100i16, 0i16, 255i16], [100i16, 0i16, 0i16, 255i16]]
}

fn monte_mc_cloth_reg1_table() -> (t: [[i16; 4]; 11])
    ensures
        t@ == monte_mc_cloth_reg1(),
{
    let t = [
        [230, 230, 210, 255],
        [150, 70, 0, 255],
        [230, 230, 210, 255],
        [0, 70, 150, 255],
        [50, 150, 130, 255],
        [60, 40, 0, 255],
        [0, 100, 100, 255],
        [0, 150, 200, 255],
        [0, 50, 100, 255],
        [100, 100, 0, 255],
        [100, 0, 0, 255],
    ];
    proof {
        assert(t@ =~= monte_mc_cloth_reg1());
    }
    t
}

pub open spec fn monte_mc_cloth_reg2() -> Seq<[i16; 4]> {
    seq![[230i16, 230i16, 210i16, 255i16], [150i16, 70i16, 0i16, 255i16], [0i16, 70i16, 150i16, 255i16], [230i16, 230i16, 210i16, 255i16], [230i16, 230i16, 210i16, 255i16], [160i16, 150i16, 60i16, 255i16], [0i16, 100i16, 100i16, 255i16], [0i16, 150i16, 200i16, 255i16], [0i16, 50i16, 100i16, 255i16], [0i16, 0i16, 0i16, 255i16], [0i16, 0i16, 0i16, 255i16]]
}

fn monte_mc_cloth_reg2_table() -> (t: [[i16; 4]; 11])
    ensures
        t@ == monte_mc_cloth_reg2(),
{
    let t = [
        [230, 230, 210, 255],
        [150, 70, 0, 255],
        [0, 70, 150, 255],
        [230, 230, 210, 255],
        [230, 230, 210, 255],
        [160, 150, 60, 255],
        [0, 100, 100, 255],
        [0, 150, 200, 255],
        [0, 50, 100, 255],
        [0, 0, 0, 255],
        [0, 0, 0, 255],
    ];
    proof {
        assert(t@ =~= monte_mc_cloth_reg2());
    }
    t
}

pub open spec fn monte_md_cloth() -> Seq<[i16; 4]> {
    seq![[350i16, 360i16, 340i16, 255i16], [50i16, 100i16, 0i16, 255i16], [150i16, 0i16, 0i16, 255i16], [0i16, 300i16, 350i16, 255i16], [0i16, 100i16, 250i16, 255i16]]
}

fn monte_md_cloth_table() -> (t: [[i16; 4]; 5])
    ensures
        t@ == monte_md_cloth(),
{
    let t = [
        [350, 360, 340, 255],
        [50, 100, 0, 255],
        [150, 0, 0, 255],
        [0, 300, 350, 255],
        [0, 100, 250, 255],
    ];
    proof {
        assert(t@ =~= monte_md_cloth());
    }
    t
}

pub open spec fn monte_w_body() -> Seq<[i16; 4]> {
    seq![[300i16, 100i16, 200i16, 255i16], [400i16, 150i16, 0i16, 255i16], [300i16, 330i16, 0i16, 255i16], [400i16, 330i16, 0i16, 255i16], [330i16, 40i16, 0i16, 255i16], [400i16, 200i16, 255i16, 255i16]]
}

fn monte_w_body_table() -> (t: [[i16; 4]; 6])
    ensures
        t@ == monte_w_body(),
{
    let t = [
        [300, 100, 200, 255],
        [400, 150, 0, 255],
        [300, 330, 0, 255],
        [400, 330, 0, 255],
        [330, 40, 0, 255],
        [400, 200, 255, 255],
    ];
    proof {
        assert(t@ =~= monte_w_body());
    }
    t
}

pub open spec fn monte_wa_cloth() -> Seq<[i16; 4]> {
    seq![[380i16, 330i16, 150i16, 255i16], [300i16, 100i16, 200i16, 255i16], [360i16, 350i16, 300i16, 255i16], [300i16, 50i16, 0i16, 255i16], [400i16, 150i16, 100i16, 255i16], [120i16, 150i16, 300i16, 255i16]]
}

fn monte_wa_cloth_table() -> (t: [[i16; 4]; 6])
    ensures
        t@ == monte_wa_cloth(),
{
    let t = [
        [380, 330, 150, 255],
        [300, 100, 200, 255],
        [360, 350, 300, 255],
        [300, 50, 0, 255],
        [400, 150, 100, 255],
        [120, 150, 300, 255],
    ];
    proof {
        assert(t@ =~= monte_wa_cloth());
    }
    t
}

pub open spec fn monte_wb_cloth_reg1() -> Seq<[i16; 4]> {
    seq![[220i16, 200i16, 220i16, 255i16], [200i16, 220i16, 220i16, 255i16], [255i16, 255i16, 255i16, 255i16], [255i16, 255i16, 255i16, 255i16], [220i16, 230i16, 220i16, 255i16], [180i16, 100i16, 110i16, 255i16], [200i16, 100i16, 0i16, 255i16], [0i16, 100i16, 150i16, 255i16], [255i16, 200i16, 100i16, 255i16]]
}

fn monte_wb_cloth_reg1_table() -> (t: [[i16; 4]; 9])
    ensures
        t@ == monte_wb_cloth_reg1(),
{
    let t = [
        [220, 200, 220, 255],
        [200, 220, 220, 255],
        [255, 255, 255, 255],
        [255, 255, 255, 255],
        [220, 230, 220, 255],
        [180, 100, 110, 255],
        [200, 100, 0, 255],
        [0, 100, 150, 255],
        [255, 200, 100, 255],
    ];
    proof {
        assert(t@ =~= monte_wb_cloth_reg1());
    }
    t
}

pub open spec fn monte_wb_cloth_reg2() -> Seq<[i16; 4]> {
    seq![[100i16, 80i16, 200i16, 255i16], [100i16, 170i16, 200i16, 255i16], [150i16, 0i16, 60i16, 255i16], [180i16, 120i16, 200i16, 255i16], [140i16, 180i16, 300i16, 255i16], [180i16, 100i16, 110i16, 255i16], [200i16, 100i16, 0i16, 255i16], [0i16, 100i16, 150i16, 255i16], [255i16, 200i16, 100i16, 255i16]]
}

fn monte_wb_cloth_reg2_table() -> (t: [[i16; 4]; 9])
    ensures
        t@ == monte_wb_cloth_reg2(),
{
    let t = [
        [100, 80, 200, 255],
        [100, 170, 200, 255],
        [150, 0, 60, 255],
        [180, 120, 200, 255],
        [140, 180, 300, 255],
        [180, 100, 110, 255],
        [200, 100, 0, 255],
        [0, 100, 150, 255],
        [255, 200, 100, 255],
    ];
    proof {
        assert(t@ =~= monte_wb_cloth_reg2());
    }
    t
}

pub open spec fn mare_m_body() -> Seq<[i16; 4]> {
    seq![[370i16, 290i16, 170i16, 255i16], [350i16, 340i16, 120i16, 255i16], [260i16, 180i16, 100i16, 255i16], [300i16, 150i16, 130i16, 255i16], [300i16, 200i16, 60i16, 255i16], [240i16, 160i16, 230i16, 255i16]]
}

fn mare_m_body_table() -> (t: [[i16; 4]; 6])
    ensures
        t@ == mare_m_body(),
{
    let t = [
        [370, 290, 170, 255],
        [350, 340, 120, 255],
        [260, 180, 100, 255],
        [300, 150, 130, 255],
        [300, 200, 60, 255],
        [240, 160, 230, 255],
    ];
    proof {
        assert(t@ =~= mare_m_body());
    }
    t
}

pub open spec fn mare_w_body() -> Seq<[i16; 4]> {
    seq![[410i16, 255i16, 280i16, 255i16], [430i16, 330i16, 150i16, 255i16], [440i16, 330i16, 255i16, 255i16], [300i16, 200i16, 130i16, 255i16], [300i16, 190i16, 220i16, 255i16], [400i16, 250i16, 90i16, 255i16]]
}

fn mare_w_body_table() -> (t: [[i16; 4]; 6])
    ensures
        t@ == mare_w_body(),
{
    let t = [
        [410, 255, 280, 255],
        [430, 330, 150, 255],
        [440, 330, 255, 255],
        [300, 200, 130, 255],
        [300, 190, 220, 255],
        [400, 250, 90, 255],
    ];
    proof {
        assert(t@ =~= mare_w_body());
    }
    t
}

/// An array of four colours with the one at `i` replaced.
fn set_i16_color(colors: [[i16; 4]; 4], i: usize, c: [i16; 4]) -> (r: [[i16; 4]; 4])
    requires
        i < 4,
    ensures
        r@ == colors@.update(i as int, c),
{
    let r = if i == 0 {
        [c, colors[1], colors[2], colors[3]]
    } else if i == 1 {
        [colors[0], c, colors[2], colors[3]]
    } else if i == 2 {
        [colors[0], colors[1], c, colors[3]]
    } else {
        [colors[0], colors[1], colors[2], c]
    };
    proof {
        assert(r@ =~= colors@.update(i as int, c));
    }
    r
}

fn set_u8_color4(colors: [[u8; 4]; 4], c: [u8; 4]) -> (r: [[u8; 4]; 4])
    ensures
        r@ == colors@.update(0, c),
{
    let r = [c, colors[1], colors[2], colors[3]];
    proof {
        assert(r@ =~= colors@.update(0, c));
    }
    r
}

fn set_u8_color2(colors: [[u8; 4]; 2], c: [u8; 4]) -> (r: [[u8; 4]; 2])
    ensures
        r@ == colors@.update(0, c),
{
    let r = [c, colors[1]];
    proof {
        assert(r@ =~= colors@.update(0, c));
    }
    r
}

/// The entry at `i` of a colour table, if there is one.
pub open spec fn table_get(t: Seq<[i16; 4]>, i: nat) -> Option<[i16; 4]> {
    if i < t.len() {
        Some(t[i as int])
    } else {
        None
    }
}

fn get_color(t: &[[i16; 4]], i: usize) -> (r: Option<[i16; 4]>)
    ensures
        r == table_get(t@, i as nat),
{
    if i < t.len() {
        Some(t[i])
    } else {
        None
    }
}

/// An object's colour index parameter: a non-negative decimal `i32`.
pub open spec fn color_index_param(o: SceneObject, key: Seq<char>) -> Option<nat> {
    match raw_param(o, key) {
        Some(v) => match parse_i32(v) {
            Some(i) => if i >= 0 {
                Some(i as nat)
            } else {
                None
            },
            None => None,
        },
        None => None,
    }
}

/// Reads a colour index parameter of an NPC.
pub fn npc_color_index(object: &SceneObject, key: &str) -> (r: Option<usize>)
    ensures
        r == match color_index_param(*object, key@) {
            Some(i) => Some(i as usize),
            None => None::<usize>,
        },
{
    let value = match raw_param_of(object, key) {
        Some(v) => v,
        None => return None,
    };
    match parse_i32_of(value.as_str()) {
        Some(i) => if i >= 0 {
            Some(i as usize)
        } else {
            None
        },
        None => None,
    }
}

pub open spec fn lowered_factory(o: SceneObject) -> Seq<char> {
    lower_seq(o.factory_name@)
}

/// NPCs whose runtime installs the initial pollution colour in K0: the
/// Pianta and Noki villagers and Toad.
pub open spec fn has_initial_pollution_color(o: SceneObject) -> bool {
    let f = lowered_factory(o);
    starts_with(f, seq!['n', 'p', 'c', 'm', 'o', 'n', 't', 'e']) || starts_with(
        f,
        seq!['n', 'p', 'c', 'm', 'a', 'r', 'e'],
    ) || f == seq!['n', 'p', 'c', 'k', 'i', 'n', 'o', 'p', 'i', 'o']
}

fn lowered_factory_of(object: &SceneObject) -> (f: Vec<char>)
    ensures
        f@ == lowered_factory(*object),
{
    to_ascii_lower(&chars_of(object.factory_name.as_str()))
}

pub fn npc_has_initial_pollution_color(object: &SceneObject) -> (b: bool)
    ensures
        b == has_initial_pollution_color(*object),
{
    let f = lowered_factory_of(object);
    let monte = vec!['n', 'p', 'c', 'm', 'o', 'n', 't', 'e'];
    let mare = vec!['n', 'p', 'c', 'm', 'a', 'r', 'e'];
    let kinopio = vec!['n', 'p', 'c', 'k', 'i', 'n', 'o', 'p', 'i', 'o'];
    proof {
        assert(monte@ =~= seq!['n', 'p', 'c', 'm', 'o', 'n', 't', 'e']);
        assert(mare@ =~= seq!['n', 'p', 'c', 'm', 'a', 'r', 'e']);
        assert(kinopio@ =~= seq!['n', 'p', 'c', 'k', 'i', 'n', 'o', 'p', 'i', 'o']);
    }
    has_prefix(&f, &monte) || has_prefix(&f, &mare) || crate::text::seq_equal(&f, &kinopio)
}

/// The pollution K0 colour of an NPC: white with the authored pollution
/// amount, clamped to a byte, as alpha.
#[verifier::opaque]
pub open spec fn pollution_k_color(o: SceneObject) -> Option<[u8; 4]> {
    if !has_initial_pollution_color(o) {
        None
    } else {
        match raw_param(o, "npc_pollution_amount"@) {
            Some(v) => match parse_i32(v) {
                Some(a) => Some(
                    [
                        255u8,
                        255u8,
                        255u8,
                        (if a < 0 {
                            0
                        } else if a > 255 {
                            255
                        } else {
                            a
                        }) as u8,
                    ],
                ),
                None => None,
            },
            None => None,
        }
    }
}

pub fn npc_pollution_k_color(object: &SceneObject) -> (r: Option<[u8; 4]>)
    ensures
        r == pollution_k_color(*object),
{
    reveal(pollution_k_color);
    if !npc_has_initial_pollution_color(object) {
        return None;
    }
    let value = match raw_param_of(object, "npc_pollution_amount") {
        Some(v) => v,
        None => return None,
    };
    let amount = match parse_i32_of(value.as_str()) {
        Some(a) => a,
        None => return None,
    };
    let clamped: u8 = if amount < 0 {
        0
    } else if amount > 255 {
        255
    } else {
        amount as u8
    };
    Some([255, 255, 255, clamped])
}

/// The body colour table of a Noki villager's factory.
pub open spec fn mare_table(f: Seq<char>) -> Option<Seq<[i16; 4]>> {
    if starts_with(f, seq!['n', 'p', 'c', 'm', 'a', 'r', 'e', 'm']) {
        Some(mare_m_body())
    } else if starts_with(f, seq!['n', 'p', 'c', 'm', 'a', 'r', 'e', 'w']) {
        Some(mare_w_body())
    } else {
        None
    }
}

/// A Noki villager's body colour, chosen by its body colour index.
#[verifier::opaque]
pub open spec fn mare_body(o: SceneObject) -> Option<[i16; 4]> {
    match mare_table(lowered_factory(o)) {
        Some(t) => match color_index_param(o, "npc_body_color_index"@) {
            Some(i) => table_get(t, i),
            None => None,
        },
        None => None,
    }
}

pub fn mare_body_color(object: &SceneObject) -> (r: Option<[i16; 4]>)
    ensures
        r == mare_body(*object),
{
    reveal(mare_body);
    let f = lowered_factory_of(object);
    let male = vec!['n', 'p', 'c', 'm', 'a', 'r', 'e', 'm'];
    let female = vec!['n', 'p', 'c', 'm', 'a', 'r', 'e', 'w'];
    proof {
        assert(male@ =~= seq!['n', 'p', 'c', 'm', 'a', 'r', 'e', 'm']);
        assert(female@ =~= seq!['n', 'p', 'c', 'm', 'a', 'r', 'e', 'w']);
    }
    if has_prefix(&f, &male) {
        let t = mare_m_body_table();
        let i = match npc_color_index(object, "npc_body_color_index") {
            Some(i) => i,
            None => return None,
        };
        get_color(&t, i)
    } else if has_prefix(&f, &female) {
        let t = mare_w_body_table();
        let i = match npc_color_index(object, "npc_body_color_index") {
            Some(i) => i,
            None => return None,
        };
        get_color(&t, i)
    } else {
        None
    }
}


/// A material's name and colour registers.
pub struct MaterialView {
    pub name: Seq<char>,
    pub material_index: usize,
    pub material_colors: Seq<[u8; 4]>,
    pub tev_colors: Seq<[i16; 4]>,
    pub tev_k_colors: Seq<[u8; 4]>,
}

impl View for J3dMaterial {
    type V = MaterialView;

    open spec fn view(&self) -> MaterialView {
        MaterialView {
            name: self.name@,
            material_index: self.material_index,
            material_colors: self.material_colors@,
            tev_colors: self.tev_colors@,
            tev_k_colors: self.tev_k_colors@,
        }
    }
}

/// Whether a material's name is `name`, ignoring ASCII case.
pub open spec fn material_named(m: MaterialView, name: Seq<char>) -> bool {
    eq_ignore_case(m.name, name)
}

pub open spec fn with_tev(m: MaterialView, i: int, c: [i16; 4]) -> MaterialView {
    MaterialView { tev_colors: m.tev_colors.update(i, c), ..m }
}

/// A Noki villager's `_body` material takes its body colour in TEV register 0.
pub open spec fn mare_colored(m: MaterialView, o: SceneObject) -> MaterialView {
    if material_named(m, "_body"@) && mare_body(o) is Some {
        with_tev(m, 0, mare_body(o)->0)
    } else {
        m
    }
}

fn name_is(material: &J3dMaterial, name: &str) -> (b: bool)
    ensures
        b == material_named(material@, name@),
{
    eq_ignore_ascii_case(material.name.as_str(), name)
}

pub fn apply_mare_material_color(material: &mut J3dMaterial, object: &SceneObject)
    ensures
        final(material)@ == mare_colored(old(material)@, *object),
{
    if name_is(material, "_body") {
        if let Some(color) = mare_body_color(object) {
            material.tev_colors = set_i16_color(material.tev_colors, 0, color);
        }
    }
}

/// The colours a Pianta villager installs: body in TEV 0 of `_hand_mat`,
/// cloth in TEV 0 of `_fuku_mat`, or a cloth pair in its TEV 1 and 2.
#[derive(Debug, Clone, Copy)]
pub struct MonteMaterialColors {
    pub body_reg0: Option<[i16; 4]>,
    pub cloth_reg0: Option<[i16; 4]>,
    pub cloth_reg1_reg2: Option<[[i16; 4]; 2]>,
}

pub open spec fn paired(reg1: Seq<[i16; 4]>, reg2: Seq<[i16; 4]>, i: nat) -> Option<([i16; 4], [i16; 4])> {
    if i < reg1.len() && i < reg2.len() {
        Some((reg1[i as int], reg2[i as int]))
    } else {
        None
    }
}

/// The entries at `index` of two register tables, when both have one.
pub fn paired_color(reg1: &[[i16; 4]], reg2: &[[i16; 4]], index: usize) -> (r: Option<[[i16; 4]; 2]>)
    ensures
        match paired(reg1@, reg2@, index as nat) {
            Some((a, b)) => r matches Some(p) && p@ == seq![a, b],
            None => r is None,
        },
{
    if index < reg1.len() && index < reg2.len() {
        let p = [reg1[index], reg2[index]];
        proof {
            assert(p@ =~= seq![reg1@[index as int], reg2@[index as int]]);
        }
        Some(p)
    } else {
        None
    }
}
/// The body, cloth and cloth-pair colours of a Pianta villager, by factory
/// and its body and cloth colour indices.
#[verifier::opaque]
pub open spec fn monte_colors(o: SceneObject) -> Option<(Option<[i16; 4]>, Option<[i16; 4]>, Option<([i16; 4], [i16; 4])>)> {
    let f = lowered_factory(o);
    if !starts_with(f, seq!['n', 'p', 'c', 'm', 'o', 'n', 't', 'e']) {
        None
    } else {
        match (color_index_param(o, "npc_body_color_index"@), color_index_param(o, "npc_cloth_color_index"@)) {
            (Some(b), Some(c)) => {
                let male = table_get(monte_m_body(), b);
                let female = table_get(monte_w_body(), b);
                Some(
                    if f == "npcmontemb"@ {
                        (table_get(monte_mb_body(), b), table_get(monte_mb_cloth(), c), None)
                    } else if f == "npcmontema"@ || f == "npcmontemh"@ {
                        (male, None, paired(monte_ma_cloth_reg1(), monte_ma_cloth_reg2(), c))
                    } else if f == "npcmontemc"@ || f == "npcmontemg"@ {
                        (male, None, paired(monte_mc_cloth_reg1(), monte_mc_cloth_reg2(), c))
                    } else if f == "npcmontemd"@ {
                        (male, table_get(monte_md_cloth(), c), None)
                    } else if f == "npcmontewa"@ {
                        (female, table_get(monte_wa_cloth(), c), None)
                    } else if f == "npcmontewb"@ {
                        (female, None, paired(monte_wb_cloth_reg1(), monte_wb_cloth_reg2(), c))
                    } else if f == "npcmontew"@ || f == "npcmontewc"@ {
                        (female, None, None)
                    } else if f == "npcmonteme"@ {
                        (None, None, None)
                    } else {
                        (male, None, None)
                    },
                )
            },
            _ => None,
        }
    }
}

pub open spec fn colors_match(
    r: MonteMaterialColors,
    c: (Option<[i16; 4]>, Option<[i16; 4]>, Option<([i16; 4], [i16; 4])>),
) -> bool {
    &&& r.body_reg0 == c.0
    &&& r.cloth_reg0 == c.1
    &&& match c.2 {
        Some((a, b)) => r.cloth_reg1_reg2 matches Some(p) && p@ == seq![a, b],
        None => r.cloth_reg1_reg2 is None,
    }
}

fn factory_is(f: &Vec<char>, name: &str) -> (b: bool)
    ensures
        b == (f@ == name@),
{
    crate::text::seq_equal(f, &chars_of(name))
}

#[verifier::rlimit(50)]
pub fn monte_material_colors(object: &SceneObject) -> (r: Option<MonteMaterialColors>)
    ensures
        match monte_colors(*object) {
            Some(c) => r matches Some(m) && colors_match(m, c),
            None => r is None,
        },
{
    reveal(monte_colors);
    let f = lowered_factory_of(object);
    let monte = vec!['n', 'p', 'c', 'm', 'o', 'n', 't', 'e'];
    proof {
        assert(monte@ =~= seq!['n', 'p', 'c', 'm', 'o', 'n', 't', 'e']);
    }
    if !has_prefix(&f, &monte) {
        return None;
    }
    let body_index = match npc_color_index(object, "npc_body_color_index") {
        Some(i) => i,
        None => return None,
    };
    let cloth_index = match npc_color_index(object, "npc_cloth_color_index") {
        Some(i) => i,
        None => return None,
    };
    let male_body = get_color(&monte_m_body_table(), body_index);
    let female_body = get_color(&monte_w_body_table(), body_index);
    let (body_reg0, cloth_reg0, cloth_reg1_reg2) = if factory_is(&f, "npcmontemb") {
        (get_color(&monte_mb_body_table(), body_index), get_color(&monte_mb_cloth_table(), cloth_index), None)
    } else if factory_is(&f, "npcmontema") || factory_is(&f, "npcmontemh") {
        (male_body, None, paired_color(&monte_ma_cloth_reg1_table(), &monte_ma_cloth_reg2_table(), cloth_index))
    } else if factory_is(&f, "npcmontemc") || factory_is(&f, "npcmontemg") {
        (male_body, None, paired_color(&monte_mc_cloth_reg1_table(), &monte_mc_cloth_reg2_table(), cloth_index))
    } else if factory_is(&f, "npcmontemd") {
        (male_body, get_color(&monte_md_cloth_table(), cloth_index), None)
    } else if factory_is(&f, "npcmontewa") {
        (female_body, get_color(&monte_wa_cloth_table(), cloth_index), None)
    } else if factory_is(&f, "npcmontewb") {
        (female_body, None, paired_color(&monte_wb_cloth_reg1_table(), &monte_wb_cloth_reg2_table(), cloth_index))
    } else if factory_is(&f, "npcmontew") || factory_is(&f, "npcmontewc") {
        (female_body, None, None)
    } else if factory_is(&f, "npcmonteme") {
        (None, None, None)
    } else {
        (male_body, None, None)
    };
    Some(MonteMaterialColors { body_reg0, cloth_reg0, cloth_reg1_reg2 })
}

/// The colours each Pianta villager takes, by its lower-cased factory name
/// and its body (`b`) and cloth (`c`) colour indices:
/// - `npcmontemb`: its own body and cloth tables;
/// - `npcmontema` and `mh`: the male body table and the `ma` cloth register
///   pair; `npcmontemc` and `mg`: the male body table and the `mc` pair;
///   `npcmontemd`: the male body table and the `md` cloth table;
/// - `npcmontewa`: the female body table and the `wa` cloth table;
///   `npcmontewb`: the female body table and the `wb` pair; `npcmontew` and
///   `wc`: the female body table alone;
/// - `npcmonteme`: no colour;
/// - any other `npcmonte` factory: the male body table alone;
/// - a factory that is not a Pianta villager, or a missing index: nothing.
#[verifier::rlimit(80)]
#[verifier::spinoff_prover]
pub proof fn monte_colors_by_factory(o: SceneObject)
    ensures
        ({
            let f = lower_seq(o.factory_name@);
            let bi = color_index_param(o, "npc_body_color_index"@);
            let ci = color_index_param(o, "npc_cloth_color_index"@);
            let b = bi->0;
            let c = ci->0;
            &&& !(f.len() >= 8 && f.take(8) == seq!['n', 'p', 'c', 'm', 'o', 'n', 't', 'e']) ==> monte_colors(o) is None
            &&& (bi is None || ci is None) ==> monte_colors(o) is None
            &&& (bi is Some && ci is Some && f == "npcmontemb"@) ==> monte_colors(o) == Some((table_get(monte_mb_body(), b), table_get(monte_mb_cloth(), c), None::<([i16; 4], [i16; 4])>))
            &&& (bi is Some && ci is Some && f == "npcmontema"@) ==> monte_colors(o) == Some((table_get(monte_m_body(), b), None::<[i16; 4]>, paired(monte_ma_cloth_reg1(), monte_ma_cloth_reg2(), c)))
            &&& (bi is Some && ci is Some && f == "npcmontemh"@) ==> monte_colors(o) == Some((table_get(monte_m_body(), b), None::<[i16; 4]>, paired(monte_ma_cloth_reg1(), monte_ma_cloth_reg2(), c)))
            &&& (bi is Some && ci is Some && f == "npcmontemc"@) ==> monte_colors(o) == Some((table_get(monte_m_body(), b), None::<[i16; 4]>, paired(monte_mc_cloth_reg1(), monte_mc_cloth_reg2(), c)))
            &&& (bi is Some && ci is Some && f == "npcmontemg"@) ==> monte_colors(o) == Some((table_get(monte_m_body(), b), None::<[i16; 4]>, paired(monte_mc_cloth_reg1(), monte_mc_cloth_reg2(), c)))
            &&& (bi is Some && ci is Some && f == "npcmontemd"@) ==> monte_colors(o) == Some((table_get(monte_m_body(), b), table_get(monte_md_cloth(), c), None::<([i16; 4], [i16; 4])>))
            &&& (bi is Some && ci is Some && f == "npcmontewa"@) ==> monte_colors(o) == Some((table_get(monte_w_body(), b), table_get(monte_wa_cloth(), c), None::<([i16; 4], [i16; 4])>))
            &&& (bi is Some && ci is Some && f == "npcmontewb"@) ==> monte_colors(o) == Some((table_get(monte_w_body(), b), None::<[i16; 4]>, paired(monte_wb_cloth_reg1(), monte_wb_cloth_reg2(), c)))
            &&& (bi is Some && ci is Some && f == "npcmontew"@) ==> monte_colors(o) == Some((table_get(monte_w_body(), b), None::<[i16; 4]>, None::<([i16; 4], [i16; 4])>))
            &&& (bi is Some && ci is Some && f == "npcmontewc"@) ==> monte_colors(o) == Some((table_get(monte_w_body(), b), None::<[i16; 4]>, None::<([i16; 4], [i16; 4])>))
            &&& (bi is Some && ci is Some && f == "npcmonteme"@) ==> monte_colors(o) == Some((None::<[i16; 4]>, None::<[i16; 4]>, None::<([i16; 4], [i16; 4])>))
            &&& (bi is Some && ci is Some && f.len() >= 8 && f.take(8) == seq!['n', 'p', 'c', 'm', 'o', 'n', 't', 'e'] && f != "npcmontemb"@ && f != "npcmontema"@ && f != "npcmontemh"@ && f != "npcmontemc"@ && f != "npcmontemg"@ && f != "npcmontemd"@ && f != "npcmontewa"@ && f != "npcmontewb"@ && f != "npcmontew"@ && f != "npcmontewc"@ && f != "npcmonteme"@) ==> monte_colors(o) == Some((table_get(monte_m_body(), b), None::<[i16; 4]>, None::<([i16; 4], [i16; 4])>))
        }),
{
    let f = lower_seq(o.factory_name@);
    let bi = color_index_param(o, "npc_body_color_index"@);
    let ci = color_index_param(o, "npc_cloth_color_index"@);
    let b = bi->0;
    let c = ci->0;
    let monte = seq!['n', 'p', 'c', 'm', 'o', 'n', 't', 'e'];
    if f.len() >= 8 {
        assert(f.take(8) =~= f.subrange(0, 8));
    }
    if !(f.len() >= 8 && f.take(8) == monte) || bi is None || ci is None {
        assert(monte_colors(o) is None) by {
            reveal(monte_colors);
        }
    }
    if bi is Some && ci is Some && f == "npcmontemb"@ {
        reveal_strlit("npcmontemb");
        assert(f.subrange(0, 8) =~= monte);
        assert(monte_colors(o) == Some((table_get(monte_mb_body(), b), table_get(monte_mb_cloth(), c), None::<([i16; 4], [i16; 4])>))) by {
            reveal(monte_colors);
        }
    }
    if bi is Some && ci is Some && f == "npcmontema"@ {
        reveal_strlit("npcmontema");
        assert(f.subrange(0, 8) =~= monte);
        assert(f != "npcmontemb"@) by {
            reveal_strlit("npcmontemb");
            assert(f[9] != "npcmontemb"@[9]);
        }
        assert(monte_colors(o) == Some((table_get(monte_m_body(), b), None::<[i16; 4]>, paired(monte_ma_cloth_reg1(), monte_ma_cloth_reg2(), c)))) by {
            reveal(monte_colors);
        }
    }
    if bi is Some && ci is Some && f == "npcmontemh"@ {
        reveal_strlit("npcmontemh");
        assert(f.subrange(0, 8) =~= monte);
        assert(f != "npcmontemb"@) by {
            reveal_strlit("npcmontemb");
            assert(f[9] != "npcmontemb"@[9]);
        }
        assert(f != "npcmontema"@) by {
            reveal_strlit("npcmontema");
            assert(f[9] != "npcmontema"@[9]);
        }
        assert(monte_colors(o) == Some((table_get(monte_m_body(), b), None::<[i16; 4]>, paired(monte_ma_cloth_reg1(), monte_ma_cloth_reg2(), c)))) by {
            reveal(monte_colors);
        }
    }
    if bi is Some && ci is Some && f == "npcmontemc"@ {
        reveal_strlit("npcmontemc");
        assert(f.subrange(0, 8) =~= monte);
        assert(f != "npcmontemb"@) by {
            reveal_strlit("npcmontemb");
            assert(f[9] != "npcmontemb"@[9]);
        }
        assert(f != "npcmontema"@) by {
            reveal_strlit("npcmontema");
            assert(f[9] != "npcmontema"@[9]);
        }
        assert(f != "npcmontemh"@) by {
            reveal_strlit("npcmontemh");
            assert(f[9] != "npcmontemh"@[9]);
        }
        assert(monte_colors(o) == Some((table_get(monte_m_body(), b), None::<[i16; 4]>, paired(monte_mc_cloth_reg1(), monte_mc_cloth_reg2(), c)))) by {
            reveal(monte_colors);
        }
    }
    if bi is Some && ci is Some && f == "npcmontemg"@ {
        reveal_strlit("npcmontemg");
        assert(f.subrange(0, 8) =~= monte);
        assert(f != "npcmontemb"@) by {
            reveal_strlit("npcmontemb");
            assert(f[9] != "npcmontemb"@[9]);
        }
        assert(f != "npcmontema"@) by {
            reveal_strlit("npcmontema");
            assert(f[9] != "npcmontema"@[9]);
        }
        assert(f != "npcmontemh"@) by {
            reveal_strlit("npcmontemh");
            assert(f[9] != "npcmontemh"@[9]);
        }
        assert(f != "npcmontemc"@) by {
            reveal_strlit("npcmontemc");
            assert(f[9] != "npcmontemc"@[9]);
        }
        assert(monte_colors(o) == Some((table_get(monte_m_body(), b), None::<[i16; 4]>, paired(monte_mc_cloth_reg1(), monte_mc_cloth_reg2(), c)))) by {
            reveal(monte_colors);
        }
    }
    if bi is Some && ci is Some && f == "npcmontemd"@ {
        reveal_strlit("npcmontemd");
        assert(f.subrange(0, 8) =~= monte);
        assert(f != "npcmontemb"@) by {
            reveal_strlit("npcmontemb");
            assert(f[9] != "npcmontemb"@[9]);
        }
        assert(f != "npcmontema"@) by {
            reveal_strlit("npcmontema");
            assert(f[9] != "npcmontema"@[9]);
        }
        assert(f != "npcmontemh"@) by {
            reveal_strlit("npcmontemh");
            assert(f[9] != "npcmontemh"@[9]);
        }
        assert(f != "npcmontemc"@) by {
            reveal_strlit("npcmontemc");
            assert(f[9] != "npcmontemc"@[9]);
        }
        assert(f != "npcmontemg"@) by {
            reveal_strlit("npcmontemg");
            assert(f[9] != "npcmontemg"@[9]);
        }
        assert(monte_colors(o) == Some((table_get(monte_m_body(), b), table_get(monte_md_cloth(), c), None::<([i16; 4], [i16; 4])>))) by {
            reveal(monte_colors);
        }
    }
    if bi is Some && ci is Some && f == "npcmontewa"@ {
        reveal_strlit("npcmontewa");
        assert(f.subrange(0, 8) =~= monte);
        assert(f != "npcmontemb"@) by {
            reveal_strlit("npcmontemb");
            assert(f[8] != "npcmontemb"@[8]);
        }
        assert(f != "npcmontema"@) by {
            reveal_strlit("npcmontema");
            assert(f[8] != "npcmontema"@[8]);
        }
        assert(f != "npcmontemh"@) by {
            reveal_strlit("npcmontemh");
            assert(f[8] != "npcmontemh"@[8]);
        }
        assert(f != "npcmontemc"@) by {
            reveal_strlit("npcmontemc");
            assert(f[8] != "npcmontemc"@[8]);
        }
        assert(f != "npcmontemg"@) by {
            reveal_strlit("npcmontemg");
            assert(f[8] != "npcmontemg"@[8]);
        }
        assert(f != "npcmontemd"@) by {
            reveal_strlit("npcmontemd");
            assert(f[8] != "npcmontemd"@[8]);
        }
        assert(monte_colors(o) == Some((table_get(monte_w_body(), b), table_get(monte_wa_cloth(), c), None::<([i16; 4], [i16; 4])>))) by {
            reveal(monte_colors);
        }
    }
    if bi is Some && ci is Some && f == "npcmontewb"@ {
        reveal_strlit("npcmontewb");
        assert(f.subrange(0, 8) =~= monte);
        assert(f != "npcmontemb"@) by {
            reveal_strlit("npcmontemb");
            assert(f[8] != "npcmontemb"@[8]);
        }
        assert(f != "npcmontema"@) by {
            reveal_strlit("npcmontema");
            assert(f[8] != "npcmontema"@[8]);
        }
        assert(f != "npcmontemh"@) by {
            reveal_strlit("npcmontemh");
            assert(f[8] != "npcmontemh"@[8]);
        }
        assert(f != "npcmontemc"@) by {
            reveal_strlit("npcmontemc");
            assert(f[8] != "npcmontemc"@[8]);
        }
        assert(f != "npcmontemg"@) by {
            reveal_strlit("npcmontemg");
            assert(f[8] != "npcmontemg"@[8]);
        }
        assert(f != "npcmontemd"@) by {
            reveal_strlit("npcmontemd");
            assert(f[8] != "npcmontemd"@[8]);
        }
        assert(f != "npcmontewa"@) by {
            reveal_strlit("npcmontewa");
            assert(f[9] != "npcmontewa"@[9]);
        }
        assert(monte_colors(o) == Some((table_get(monte_w_body(), b), None::<[i16; 4]>, paired(monte_wb_cloth_reg1(), monte_wb_cloth_reg2(), c)))) by {
            reveal(monte_colors);
        }
    }
    if bi is Some && ci is Some && f == "npcmontew"@ {
        reveal_strlit("npcmontew");
        assert(f.subrange(0, 8) =~= monte);
        assert(f != "npcmontemb"@) by {
            reveal_strlit("npcmontemb");
            assert(f.len() != "npcmontemb"@.len());
        }
        assert(f != "npcmontema"@) by {
            reveal_strlit("npcmontema");
            assert(f.len() != "npcmontema"@.len());
        }
        assert(f != "npcmontemh"@) by {
            reveal_strlit("npcmontemh");
            assert(f.len() != "npcmontemh"@.len());
        }
        assert(f != "npcmontemc"@) by {
            reveal_strlit("npcmontemc");
            assert(f.len() != "npcmontemc"@.len());
        }
        assert(f != "npcmontemg"@) by {
            reveal_strlit("npcmontemg");
            assert(f.len() != "npcmontemg"@.len());
        }
        assert(f != "npcmontemd"@) by {
            reveal_strlit("npcmontemd");
            assert(f.len() != "npcmontemd"@.len());
        }
        assert(f != "npcmontewa"@) by {
            reveal_strlit("npcmontewa");
            assert(f.len() != "npcmontewa"@.len());
        }
        assert(f != "npcmontewb"@) by {
            reveal_strlit("npcmontewb");
            assert(f.len() != "npcmontewb"@.len());
        }
        assert(monte_colors(o) == Some((table_get(monte_w_body(), b), None::<[i16; 4]>, None::<([i16; 4], [i16; 4])>))) by {
            reveal(monte_colors);
        }
    }
    if bi is Some && ci is Some && f == "npcmontewc"@ {
        reveal_strlit("npcmontewc");
        assert(f.subrange(0, 8) =~= monte);
        assert(f != "npcmontemb"@) by {
            reveal_strlit("npcmontemb");
            assert(f[8] != "npcmontemb"@[8]);
        }
        assert(f != "npcmontema"@) by {
            reveal_strlit("npcmontema");
            assert(f[8] != "npcmontema"@[8]);
        }
        assert(f != "npcmontemh"@) by {
            reveal_strlit("npcmontemh");
            assert(f[8] != "npcmontemh"@[8]);
        }
        assert(f != "npcmontemc"@) by {
            reveal_strlit("npcmontemc");
            assert(f[8] != "npcmontemc"@[8]);
        }
        assert(f != "npcmontemg"@) by {
            reveal_strlit("npcmontemg");
            assert(f[8] != "npcmontemg"@[8]);
        }
        assert(f != "npcmontemd"@) by {
            reveal_strlit("npcmontemd");
            assert(f[8] != "npcmontemd"@[8]);
        }
        assert(f != "npcmontewa"@) by {
            reveal_strlit("npcmontewa");
            assert(f[9] != "npcmontewa"@[9]);
        }
        assert(f != "npcmontewb"@) by {
            reveal_strlit("npcmontewb");
            assert(f[9] != "npcmontewb"@[9]);
        }
        assert(f != "npcmontew"@) by {
            reveal_strlit("npcmontew");
            assert(f.len() != "npcmontew"@.len());
        }
        assert(monte_colors(o) == Some((table_get(monte_w_body(), b), None::<[i16; 4]>, None::<([i16; 4], [i16; 4])>))) by {
            reveal(monte_colors);
        }
    }
    if bi is Some && ci is Some && f == "npcmonteme"@ {
        reveal_strlit("npcmonteme");
        assert(f.subrange(0, 8) =~= monte);
        assert(f != "npcmontemb"@) by {
            reveal_strlit("npcmontemb");
            assert(f[9] != "npcmontemb"@[9]);
        }
        assert(f != "npcmontema"@) by {
            reveal_strlit("npcmontema");
            assert(f[9] != "npcmontema"@[9]);
        }
        assert(f != "npcmontemh"@) by {
            reveal_strlit("npcmontemh");
            assert(f[9] != "npcmontemh"@[9]);
        }
        assert(f != "npcmontemc"@) by {
            reveal_strlit("npcmontemc");
            assert(f[9] != "npcmontemc"@[9]);
        }
        assert(f != "npcmontemg"@) by {
            reveal_strlit("npcmontemg");
            assert(f[9] != "npcmontemg"@[9]);
        }
        assert(f != "npcmontemd"@) by {
            reveal_strlit("npcmontemd");
            assert(f[9] != "npcmontemd"@[9]);
        }
        assert(f != "npcmontewa"@) by {
            reveal_strlit("npcmontewa");
            assert(f[8] != "npcmontewa"@[8]);
        }
        assert(f != "npcmontewb"@) by {
            reveal_strlit("npcmontewb");
            assert(f[8] != "npcmontewb"@[8]);
        }
        assert(f != "npcmontew"@) by {
            reveal_strlit("npcmontew");
            assert(f.len() != "npcmontew"@.len());
        }
        assert(f != "npcmontewc"@) by {
            reveal_strlit("npcmontewc");
            assert(f[8] != "npcmontewc"@[8]);
        }
        assert(monte_colors(o) == Some((None::<[i16; 4]>, None::<[i16; 4]>, None::<([i16; 4], [i16; 4])>))) by {
            reveal(monte_colors);
        }
    }
    if bi is Some && ci is Some && f.len() >= 8 && f.take(8) == monte && f != "npcmontemb"@ && f != "npcmontema"@ && f != "npcmontemh"@ && f != "npcmontemc"@ && f != "npcmontemg"@ && f != "npcmontemd"@ && f != "npcmontewa"@ && f != "npcmontewb"@ && f != "npcmontew"@ && f != "npcmontewc"@ && f != "npcmonteme"@ {
        assert(monte_colors(o) == Some((table_get(monte_m_body(), b), None::<[i16; 4]>, None::<([i16; 4], [i16; 4])>))) by {
            reveal(monte_colors);
        }
    }
}

/// The pollution colour is opaque white whose alpha is the authored
/// pollution amount clamped to 0..=255; only Pianta and Noki villagers and
/// Toad get one, and only with an amount that parses.
pub proof fn pollution_alpha_is_the_clamped_amount(o: SceneObject)
    ensures
        ({
            let amount = match raw_param(o, "npc_pollution_amount"@) {
                Some(v) => parse_i32(v),
                None => None,
            };
            &&& pollution_k_color(o) is Some <==> (has_initial_pollution_color(o) && amount is Some)
            &&& pollution_k_color(o) matches Some(c) ==> {
                &&& c[0] == 255 && c[1] == 255 && c[2] == 255
                &&& amount matches Some(a) && (0 <= a <= 255 ==> c[3] == a) && (a < 0 ==> c[3] == 0) && (a
                    > 255 ==> c[3] == 255)
            }
        }),
{
    reveal(pollution_k_color);
}

/// A Noki villager's body colour is its sex's body table entry at its body
/// colour index: the male table for `npcmarem...` factories, the female
/// table for `npcmarew...`; other factories have none.
pub proof fn mare_bodies_follow_their_table(o: SceneObject)
    ensures
        ({
            let f = lower_seq(o.factory_name@);
            let b = color_index_param(o, "npc_body_color_index"@);
            &&& (f.len() >= 8 && f.take(8) == seq!['n', 'p', 'c', 'm', 'a', 'r', 'e', 'm']) ==> mare_body(o)
                == match b {
                Some(i) => table_get(mare_m_body(), i),
                None => None,
            }
            &&& (f.len() >= 8 && f.take(8) == seq!['n', 'p', 'c', 'm', 'a', 'r', 'e', 'w']) ==> mare_body(o)
                == match b {
                Some(i) => table_get(mare_w_body(), i),
                None => None,
            }
            &&& !(f.len() >= 8 && (f.take(8) == seq!['n', 'p', 'c', 'm', 'a', 'r', 'e', 'm'] || f.take(8)
                == seq!['n', 'p', 'c', 'm', 'a', 'r', 'e', 'w'])) ==> mare_body(o) is None
        }),
{
    reveal(mare_body);
    let f = lower_seq(o.factory_name@);
    if f.len() >= 8 {
        assert(f.take(8) =~= f.subrange(0, 8));
    }
}

/// A Pianta villager's hand and cloth materials take its colours.
pub open spec fn monte_colored(m: MaterialView, o: SceneObject) -> MaterialView {
    match monte_colors(o) {
        None => m,
        Some(c) => if material_named(m, "_hand_mat"@) {
            match c.0 {
                Some(color) => with_tev(m, 0, color),
                None => m,
            }
        } else if material_named(m, "_fuku_mat"@) {
            let m1 = match c.1 {
                Some(color) => with_tev(m, 0, color),
                None => m,
            };
            match c.2 {
                Some((a, b)) => with_tev(with_tev(m1, 1, a), 2, b),
                None => m1,
            }
        } else {
            m
        },
    }
}

pub fn apply_monte_material_color(material: &mut J3dMaterial, object: &SceneObject)
    ensures
        final(material)@ == monte_colored(old(material)@, *object),
{
    let colors = match monte_material_colors(object) {
        Some(c) => c,
        None => return,
    };
    if name_is(material, "_hand_mat") {
        if let Some(color) = colors.body_reg0 {
            material.tev_colors = set_i16_color(material.tev_colors, 0, color);
        }
    } else if name_is(material, "_fuku_mat") {
        if let Some(color) = colors.cloth_reg0 {
            material.tev_colors = set_i16_color(material.tev_colors, 0, color);
        }
        if let Some(pair) = colors.cloth_reg1_reg2 {
            material.tev_colors = set_i16_color(material.tev_colors, 1, pair[0]);
            material.tev_colors = set_i16_color(material.tev_colors, 2, pair[1]);
        }
    }
}

/// The first raw parameter value of an object that, lower-cased, ends with
/// `_nozzle_item`, lower-cased.
pub open spec fn nozzle_item(params: Seq<(String, String)>) -> Option<Seq<char>>
    decreases params.len(),
{
    if params.len() == 0 {
        None
    } else {
        match nozzle_item(params.drop_last()) {
            Some(v) => Some(v),
            None => if ends_with(lower_seq(params.last().1@), "_nozzle_item"@) {
                Some(lower_seq(params.last().1@))
            } else {
                None
            },
        }
    }
}

/// The TEV register 1 colour of a nozzle box: its item's colour.
#[verifier::opaque]
pub open spec fn nozzle_reg1(o: SceneObject) -> Option<[i16; 4]> {
    let is_box = eq_ignore_case(o.factory_name@, "NozzleBox"@) || (o.class_name matches Some(c)
        && eq_ignore_case(c@, "NozzleBox"@));
    if !is_box {
        None
    } else {
        Some(
            match nozzle_item(o.raw_params@) {
                Some(v) => if v == "normal_nozzle_item"@ {
                    [0i16, 0i16, 255i16, 100i16]
                } else if v == "rocket_nozzle_item"@ {
                    [255i16, 0i16, 0i16, 100i16]
                } else if v == "back_nozzle_item"@ {
                    [90i16, 90i16, 120i16, 100i16]
                } else {
                    [255i16, 255i16, 255i16, 100i16]
                },
                None => [255i16, 255i16, 255i16, 100i16],
            },
        )
    }
}

/// A nozzle box's register 1 colour is chosen by its first nozzle item:
/// blue for the normal nozzle, red for the rocket, grey-blue for the back
/// nozzle, white for any other item or none, always with alpha 100; an
/// object that is not a nozzle box gets none.
pub proof fn nozzle_colour_follows_the_item(o: SceneObject)
    ensures
        ({
            let is_box = eq_ignore_case(o.factory_name@, "NozzleBox"@) || (o.class_name matches Some(c)
                && eq_ignore_case(c@, "NozzleBox"@));
            &&& !is_box ==> nozzle_reg1(o) is None
            &&& is_box ==> (nozzle_reg1(o) matches Some(c) && c[3] == 100 && c == match nozzle_item(o.raw_params@) {
                Some(v) => if v == "normal_nozzle_item"@ {
                    [0i16, 0, 255, 100]
                } else if v == "rocket_nozzle_item"@ {
                    [255i16, 0, 0, 100]
                } else if v == "back_nozzle_item"@ {
                    [90i16, 90, 120, 100]
                } else {
                    [255i16, 255, 255, 100]
                },
                None => [255i16, 255, 255, 100],
            })
        }),
{
    reveal(nozzle_reg1);
}

pub fn nozzle_box_tev_reg1_color(object: &SceneObject) -> (r: Option<[i16; 4]>)
    ensures
        r == nozzle_reg1(*object),
{
    reveal(nozzle_reg1);
    let is_box = eq_ignore_ascii_case(object.factory_name.as_str(), "NozzleBox") || match &object.class_name {
        Some(c) => eq_ignore_ascii_case(c.as_str(), "NozzleBox"),
        None => false,
    };
    if !is_box {
        return None;
    }
    let suffix = chars_of("_nozzle_item");
    let mut item: Option<Vec<char>> = None;
    let mut i: usize = 0;
    while i < object.raw_params.len()
        invariant
            i <= object.raw_params.len(),
            suffix@ == "_nozzle_item"@,
            match item {
                Some(v) => nozzle_item(object.raw_params@.take(i as int)) == Some(v@),
                None => nozzle_item(object.raw_params@.take(i as int)) is None,
            },
        decreases object.raw_params.len() - i,
    {
        proof {
            assert(object.raw_params@.take(i + 1).drop_last() =~= object.raw_params@.take(i as int));
        }
        if item.is_none() {
            let lowered = to_ascii_lower(&chars_of(object.raw_params[i].1.as_str()));
            if has_suffix(&lowered, &suffix) {
                item = Some(lowered);
            }
        }
        i += 1;
    }
    proof {
        assert(object.raw_params@.take(object.raw_params@.len() as int) =~= object.raw_params@);
    }
    let color = match item {
        Some(v) => if crate::text::seq_equal(&v, &chars_of("normal_nozzle_item")) {
            [0, 0, 255, 100]
        } else if crate::text::seq_equal(&v, &chars_of("rocket_nozzle_item")) {
            [255, 0, 0, 100]
        } else if crate::text::seq_equal(&v, &chars_of("back_nozzle_item")) {
            [90, 90, 120, 100]
        } else {
            [255, 255, 255, 100]
        },
        None => [255, 255, 255, 100],
    };
    Some(color)
}


impl J3dMaterial {
    pub fn duplicate(&self) -> (r: Self)
        ensures
            r@ == self@,
    {
        J3dMaterial {
            name: self.name.clone(),
            material_index: self.material_index,
            material_colors: self.material_colors,
            tev_colors: self.tev_colors,
            tev_k_colors: self.tev_k_colors,
        }
    }
}

pub open spec fn with_k0(m: MaterialView, c: [u8; 4]) -> MaterialView {
    MaterialView { tev_k_colors: m.tev_k_colors.update(0, c), ..m }
}

/// Whether an object gets NPC colour variants at all.
pub open spec fn has_npc_colors(o: SceneObject) -> bool {
    monte_colors(o) is Some || mare_body(o) is Some || pollution_k_color(o) is Some
}

/// A cached model's materials as the preview stores them: the first index
/// and how many.
#[derive(Debug, Clone, Copy)]
pub struct CachedObjectModelPreview {
    pub material_base: usize,
    pub material_count: usize,
}

/// The per-instance copy of one of a model's materials: its new index, the
/// nozzle box colour, the pollution K0 colour (but on the eye material), and
/// the villager colours.
pub open spec fn preview_material(m: MaterialView, o: SceneObject, index: usize) -> MaterialView {
    let m1 = MaterialView { material_index: index, ..m };
    let m2 = match nozzle_reg1(o) {
        Some(c) => with_tev(m1, 1, c),
        None => m1,
    };
    let m3 = if !material_named(m2, "_eye_mat"@) && pollution_k_color(o) is Some {
        with_k0(m2, pollution_k_color(o)->0)
    } else {
        m2
    };
    mare_colored(monte_colored(m3, o), o)
}

/// One per-instance material copy.
fn preview_copy(
    source: &J3dMaterial,
    index: usize,
    object: &SceneObject,
    nozzle_tev_reg1: Option<[i16; 4]>,
    pollution: Option<[u8; 4]>,
) -> (material: J3dMaterial)
    requires
        nozzle_tev_reg1 == nozzle_reg1(*object),
        pollution == pollution_k_color(*object),
    ensures
        material@ == preview_material(source@, *object, index),
{
    reveal(preview_material);
    let mut material = source.duplicate();
    material.material_index = index;
    if let Some(tev_reg1) = nozzle_tev_reg1 {
        material.tev_colors = set_i16_color(material.tev_colors, 1, tev_reg1);
    }
    if !name_is(&material, "_eye_mat") {
        if let Some(color) = pollution {
            material.tev_k_colors = set_u8_color4(material.tev_k_colors, color);
        }
    }
    apply_monte_material_color(&mut material, object);
    apply_mare_material_color(&mut material, object);
    material
}

/// Gives an object its own copies of its model's materials when it has an
/// instance colour, returning the index of the materials it uses.
pub fn push_object_preview_materials(
    materials: &mut Vec<J3dMaterial>,
    cached: &CachedObjectModelPreview,
    object: &SceneObject,
) -> (base: usize)
    requires
        cached.material_base + cached.material_count <= old(materials)@.len(),
    ensures
        nozzle_reg1(*object) is None && !has_npc_colors(*object) ==> base == cached.material_base
            && final(materials)@ == old(materials)@,
        !(nozzle_reg1(*object) is None && !has_npc_colors(*object)) ==> {
            &&& base == old(materials)@.len()
            &&& final(materials)@.len() == old(materials)@.len() + cached.material_count
            &&& final(materials)@.take(old(materials)@.len() as int) == old(materials)@
            &&& forall|k: int|
                0 <= k < cached.material_count ==> (#[trigger] final(materials)@[old(materials)@.len() + k])@
                    == preview_material(
                    old(materials)@[cached.material_base + k]@,
                    *object,
                    (old(materials)@.len() + k) as usize,
                )
        },
{
    let nozzle_tev_reg1 = nozzle_box_tev_reg1_color(object);
    let has_npc_colors = monte_material_colors(object).is_some() || mare_body_color(object).is_some()
        || npc_pollution_k_color(object).is_some();
    if nozzle_tev_reg1.is_none() && !has_npc_colors {
        return cached.material_base;
    }
    let pollution = npc_pollution_k_color(object);
    let len = materials.len();
    let source_end = cached.material_base + cached.material_count;
    let mut source: Vec<J3dMaterial> = Vec::new();
    let mut i = cached.material_base;
    while i < source_end
        invariant
            cached.material_base <= i <= source_end <= materials@.len(),
            source_end == cached.material_base + cached.material_count,
            materials@ == old(materials)@,
            source@.len() == i - cached.material_base,
            forall|k: int| 0 <= k < source@.len() ==> (#[trigger] source@[k])@ == materials@[cached.material_base + k]@,
        decreases source_end - i,
    {
        source.push(materials[i].duplicate());
        i += 1;
    }
    let material_base = materials.len();
    let mut j: usize = 0;
    while j < source.len()
        invariant
            j <= source@.len(),
            source@.len() == cached.material_count,
            material_base == old(materials)@.len(),
            nozzle_tev_reg1 == nozzle_reg1(*object),
            pollution == pollution_k_color(*object),
            forall|k: int|
                0 <= k < source@.len() ==> (#[trigger] source@[k])@ == old(materials)@[cached.material_base + k]@,
            materials@.len() == material_base + j,
            materials@.take(material_base as int) == old(materials)@,
            forall|k: int|
                0 <= k < j ==> (#[trigger] materials@[material_base + k])@ == preview_material(
                    old(materials)@[cached.material_base + k]@,
                    *object,
                    (material_base + k) as usize,
                ),
        decreases source@.len() - j,
    {
        let material = preview_copy(&source[j], materials.len(), object, nozzle_tev_reg1, pollution);
        let ghost before = materials@;
        materials.push(material);
        proof {
            assert(materials@.take(material_base as int) =~= before.take(material_base as int));
            assert forall|k: int| 0 <= k < j + 1 implies (#[trigger] materials@[material_base + k])@
                == preview_material(
                old(materials)@[cached.material_base + k]@,
                *object,
                (material_base + k) as usize,
            ) by {
                if k < j {
                    assert(materials@[material_base + k] == before[material_base + k]);
                }
            }
        }
        j += 1;
    }
    material_base
}

/// One colour change of an NPC accessory: the material it applies to, how
/// (0: material colour 0, 1: TEV 0, 2: TEV 1 and 2), and its colour tables.
#[derive(Debug, Clone)]
pub struct NpcColorChange {
    pub material_name: String,
    pub mode: u8,
    pub colors0: Vec<[i16; 4]>,
    pub colors1: Vec<[i16; 4]>,
}

/// How an NPC accessory takes its colours.
#[derive(Debug, Clone)]
pub struct NpcAccessorySpec {
    pub color_index_channel: u8,
    pub color_changes: Vec<NpcColorChange>,
    pub uses_pollution: bool,
}

pub open spec fn as_byte_color(c: [i16; 4]) -> [u8; 4] {
    [c[0] as u8, c[1] as u8, c[2] as u8, c[3] as u8]
}

/// One colour change applied to a material, at the instance's colour index.
pub open spec fn accessory_change(m: MaterialView, c: NpcColorChange, index: Option<usize>) -> MaterialView {
    if !eq_ignore_case(m.name, c.material_name@) || index is None {
        m
    } else {
        let i = index->0 as nat;
        if c.mode == 0 {
            match table_get(c.colors0@, i) {
                Some(col) => MaterialView { material_colors: m.material_colors.update(0, as_byte_color(col)), ..m },
                None => m,
            }
        } else if c.mode == 1 {
            match table_get(c.colors0@, i) {
                Some(col) => with_tev(m, 0, col),
                None => m,
            }
        } else if c.mode == 2 {
            let m1 = match table_get(c.colors0@, i) {
                Some(col) => with_tev(m, 1, col),
                None => m,
            };
            match table_get(c.colors1@, i) {
                Some(col) => with_tev(m1, 2, col),
                None => m1,
            }
        } else {
            m
        }
    }
}

/// The colour changes applied in order.
pub open spec fn accessory_changes(m: MaterialView, cs: Seq<NpcColorChange>, index: Option<usize>) -> MaterialView
    decreases cs.len(),
{
    if cs.len() == 0 {
        m
    } else {
        accessory_change(accessory_changes(m, cs.drop_last(), index), cs.last(), index)
    }
}

/// Colours an accessory material: every colour change for its material at
/// `color_index` (the index the object's parts colour channel selects), then
/// the pollution K0 colour when the accessory takes it.
pub fn apply_npc_accessory_material_color(
    material: &mut J3dMaterial,
    object: &SceneObject,
    spec: &NpcAccessorySpec,
    color_index: Option<usize>,
)
    ensures
        ({
            let m1 = accessory_changes(old(material)@, spec.color_changes@, color_index);
            final(material)@ == if spec.uses_pollution && pollution_k_color(*object) is Some {
                with_k0(m1, pollution_k_color(*object)->0)
            } else {
                m1
            }
        }),
{
    let mut k: usize = 0;
    while k < spec.color_changes.len()
        invariant
            k <= spec.color_changes@.len(),
            material@ == accessory_changes(old(material)@, spec.color_changes@.take(k as int), color_index),
        decreases spec.color_changes@.len() - k,
    {
        let change = &spec.color_changes[k];
        let ghost before = material@;
        proof {
            assert(spec.color_changes@.take(k + 1).drop_last() =~= spec.color_changes@.take(k as int));
        }
        if name_is(material, change.material_name.as_str()) {
            if let Some(index) = color_index {
                if change.mode == 0 {
                    if index < change.colors0.len() {
                        let c = change.colors0[index];
                        let b = [c[0] as u8, c[1] as u8, c[2] as u8, c[3] as u8];
                        material.material_colors = set_u8_color2(material.material_colors, b);
                    }
                } else if change.mode == 1 {
                    if index < change.colors0.len() {
                        material.tev_colors = set_i16_color(material.tev_colors, 0, change.colors0[index]);
                    }
                } else if change.mode == 2 {
                    if index < change.colors0.len() {
                        material.tev_colors = set_i16_color(material.tev_colors, 1, change.colors0[index]);
                    }
                    if index < change.colors1.len() {
                        material.tev_colors = set_i16_color(material.tev_colors, 2, change.colors1[index]);
                    }
                }
            }
        }
        k += 1;
    }
    proof {
        assert(spec.color_changes@.take(spec.color_changes@.len() as int) =~= spec.color_changes@);
    }
    if spec.uses_pollution {
        if let Some(color) = npc_pollution_k_color(object) {
            material.tev_k_colors = set_u8_color4(material.tev_k_colors, color);
        }
    }
}

} // verus!
