//! The retail music and sound catalogue: sound-effect assignment records,
//! BGM names, their readable labels, and hexadecimal identifiers.
use vstd::prelude::*;
use crate::text::{
    decode_utf8_lossy, occurs_at, utf8_lossy,
    str_equal,
    ascii_lower, char_to_ascii_lower, char_uppercase, chars_of, decode_utf8, has_prefix,
    lower_seq, starts_with, string_of, sub_vec, uppercase_of, utf8_decode, is_ascii_digit,
    char_is_whitespace, is_whitespace, matches_at,
};

verus! {

/// `s` split at every `sep` (`str::split` with one character).
pub open spec fn split_on(s: Seq<char>, sep: char) -> Seq<Seq<char>>
    decreases s.len(),
{
    if s.len() == 0 {
        seq![Seq::empty()]
    } else {
        let parts = split_on(s.drop_last(), sep);
        if s.last() == sep {
            parts.push(Seq::empty())
        } else {
            parts.update(parts.len() - 1, parts.last().push(s.last()))
        }
    }
}

proof fn lemma_split_on_nonempty(s: Seq<char>, sep: char)
    ensures
        split_on(s, sep).len() > 0,
    decreases s.len(),
{
    if s.len() > 0 {
        lemma_split_on_nonempty(s.drop_last(), sep);
    }
}

/// A word with its first character upper-cased (by `char::to_uppercase`)
/// and the rest in ASCII lower case.
pub open spec fn title_word(w: Seq<char>) -> Seq<char> {
    uppercase_of(w[0]) + lower_seq(w.drop_first())
}

/// The title-cased non-empty parts.
pub open spec fn title_words(parts: Seq<Seq<char>>) -> Seq<Seq<char>>
    decreases parts.len(),
{
    if parts.len() == 0 {
        Seq::empty()
    } else {
        let rest = title_words(parts.drop_last());
        if parts.last().len() > 0 {
            rest.push(title_word(parts.last()))
        } else {
            rest
        }
    }
}

/// Words joined by single spaces.
pub open spec fn join_words(ws: Seq<Seq<char>>) -> Seq<char>
    decreases ws.len(),
{
    if ws.len() == 0 {
        Seq::empty()
    } else if ws.len() == 1 {
        ws[0]
    } else {
        join_words(ws.drop_last()) + seq![' '] + ws.last()
    }
}

/// An identifier's `_`-separated words, title-cased and joined by spaces.
pub open spec fn title_case(s: Seq<char>) -> Seq<char> {
    join_words(title_words(split_on(s, '_')))
}

fn title_word_of(word: &Vec<char>) -> (r: Vec<char>)
    requires
        word@.len() > 0,
    ensures
        r@ == title_word(word@),
{
    let first = char_uppercase(word[0]);
    let mut r = chars_of(first.as_str());
    let rest = sub_vec(word, 1, word.len());
    let mut lowered = crate::text::to_ascii_lower(&rest);
    r.append(&mut lowered);
    proof {
        assert(rest@ =~= word@.drop_first());
    }
    r
}

/// Appends a finished part to the words joined so far.
fn push_part(out: &mut Vec<char>, count: &mut usize, words: Ghost<Seq<Seq<char>>>, part: &Vec<char>)
    requires
        old(out)@ == join_words(title_words(words@)),
        *old(count) == title_words(words@).len(),
        *old(count) < usize::MAX,
    ensures
        final(out)@ == join_words(title_words(words@.push(part@))),
        *final(count) == title_words(words@.push(part@)).len(),
        *final(count) <= *old(count) + 1,
        part@.len() == 0 ==> *final(count) == *old(count),
{
    let ghost parts = words@.push(part@);
    assert(parts.drop_last() =~= words@);
    if part.len() > 0 {
        let mut word = title_word_of(part);
        let ghost ws = title_words(words@);
        assert(title_words(parts) == ws.push(title_word(part@)));
        assert(ws.push(title_word(part@)).drop_last() =~= ws);
        if *count > 0 {
            out.push(' ');
        } else {
            proof {
                assert(ws.push(title_word(part@)) =~= seq![title_word(part@)]);
            }
        }
        out.append(&mut word);
        *count = *count + 1;
    }
}

/// Title-cases an identifier: its `_`-separated words, empty ones dropped,
/// each with its first character upper-cased and the rest in lower case,
/// joined by spaces.
pub fn title_case_identifier(value: &str) -> (r: String)
    ensures
        r@ == title_case(value@),
{
    let chars = chars_of(value);
    let mut out: Vec<char> = Vec::new();
    let mut count: usize = 0;
    let mut current: Vec<char> = Vec::new();
    let ghost mut done: Seq<Seq<char>> = Seq::empty();
    let mut i: usize = 0;
    while i < chars.len()
        invariant
            i <= chars.len(),
            chars@ == value@,
            split_on(chars@.take(i as int), '_') == done.push(current@),
            out@ == join_words(title_words(done)),
            count == title_words(done).len(),
            2 * count + current@.len() <= i,
        decreases chars.len() - i,
    {
        let c = chars[i];
        proof {
            assert(chars@.take(i + 1).drop_last() =~= chars@.take(i as int));
        }
        if c == '_' {
            push_part(&mut out, &mut count, Ghost(done), &current);
            proof {
                done = done.push(current@);
            }
            current = Vec::new();
            proof {
                assert(split_on(chars@.take(i + 1), '_') =~= done.push(current@));
            }
        } else {
            let ghost before = current@;
            current.push(c);
            proof {
                let parts = split_on(chars@.take(i as int), '_');
                assert(parts.update(parts.len() - 1, parts.last().push(c)) =~= done.push(current@));
            }
        }
        i += 1;
    }
    push_part(&mut out, &mut count, Ghost(done), &current);
    proof {
        assert(chars@.take(chars.len() as int) =~= chars@);
    }
    string_of(&out)
}


pub open spec fn seq_msd_se() -> Seq<char> {
    seq!['M', 'S', 'D', '_', 'S', 'E', '_']
}

pub open spec fn seq_msd_xx() -> Seq<char> {
    seq!['M', 'S', 'D', '_', 'X', 'X', '_']
}

pub open spec fn seq_msd_bgm() -> Seq<char> {
    seq!['M', 'S', 'D', '_', 'B', 'G', 'M', '_']
}

/// A sound symbol without its `MSD_SE_` or `MSD_XX_` prefix.
pub open spec fn sound_suffix(symbol: Seq<char>) -> Seq<char> {
    if starts_with(symbol, seq_msd_se()) || starts_with(symbol, seq_msd_xx()) {
        symbol.skip(7)
    } else {
        symbol
    }
}

/// A sound symbol's label drops a leading `MSD_SE_` or `MSD_XX_` alike and
/// title-cases what follows; a symbol with neither prefix is title-cased
/// whole.
pub proof fn sound_labels_drop_either_prefix(rest: Seq<char>, symbol: Seq<char>)
    ensures
        sound_suffix(seq!['M', 'S', 'D', '_', 'S', 'E', '_'] + rest) == rest,
        sound_suffix(seq!['M', 'S', 'D', '_', 'X', 'X', '_'] + rest) == rest,
        title_case(sound_suffix(seq!['M', 'S', 'D', '_', 'X', 'X', '_'] + rest)) == title_case(
            sound_suffix(seq!['M', 'S', 'D', '_', 'S', 'E', '_'] + rest),
        ),
        !(symbol.len() >= 7 && symbol.take(7) == seq!['M', 'S', 'D', '_', 'S', 'E', '_']) && !(symbol.len() >= 7
            && symbol.take(7) == seq!['M', 'S', 'D', '_', 'X', 'X', '_']) ==> sound_suffix(symbol) == symbol,
{
    let se = seq!['M', 'S', 'D', '_', 'S', 'E', '_'];
    let xx = seq!['M', 'S', 'D', '_', 'X', 'X', '_'];
    assert((se + rest).subrange(0, 7) =~= se);
    assert((se + rest).skip(7) =~= rest);
    assert((xx + rest).subrange(0, 7) =~= xx);
    assert((xx + rest).skip(7) =~= rest);
    assert(se =~= seq_msd_se());
    assert(xx =~= seq_msd_xx());
    if symbol.len() >= 7 {
        assert(symbol.take(7) =~= symbol.subrange(0, 7));
    }
}

/// The readable label of a sound-effect symbol.
pub fn friendly_sound_name(symbol: &str) -> (label: String)
    ensures
        label@ == title_case(sound_suffix(symbol@)),
{
    let chars = chars_of(symbol);
    let se = vec!['M', 'S', 'D', '_', 'S', 'E', '_'];
    let xx = vec!['M', 'S', 'D', '_', 'X', 'X', '_'];
    proof {
        assert(se@ =~= seq_msd_se());
        assert(xx@ =~= seq_msd_xx());
    }
    if has_prefix(&chars, &se) || has_prefix(&chars, &xx) {
        let rest = sub_vec(&chars, 7, chars.len());
        proof {
            assert(rest@ =~= symbol@.skip(7));
        }
        title_case_identifier(string_of(&rest).as_str())
    } else {
        title_case_identifier(symbol)
    }
}

/// The names the editor shows for the retail BGM it knows by their symbol
/// suffix.
pub open spec fn known_bgm_label(suffix: Seq<char>) -> Option<Seq<char>> {
    if suffix == "DOLPIC"@ {
        Some("Delfino Plaza"@)
    } else if suffix == "BIANCO"@ {
        Some("Bianco Hills"@)
    } else if suffix == "MAMMA"@ {
        Some("Gelato Beach"@)
    } else if suffix == "PINNAPACO_SEA"@ {
        Some("Pinna Park Beach"@)
    } else if suffix == "PINNAPACO"@ {
        Some("Pinna Park"@)
    } else if suffix == "MARE_SEA"@ {
        Some("Noki Bay"@)
    } else if suffix == "MONTEVILLAGE"@ {
        Some("Pianta Village"@)
    } else if suffix == "SHILENA"@ {
        Some("Sirena Beach"@)
    } else if suffix == "RICCO"@ {
        Some("Ricco Harbor"@)
    } else if suffix == "GET_SHINE"@ {
        Some("Shine Get"@)
    } else if suffix == "CHUBOSS"@ {
        Some("Mini-Boss"@)
    } else if suffix == "BOSSPAKU_DEMO"@ {
        Some("Petey Piranha Demo"@)
    } else if suffix == "CHUBOSS2"@ {
        Some("Mini-Boss 2"@)
    } else if suffix == "DELFINO"@ {
        Some("Delfino Airstrip"@)
    } else if suffix == "MAREVILLAGE"@ {
        Some("Noki Village"@)
    } else if suffix == "KAGEMARIO"@ {
        Some("Shadow Mario"@)
    } else if suffix == "MONTE_ONSEN"@ {
        Some("Pianta Hot Spring"@)
    } else if suffix == "MECHAKUPPA"@ {
        Some("Mecha-Bowser"@)
    } else if suffix == "TITLEBACK"@ {
        Some("Title Background"@)
    } else if suffix == "MONTE_NIGHT"@ {
        Some("Pianta Village Night"@)
    } else if suffix == "TIME_IVENT"@ {
        Some("Timed Event"@)
    } else if suffix == "MONTE_RESCUE"@ {
        Some("Pianta Rescue"@)
    } else if suffix == "CAMERA_KAGE"@ {
        Some("Shadow Mario Camera"@)
    } else if suffix == "GAMEOVER"@ {
        Some("Game Over"@)
    } else if suffix == "BOSSHANA_2ND3RD"@ {
        Some("Polluted Piranha (2nd/3rd)"@)
    } else if suffix == "BOSSGESO_2DN3RD"@ {
        Some("Gooper Blooper (2nd/3rd)"@)
    } else if suffix == "CHUBOSS_MANTA"@ {
        Some("Phantamanta"@)
    } else if suffix == "MONTE_LAST"@ {
        Some("Pianta Village Finale"@)
    } else if suffix == "KUPPA"@ {
        Some("Bowser"@)
    } else if suffix == "MONTEMAN_RACE"@ {
        Some("Il Piantissimo Race"@)
    } else {
        None
    }
}

fn known_bgm_name(suffix: &str) -> (label: Option<String>)
    ensures
        match label {
            Some(l) => known_bgm_label(suffix@) == Some(l@),
            None => known_bgm_label(suffix@) is None,
        },
{
    if str_equal(suffix, "DOLPIC") {
        return Some("Delfino Plaza".to_owned());
    }
    if str_equal(suffix, "BIANCO") {
        return Some("Bianco Hills".to_owned());
    }
    if str_equal(suffix, "MAMMA") {
        return Some("Gelato Beach".to_owned());
    }
    if str_equal(suffix, "PINNAPACO_SEA") {
        return Some("Pinna Park Beach".to_owned());
    }
    if str_equal(suffix, "PINNAPACO") {
        return Some("Pinna Park".to_owned());
    }
    if str_equal(suffix, "MARE_SEA") {
        return Some("Noki Bay".to_owned());
    }
    if str_equal(suffix, "MONTEVILLAGE") {
        return Some("Pianta Village".to_owned());
    }
    if str_equal(suffix, "SHILENA") {
        return Some("Sirena Beach".to_owned());
    }
    if str_equal(suffix, "RICCO") {
        return Some("Ricco Harbor".to_owned());
    }
    if str_equal(suffix, "GET_SHINE") {
        return Some("Shine Get".to_owned());
    }
    if str_equal(suffix, "CHUBOSS") {
        return Some("Mini-Boss".to_owned());
    }
    if str_equal(suffix, "BOSSPAKU_DEMO") {
        return Some("Petey Piranha Demo".to_owned());
    }
    if str_equal(suffix, "CHUBOSS2") {
        return Some("Mini-Boss 2".to_owned());
    }
    if str_equal(suffix, "DELFINO") {
        return Some("Delfino Airstrip".to_owned());
    }
    if str_equal(suffix, "MAREVILLAGE") {
        return Some("Noki Village".to_owned());
    }
    if str_equal(suffix, "KAGEMARIO") {
        return Some("Shadow Mario".to_owned());
    }
    if str_equal(suffix, "MONTE_ONSEN") {
        return Some("Pianta Hot Spring".to_owned());
    }
    if str_equal(suffix, "MECHAKUPPA") {
        return Some("Mecha-Bowser".to_owned());
    }
    if str_equal(suffix, "TITLEBACK") {
        return Some("Title Background".to_owned());
    }
    if str_equal(suffix, "MONTE_NIGHT") {
        return Some("Pianta Village Night".to_owned());
    }
    if str_equal(suffix, "TIME_IVENT") {
        return Some("Timed Event".to_owned());
    }
    if str_equal(suffix, "MONTE_RESCUE") {
        return Some("Pianta Rescue".to_owned());
    }
    if str_equal(suffix, "CAMERA_KAGE") {
        return Some("Shadow Mario Camera".to_owned());
    }
    if str_equal(suffix, "GAMEOVER") {
        return Some("Game Over".to_owned());
    }
    if str_equal(suffix, "BOSSHANA_2ND3RD") {
        return Some("Polluted Piranha (2nd/3rd)".to_owned());
    }
    if str_equal(suffix, "BOSSGESO_2DN3RD") {
        return Some("Gooper Blooper (2nd/3rd)".to_owned());
    }
    if str_equal(suffix, "CHUBOSS_MANTA") {
        return Some("Phantamanta".to_owned());
    }
    if str_equal(suffix, "MONTE_LAST") {
        return Some("Pianta Village Finale".to_owned());
    }
    if str_equal(suffix, "KUPPA") {
        return Some("Bowser".to_owned());
    }
    if str_equal(suffix, "MONTEMAN_RACE") {
        return Some("Il Piantissimo Race".to_owned());
    }
    None
}

/// A BGM symbol without its `MSD_BGM_` prefix.
pub open spec fn bgm_suffix(symbol: Seq<char>) -> Seq<char> {
    if starts_with(symbol, seq_msd_bgm()) {
        symbol.skip(8)
    } else {
        symbol
    }
}

/// The readable label of a retail BGM symbol: the stage or event it plays
/// in, or its title-cased suffix when the editor does not know it.
pub open spec fn bgm_label(symbol: Seq<char>) -> Seq<char> {
    match known_bgm_label(bgm_suffix(symbol)) {
        Some(label) => label,
        None => title_case(bgm_suffix(symbol)),
    }
}

/// A BGM symbol's label is looked up, or title-cased, from what follows a
/// leading `MSD_BGM_`; a symbol without that prefix is used whole.
pub proof fn bgm_labels_drop_their_prefix(rest: Seq<char>, symbol: Seq<char>)
    ensures
        bgm_suffix(seq!['M', 'S', 'D', '_', 'B', 'G', 'M', '_'] + rest) == rest,
        known_bgm_label(rest) is None ==> bgm_label(seq!['M', 'S', 'D', '_', 'B', 'G', 'M', '_'] + rest)
            == title_case(rest),
        known_bgm_label(rest) matches Some(l) ==> bgm_label(seq!['M', 'S', 'D', '_', 'B', 'G', 'M', '_'] + rest)
            == l,
        !(symbol.len() >= 8 && symbol.take(8) == seq!['M', 'S', 'D', '_', 'B', 'G', 'M', '_']) ==> bgm_suffix(
            symbol,
        ) == symbol,
{
    let p = seq!['M', 'S', 'D', '_', 'B', 'G', 'M', '_'];
    assert((p + rest).subrange(0, 8) =~= p);
    assert((p + rest).skip(8) =~= rest);
    assert(p =~= seq_msd_bgm());
    if symbol.len() >= 8 {
        assert(symbol.take(8) =~= symbol.subrange(0, 8));
    }
}

pub fn friendly_bgm_name(symbol: &str) -> (label: String)
    ensures
        label@ == bgm_label(symbol@),
{
    let chars = chars_of(symbol);
    let bgm = vec!['M', 'S', 'D', '_', 'B', 'G', 'M', '_'];
    proof {
        assert(bgm@ =~= seq_msd_bgm());
    }
    let suffix = if has_prefix(&chars, &bgm) {
        let rest = sub_vec(&chars, 8, chars.len());
        proof {
            assert(rest@ =~= symbol@.skip(8));
        }
        string_of(&rest)
    } else {
        string_of(&chars)
    };
    match known_bgm_name(suffix.as_str()) {
        Some(label) => label,
        None => title_case_identifier(suffix.as_str()),
    }
}


/// Why a hexadecimal number does not parse (`std::num::IntErrorKind`).
pub enum HexIssue {
    Empty,
    InvalidDigit,
    PosOverflow,
}

/// `s` without any leading `0x` prefixes (`trim_start_matches("0x")`).
pub open spec fn trim_hex_prefixes(s: Seq<char>) -> Seq<char>
    decreases s.len(),
{
    if s.len() >= 2 && s[0] == '0' && s[1] == 'x' {
        trim_hex_prefixes(s.skip(2))
    } else {
        s
    }
}

pub open spec fn hex_digit_value(c: char) -> Option<nat> {
    if '0' <= c && c <= '9' {
        Some((c as nat - 48) as nat)
    } else if 'a' <= c && c <= 'f' {
        Some((c as nat - 87) as nat)
    } else if 'A' <= c && c <= 'F' {
        Some((c as nat - 55) as nat)
    } else {
        None
    }
}

/// Reads hexadecimal digits left to right, stopping at the first invalid
/// digit or at the first digit that takes the value past `u32::MAX`.
pub open spec fn hex_scan(d: Seq<char>) -> Result<nat, HexIssue>
    decreases d.len(),
{
    if d.len() == 0 {
        Ok(0)
    } else {
        match hex_scan(d.drop_last()) {
            Err(e) => Err(e),
            Ok(v) => match hex_digit_value(d.last()) {
                None => Err(HexIssue::InvalidDigit),
                Some(x) => if v * 16 + x > u32::MAX {
                    Err(HexIssue::PosOverflow)
                } else {
                    Ok(v * 16 + x)
                },
            },
        }
    }
}

/// `u32::from_str_radix(s, 16)`: an optional `+`, then hexadecimal digits.
pub open spec fn radix16(t: Seq<char>) -> Result<nat, HexIssue> {
    if t.len() == 0 {
        Err(HexIssue::Empty)
    } else if t.len() == 1 && (t[0] == '+' || t[0] == '-') {
        Err(HexIssue::InvalidDigit)
    } else if t[0] == '+' {
        hex_scan(t.drop_first())
    } else {
        hex_scan(t)
    }
}

/// How `ParseIntError` describes each issue.
pub open spec fn issue_text(e: HexIssue) -> Seq<char> {
    match e {
        HexIssue::Empty => "cannot parse integer from empty string"@,
        HexIssue::InvalidDigit => "invalid digit found in string"@,
        HexIssue::PosOverflow => "number too large to fit in target type"@,
    }
}

fn issue_message(e: &HexIssue) -> (m: String)
    ensures
        m@ == issue_text(*e),
{
    match e {
        HexIssue::Empty => "cannot parse integer from empty string".to_owned(),
        HexIssue::InvalidDigit => "invalid digit found in string".to_owned(),
        HexIssue::PosOverflow => "number too large to fit in target type".to_owned(),
    }
}

fn digit_of(c: char) -> (r: Option<u32>)
    ensures
        match r {
            Some(x) => hex_digit_value(c) == Some(x as nat),
            None => hex_digit_value(c) is None,
        },
{
    if '0' <= c && c <= '9' {
        Some(c as u32 - 48)
    } else if 'a' <= c && c <= 'f' {
        Some(c as u32 - 87)
    } else if 'A' <= c && c <= 'F' {
        Some(c as u32 - 55)
    } else {
        None
    }
}

fn radix16_of(t: &Vec<char>) -> (r: Result<u32, HexIssue>)
    ensures
        match r {
            Ok(v) => radix16(t@) == Ok::<nat, HexIssue>(v as nat),
            Err(e) => radix16(t@) == Err::<nat, HexIssue>(e),
        },
{
    if t.len() == 0 {
        return Err(HexIssue::Empty);
    }
    if t.len() == 1 && (t[0] == '+' || t[0] == '-') {
        return Err(HexIssue::InvalidDigit);
    }
    let start: usize = if t[0] == '+' {
        1
    } else {
        0
    };
    let ghost d = if t@[0] == '+' {
        t@.drop_first()
    } else {
        t@
    };
    assert(d =~= t@.skip(start as int));
    assert(radix16(t@) == hex_scan(d));
    assert(t@.subrange(start as int, start as int) =~= Seq::<char>::empty());
    let mut value: u32 = 0;
    let mut k: usize = start;
    while k < t.len()
        invariant
            start <= k <= t.len(),
            d =~= t@.skip(start as int),
            radix16(t@) == hex_scan(d),
            hex_scan(t@.subrange(start as int, k as int)) == Ok::<nat, HexIssue>(value as nat),
        decreases t.len() - k,
    {
        let ghost prefix = t@.subrange(start as int, k as int);
        assert(t@.subrange(start as int, k + 1).drop_last() =~= prefix);
        let x = match digit_of(t[k]) {
            Some(x) => x,
            None => {
                proof {
                    assert(d.take((k - start) as int + 1) =~= t@.subrange(start as int, k + 1));
                    assert(t@.subrange(start as int, k + 1).last() == t@[k as int]);
                    assert(hex_scan(d.take((k - start) as int + 1)) == Err::<nat, HexIssue>(HexIssue::InvalidDigit));
                    lemma_hex_scan_error_sticks(d, (k - start) as int + 1, HexIssue::InvalidDigit);
                }
                return Err(HexIssue::InvalidDigit);
            },
        };
        if value > 0x0fff_ffff || value * 16 > u32::MAX - x {
            proof {
                assert(d.take((k - start) as int + 1) =~= t@.subrange(start as int, k + 1));
                assert(t@.subrange(start as int, k + 1).last() == t@[k as int]);
                assert(value as nat * 16 + x as nat > u32::MAX);
                assert(hex_scan(d.take((k - start) as int + 1)) == Err::<nat, HexIssue>(HexIssue::PosOverflow));
                lemma_hex_scan_error_sticks(d, (k - start) as int + 1, HexIssue::PosOverflow);
            }
            return Err(HexIssue::PosOverflow);
        }
        value = value * 16 + x;
        proof {
            assert(hex_scan(t@.subrange(start as int, k + 1)) == Ok::<nat, HexIssue>(value as nat));
        }
        k += 1;
    }
    proof {
        assert(t@.subrange(start as int, t.len() as int) =~= d);
    }
    Ok(value)
}

/// Once a prefix fails to scan, the whole fails the same way.
proof fn lemma_hex_scan_error_sticks(d: Seq<char>, n: int, e: HexIssue)
    requires
        0 <= n <= d.len(),
        hex_scan(d.take(n)) == Err::<nat, HexIssue>(e),
    ensures
        hex_scan(d) == Err::<nat, HexIssue>(e),
    decreases d.len() - n,
{
    if n < d.len() {
        assert(d.take(n + 1).drop_last() =~= d.take(n));
        lemma_hex_scan_error_sticks(d, n + 1, e);
    } else {
        assert(d.take(n) =~= d);
    }
}

/// Parses a hexadecimal identifier, after any leading `0x`.
pub fn parse_hex(value: &str) -> (r: Result<u32, String>)
    ensures
        match radix16(trim_hex_prefixes(value@)) {
            Ok(v) => r == Ok::<u32, String>(v as u32),
            Err(e) => r matches Err(m) && m@ == "parse hexadecimal value "@ + value@ + ": "@
                + issue_text(e),
        },
{
    let chars = chars_of(value);
    let mut start: usize = 0;
    assert(chars@.skip(0) =~= chars@);
    while chars.len() - start >= 2 && chars[start] == '0' && chars[start + 1] == 'x'
        invariant
            start <= chars.len(),
            chars@ == value@,
            trim_hex_prefixes(value@) == trim_hex_prefixes(chars@.skip(start as int)),
        decreases chars.len() - start,
    {
        assert(chars@.skip(start as int).skip(2) =~= chars@.skip(start + 2));
        start += 2;
    }
    let t = sub_vec(&chars, start, chars.len());
    assert(t@ =~= chars@.skip(start as int));
    match radix16_of(&t) {
        Ok(v) => Ok(v),
        Err(e) => {
            let mut m = chars_of("parse hexadecimal value ");
            let mut v = chars_of(value);
            m.append(&mut v);
            let mut sep = chars_of(": ");
            m.append(&mut sep);
            let mut text = chars_of(issue_message(&e).as_str());
            m.append(&mut text);
            Err(string_of(&m))
        },
    }
}


/// One named sound-effect assignment of the retail `mSound.asn`.
#[derive(Debug)]
pub struct RetailSoundEntry {
    pub sound_id: u32,
    pub symbol: String,
    pub label: String,
}

/// The `k`-th 32-byte assignment record after the 16-byte header.
pub open spec fn asn_record(bytes: Seq<u8>, k: int) -> Seq<u8> {
    bytes.subrange(16 + 32 * k, 16 + 32 * k + 32)
}

/// How many whole records follow the header.
pub open spec fn asn_record_count(len: nat) -> nat {
    if len < 16 {
        0
    } else {
        ((len - 16) / 32) as nat
    }
}

/// The length of a record's name: up to its first NUL in the 30-byte name
/// field, or the whole field.
pub open spec fn asn_name_len(rec: Seq<u8>) -> int {
    if exists|i: int| 0 <= i < 30 && rec[i] == 0 {
        choose|i: int| 0 <= i < 30 && rec[i] == 0 && forall|j: int| 0 <= j < i ==> rec[j] != 0
    } else {
        30
    }
}

/// The sound a record assigns: its name when that is UTF-8 and a sound
/// effect's (`MSD_SE_` or `MSD_XX_`), with the big-endian id in its last two
/// bytes.
pub open spec fn asn_sound(rec: Seq<u8>) -> Option<(nat, Seq<char>)> {
    match utf8_decode(rec.take(asn_name_len(rec))) {
        Some(sym) => if starts_with(sym, seq_msd_se()) || starts_with(sym, seq_msd_xx()) {
            Some((rec[30] as nat * 256 + rec[31] as nat, sym))
        } else {
            None
        },
        None => None,
    }
}

/// The sound assignments of the first `n` records, in record order.
pub open spec fn asn_sounds(bytes: Seq<u8>, n: nat) -> Seq<(nat, Seq<char>)>
    decreases n,
{
    if n == 0 {
        Seq::empty()
    } else {
        let rest = asn_sounds(bytes, (n - 1) as nat);
        match asn_sound(asn_record(bytes, n - 1)) {
            Some(e) => rest.push(e),
            None => rest,
        }
    }
}

pub open spec fn same_id_pair(es: Seq<(nat, Seq<char>)>, i: int, j: int) -> bool {
    0 <= i < j < es.len() && es[i].0 == es[j].0
}

/// The first assignment (by position) that repeats an earlier one's id, with
/// that earlier one.
pub open spec fn first_repeat(es: Seq<(nat, Seq<char>)>) -> Option<(int, int)> {
    if exists|i: int, j: int| same_id_pair(es, i, j) {
        Some(
            choose|i: int, j: int|
                same_id_pair(es, i, j) && forall|i2: int, j2: int|
                    #[trigger] same_id_pair(es, i2, j2) ==> j <= j2,
        )
    } else {
        None
    }
}

pub open spec fn hex_upper_digit(d: nat) -> char {
    if d < 10 {
        (48 + d) as char
    } else {
        (55 + d) as char
    }
}

/// `format!("{n:04X}")` for `n < 0x10000`.
pub open spec fn hex4(n: nat) -> Seq<char> {
    seq![
        hex_upper_digit(n / 4096),
        hex_upper_digit((n / 256) % 16),
        hex_upper_digit((n / 16) % 16),
        hex_upper_digit(n % 16),
    ]
}

pub open spec fn asn_too_short() -> Seq<char> {
    "retail mSound.asn is too short for its assignment records"@
}

pub open spec fn asn_no_sounds() -> Seq<char> {
    "retail mSound.asn contains no named sound-effect assignments"@
}

pub open spec fn asn_repeat(first: Seq<char>, second: Seq<char>, id: nat) -> Seq<char> {
    "retail mSound.asn assigns both "@ + first + " and "@ + second + " to SE 0x"@ + hex4(id)
}

/// The entry a listed assignment becomes.
pub open spec fn entry_of(e: RetailSoundEntry, a: (nat, Seq<char>)) -> bool {
    e.sound_id == a.0 && e.symbol@ == a.1 && e.label@ == title_case(sound_suffix(a.1))
}

fn hex_upper_char(d: u32) -> (c: char)
    requires
        d < 16,
    ensures
        c == hex_upper_digit(d as nat),
{
    if d < 10 {
        crate::text::char_from_ascii((48 + d) as u8)
    } else {
        crate::text::char_from_ascii((55 + d) as u8)
    }
}

fn hex4_chars(n: u32) -> (v: Vec<char>)
    requires
        n < 0x10000,
    ensures
        v@ == hex4(n as nat),
{
    let v = vec![
        hex_upper_char(n / 4096),
        hex_upper_char((n / 256) % 16),
        hex_upper_char((n / 16) % 16),
        hex_upper_char(n % 16),
    ];
    proof {
        assert(v@ =~= hex4(n as nat));
    }
    v
}

proof fn lemma_asn_sounds_prefix(bytes: Seq<u8>, m: nat, n: nat)
    requires
        m <= n,
    ensures
        asn_sounds(bytes, m).len() <= asn_sounds(bytes, n).len(),
        asn_sounds(bytes, n).take(asn_sounds(bytes, m).len() as int) == asn_sounds(bytes, m),
    decreases n - m,
{
    if m < n {
        lemma_asn_sounds_prefix(bytes, m, (n - 1) as nat);
        let a = asn_sounds(bytes, m);
        let b = asn_sounds(bytes, (n - 1) as nat);
        let c = asn_sounds(bytes, n);
        assert(c.take(b.len() as int) =~= b);
        assert(c.take(a.len() as int) =~= b.take(a.len() as int));
    } else {
        assert(asn_sounds(bytes, n).take(asn_sounds(bytes, n).len() as int) =~= asn_sounds(bytes, n));
    }
}

/// When a prefix without repeats is followed by an assignment repeating
/// position `p`'s id, that is the first repeat of every extension.
proof fn lemma_first_repeat(es: Seq<(nat, Seq<char>)>, len: int, p: int)
    requires
        0 <= p < len < es.len(),
        es[p].0 == es[len].0,
        forall|i: int, j: int| 0 <= i < j < len ==> !#[trigger] same_id_pair(es, i, j),
    ensures
        first_repeat(es) == Some((p, len)),
{
    assert(same_id_pair(es, p, len));
    let (i, j) = choose|i: int, j: int|
        same_id_pair(es, i, j) && forall|i2: int, j2: int| #[trigger] same_id_pair(es, i2, j2) ==> j <= j2;
    assert(same_id_pair(es, i, j));
    assert(j <= len);
    if j < len {
        assert(!same_id_pair(es, i, j));
    }
    assert(j == len);
    if i < p {
        assert(!same_id_pair(es, i, p));
    } else if p < i {
        assert(!same_id_pair(es, p, i));
    }
}

proof fn lemma_no_repeat(es: Seq<(nat, Seq<char>)>)
    requires
        forall|i: int, j: int| 0 <= i < j < es.len() ==> !#[trigger] same_id_pair(es, i, j),
    ensures
        first_repeat(es) is None,
{
    if exists|i: int, j: int| same_id_pair(es, i, j) {
        let (i, j) = choose|i: int, j: int| same_id_pair(es, i, j);
        assert(!same_id_pair(es, i, j));
    }
}

/// The position of a record's name end.
fn asn_name_len_of(bytes: &[u8], off: usize) -> (n: usize)
    requires
        off + 32 <= bytes@.len(),
    ensures
        n == asn_name_len(bytes@.subrange(off as int, off + 32)),
        n <= 30,
{
    let ghost rec = bytes@.subrange(off as int, off + 32);
    let len = bytes.len();
    assert(len == bytes@.len());
    let mut i: usize = 0;
    while i < 30
        invariant
            i <= 30,
            off + 32 <= bytes@.len(),
            bytes@.len() <= usize::MAX,
            rec == bytes@.subrange(off as int, off + 32),
            forall|j: int| 0 <= j < i ==> rec[j] != 0,
        decreases 30 - i,
    {
        if bytes[off + i] == 0 {
            proof {
                assert(rec[i as int] == 0);
                let k = choose|k: int| 0 <= k < 30 && rec[k] == 0 && forall|j: int| 0 <= j < k ==> rec[j] != 0;
                if k < i {
                    assert(rec[k] != 0);
                }
                if i < k {
                    assert(rec[i as int] != 0);
                }
            }
            return i;
        }
        i += 1;
    }
    30
}

fn copy_bytes(bytes: &[u8], from: usize, to: usize) -> (v: Vec<u8>)
    requires
        from <= to <= bytes@.len(),
    ensures
        v@ == bytes@.subrange(from as int, to as int),
{
    let mut v: Vec<u8> = Vec::new();
    let mut i = from;
    while i < to
        invariant
            from <= i <= to <= bytes@.len(),
            v@ == bytes@.subrange(from as int, i as int),
        decreases to - i,
    {
        v.push(bytes[i]);
        proof {
            assert(v@ =~= bytes@.subrange(from as int, i + 1));
        }
        i += 1;
    }
    v
}

/// The sound a record at `off` assigns.
fn asn_sound_at(bytes: &[u8], off: usize) -> (r: Option<(u32, String)>)
    requires
        off + 32 <= bytes@.len(),
    ensures
        match r {
            Some((id, sym)) => asn_sound(bytes@.subrange(off as int, off + 32)) == Some(
                (id as nat, sym@),
            ),
            None => asn_sound(bytes@.subrange(off as int, off + 32)) is None,
        },
{
    let ghost rec = bytes@.subrange(off as int, off + 32);
    let len = bytes.len();
    assert(len == bytes@.len());
    let n = asn_name_len_of(bytes, off);
    let name = copy_bytes(bytes, off, off + n);
    assert(name@ =~= rec.take(n as int));
    let symbol = match decode_utf8(name.as_slice()) {
        Some(s) => s,
        None => return None,
    };
    let chars = chars_of(symbol.as_str());
    let se = vec!['M', 'S', 'D', '_', 'S', 'E', '_'];
    let xx = vec!['M', 'S', 'D', '_', 'X', 'X', '_'];
    proof {
        assert(se@ =~= seq_msd_se());
        assert(xx@ =~= seq_msd_xx());
    }
    if !(has_prefix(&chars, &se) || has_prefix(&chars, &xx)) {
        return None;
    }
    let id = bytes[off + 30] as u32 * 256 + bytes[off + 31] as u32;
    Some((id, symbol))
}

/// Reads the named sound-effect assignments of a retail `mSound.asn`: after
/// a 16-byte header, 32-byte records of a NUL-padded 30-byte name and a
/// big-endian id. Records whose name is not UTF-8 or not a sound effect's
/// are skipped; two assignments of one id are an error. The entries come
/// ordered by id.
/// The entry comes from one of the assignments.
pub open spec fn entry_listed(e: RetailSoundEntry, es: Seq<(nat, Seq<char>)>) -> bool {
    exists|m: int| 0 <= m < es.len() && entry_of(e, es[m])
}

/// Some entry comes from the assignment.
pub open spec fn assignment_listed(v: Seq<RetailSoundEntry>, a: (nat, Seq<char>)) -> bool {
    exists|k: int| 0 <= k < v.len() && entry_of(v[k], a)
}

/// What reading a retail `mSound.asn` gives: too short, the first repeated
/// id, no sounds at all, or every assignment once, ordered by id.
pub open spec fn sound_catalogue(bytes: Seq<u8>, r: Result<Vec<RetailSoundEntry>, String>) -> bool {
    &&& bytes.len() < 48 ==> (r matches Err(m) && m@ == asn_too_short())
    &&& bytes.len() >= 48 ==> {
        let es = asn_sounds(bytes, asn_record_count(bytes.len()));
        match first_repeat(es) {
            Some((i, j)) => (r matches Err(m) && m@ == asn_repeat(es[i].1, es[j].1, es[j].0)),
            None => if es.len() == 0 {
                (r matches Err(m) && m@ == asn_no_sounds())
            } else {
                r matches Ok(v) && (forall|k: int|
                    0 <= k < v@.len() ==> entry_listed(#[trigger] v@[k], es)) && (forall|m: int|
                    0 <= m < es.len() ==> assignment_listed(v@, #[trigger] es[m])) && (forall|
                    k1: int,
                    k2: int,
                | 0 <= k1 < k2 < v@.len() ==> #[trigger] v@[k1].sound_id < #[trigger] v@[k2].sound_id)
            },
        }
    }
}

#[verifier::rlimit(60)]
pub fn extract_retail_sound_entries(bytes: &[u8]) -> (r: Result<Vec<RetailSoundEntry>, String>)
    ensures
        sound_catalogue(bytes@, r),
{
    if bytes.len() < 48 {
        return Err("retail mSound.asn is too short for its assignment records".to_owned());
    }
    let len = bytes.len();
    let count = (len - 16) / 32;
    assert(16 + 32 * count <= len) by (nonlinear_arith)
        requires
            count == (len - 16) / 32,
            len >= 48,
    ;
    let ghost all = asn_sounds(bytes@, count as nat);
    let mut entries: Vec<RetailSoundEntry> = Vec::new();
    let mut slot: Vec<Option<usize>> = vec![None; 65536];
    let mut k: usize = 0;
    while k < count
        invariant
            k <= count,
            count == asn_record_count(bytes@.len()),
            len == bytes@.len(),
            16 + 32 * count <= len,
            all == asn_sounds(bytes@, count as nat),
            slot@.len() == 65536,
            entries@.len() == asn_sounds(bytes@, k as nat).len(),
            forall|p: int|
                0 <= p < entries@.len() ==> entry_of(#[trigger] entries@[p], asn_sounds(bytes@, k as nat)[p]),
            forall|p: int|
                0 <= p < entries@.len() ==> (#[trigger] entries@[p]).sound_id < 65536 && slot@[entries@[p].sound_id as int] == Some(p as usize),
            forall|id: int|
                0 <= id < 65536 && (#[trigger] slot@[id]) is Some ==> (slot@[id]->0 as int) < entries@.len() && entries@[slot@[id]->0 as int].sound_id == id,
            forall|i: int, j: int|
                0 <= i < j < entries@.len() ==> #[trigger] entries@[i].sound_id != #[trigger] entries@[j].sound_id,
        decreases count - k,
    {
        let off = 16 + 32 * k;
        let ghost before = asn_sounds(bytes@, k as nat);
        proof {
            assert(asn_record(bytes@, k as int) =~= bytes@.subrange(off as int, off + 32));
        }
        match asn_sound_at(bytes, off) {
            Some((id, symbol)) => {
                let ghost e = (id as nat, symbol@);
                assert(asn_sounds(bytes@, (k + 1) as nat) == before.push(e));
                match slot[id as usize] {
                    Some(p) => {
                        let mut m = chars_of("retail mSound.asn assigns both ");
                        let mut first = chars_of(entries[p].symbol.as_str());
                        m.append(&mut first);
                        let mut and = chars_of(" and ");
                        m.append(&mut and);
                        let mut second = chars_of(symbol.as_str());
                        m.append(&mut second);
                        let mut to = chars_of(" to SE 0x");
                        m.append(&mut to);
                        let mut hex = hex4_chars(id);
                        m.append(&mut hex);
                        proof {
                            let next = before.push(e);
                            lemma_asn_sounds_prefix(bytes@, (k + 1) as nat, count as nat);
                            assert(all.take(next.len() as int) == next);
                            assert(next[before.len() as int] == e);
                            assert(all.take(next.len() as int)[before.len() as int] == all[before.len() as int]);
                            assert(all.take(next.len() as int)[p as int] == all[p as int]);
                            assert(all[p as int] == next[p as int]);
                            assert(all[before.len() as int] == e);
                            assert forall|i: int, j: int| 0 <= i < j < before.len() as int implies !#[trigger] same_id_pair(all, i, j) by {
                                assert(all.take(next.len() as int)[i] == all[i]);
                                assert(all.take(next.len() as int)[j] == all[j]);
                                assert(entry_of(entries@[i], before[i]));
                                assert(entry_of(entries@[j], before[j]));
                            }
                            lemma_first_repeat(all, before.len() as int, p as int);
                        }
                        return Err(string_of(&m));
                    },
                    None => {},
                }
                let label = friendly_sound_name(symbol.as_str());
                let ghost before_entries = entries@;
                slot.set(id as usize, Some(entries.len()));
                entries.push(RetailSoundEntry { sound_id: id, symbol, label });
                proof {
                    assert forall|p: int| 0 <= p < entries@.len() implies entry_of(
                        #[trigger] entries@[p],
                        asn_sounds(bytes@, (k + 1) as nat)[p],
                    ) by {
                        if p < before_entries.len() {
                            assert(entries@[p] == before_entries[p]);
                        }
                    }
                    assert forall|i: int, j: int| 0 <= i < j < entries@.len() implies #[trigger] entries@[i].sound_id
                        != #[trigger] entries@[j].sound_id by {
                        if j == before_entries.len() {
                            assert(entries@[i] == before_entries[i]);
                        } else {
                            assert(entries@[i] == before_entries[i]);
                            assert(entries@[j] == before_entries[j]);
                        }
                    }
                    assert forall|p: int| 0 <= p < entries@.len() implies (#[trigger] entries@[p]).sound_id < 65536
                        && slot@[entries@[p].sound_id as int] == Some(p as usize) by {
                        if p < before_entries.len() {
                            assert(entries@[p] == before_entries[p]);
                        }
                    }
                }
            },
            None => {
                assert(asn_sounds(bytes@, (k + 1) as nat) == before);
            },
        }
        k += 1;
    }
    proof {
        assert forall|i: int, j: int| 0 <= i < j < all.len() implies !#[trigger] same_id_pair(all, i, j) by {
            assert(entry_of(entries@[i], all[i]));
            assert(entry_of(entries@[j], all[j]));
        }
        lemma_no_repeat(all);
    }
    if entries.len() == 0 {
        return Err("retail mSound.asn contains no named sound-effect assignments".to_owned());
    }
    let mut out: Vec<RetailSoundEntry> = Vec::new();
    let ghost mut pos: Seq<int> = Seq::empty();
    let n_entries = entries.len();
    let mut id: usize = 0;
    while id < 65536
        invariant
            id <= 65536,
            n_entries == entries@.len(),
            slot@.len() == 65536,
            count == asn_record_count(bytes@.len()),
            all == asn_sounds(bytes@, count as nat),
            first_repeat(all) is None,
            entries@.len() == all.len(),
            all.len() > 0,
            forall|p: int| 0 <= p < entries@.len() ==> entry_of(#[trigger] entries@[p], all[p]),
            forall|p: int|
                0 <= p < entries@.len() ==> (#[trigger] entries@[p]).sound_id < 65536 && slot@[entries@[p].sound_id as int] == Some(p as usize),
            forall|i: int|
                0 <= i < 65536 && (#[trigger] slot@[i]) is Some ==> (slot@[i]->0 as int) < entries@.len() && entries@[slot@[i]->0 as int].sound_id == i,
            pos.len() == out@.len(),
            forall|k: int|
                #![trigger out@[k]]
                #![trigger pos[k]]
                0 <= k < out@.len() ==> 0 <= pos[k] && pos[k] < all.len() && entry_of(out@[k], all[pos[k]])
                    && out@[k].sound_id < id,
            forall|p: int|
                0 <= p < entries@.len() && (#[trigger] entries@[p]).sound_id < id ==> exists|k: int|
                    0 <= k < pos.len() && pos[k] == p,
            forall|k1: int, k2: int|
                0 <= k1 < k2 < out@.len() ==> #[trigger] out@[k1].sound_id < #[trigger] out@[k2].sound_id,
        decreases 65536 - id,
    {
        match slot[id] {
            Some(p) => {
                assert(slot@[id as int] == Some(p));
                let e = &entries[p];
                let copy = RetailSoundEntry {
                    sound_id: e.sound_id,
                    symbol: e.symbol.clone(),
                    label: e.label.clone(),
                };
                let ghost before = out@;
                let ghost pos0 = pos;
                out.push(copy);
                proof {
                    pos = pos.push(p as int);
                    assert(entry_of(entries@[p as int], all[p as int]));
                    assert(entry_of(out@[before.len() as int], all[p as int]));
                    assert(entries@[p as int].sound_id == id);
                    assert forall|k1: int, k2: int| 0 <= k1 < k2 < out@.len() implies #[trigger] out@[k1].sound_id
                        < #[trigger] out@[k2].sound_id by {
                        assert(out@[k1] == before[k1]);
                        if k2 < before.len() {
                            assert(out@[k2] == before[k2]);
                        }
                    }
                    assert forall|q: int| 0 <= q < entries@.len() && (#[trigger] entries@[q]).sound_id < id + 1 implies exists|k: int|
                        0 <= k < pos.len() && pos[k] == q by {
                        if entries@[q].sound_id == id {
                            assert(slot@[entries@[q].sound_id as int] == Some(q as usize));
                            assert(pos[before.len() as int] == q);
                        } else {
                            let k = choose|k: int| 0 <= k < pos0.len() && pos0[k] == q;
                            assert(pos[k] == q);
                        }
                    }
                    assert(0 <= pos[before.len() as int] < entries@.len());
                    assert forall|k: int| #![trigger out@[k]] #![trigger pos[k]] 0 <= k < out@.len() implies 0 <= pos[k] && pos[k] < all.len()
                        && entry_of(out@[k], all[pos[k]]) && out@[k].sound_id < id + 1 by {
                        if k < before.len() {
                            assert(out@[k] == before[k]);
                            assert(pos[k] == pos0[k]);
                        }
                    }
                }
            },
            None => {
                proof {
                    assert forall|q: int| 0 <= q < entries@.len() && (#[trigger] entries@[q]).sound_id < id + 1 implies exists|k: int|
                        0 <= k < pos.len() && pos[k] == q by {
                        if entries@[q].sound_id == id {
                            assert(slot@[entries@[q].sound_id as int] == Some(q as usize));
                        }
                    }
                }
            },
        }
        id += 1;
    }
    proof {
        let es = asn_sounds(bytes@, asn_record_count(bytes@.len()));
        assert(es == all);
        assert forall|k: int| 0 <= k < out@.len() implies entry_listed(#[trigger] out@[k], es) by {
            assert(entry_of(out@[k], es[pos[k]]));
        }
        assert forall|m: int| 0 <= m < es.len() implies assignment_listed(out@, #[trigger] es[m]) by {
            assert(entries@[m].sound_id < 65536);
            let k = choose|k: int| 0 <= k < pos.len() && pos[k] == m;
            assert(entry_of(out@[k], es[m]));
        }
        assert(es.len() > 0);
        assert(first_repeat(es) is None);
    }
    Ok(out)
}

/// The sound-effect catalogue of a retail `mSound.asn`, from its bytes.
pub fn index_retail_sounds(bytes: &[u8]) -> (r: Result<Vec<RetailSoundEntry>, String>)
    ensures
        sound_catalogue(bytes@, r),
{
    extract_retail_sound_entries(bytes)
}


/// The base of the retail BGM identifiers.
pub const BGM_BASE: u32 = 0x8001_0000;

/// A character of a BGM symbol after `MSD_BGM_`: `[A-Z0-9_]`.
pub open spec fn is_symbol_char(c: char) -> bool {
    ('A' <= c && c <= 'Z') || ('0' <= c && c <= '9') || c == '_'
}

/// Where the run of symbol characters from `j` ends.
pub open spec fn symbol_run_end(s: Seq<char>, j: int) -> int
    decreases s.len() - j,
{
    if 0 <= j < s.len() && is_symbol_char(s[j]) {
        symbol_run_end(s, j + 1)
    } else {
        j
    }
}

pub proof fn lemma_symbol_run_end(s: Seq<char>, j: int)
    requires
        0 <= j <= s.len(),
    ensures
        j <= symbol_run_end(s, j) <= s.len(),
        forall|k: int| j <= k < symbol_run_end(s, j) ==> is_symbol_char(#[trigger] s[k]),
        symbol_run_end(s, j) < s.len() ==> !is_symbol_char(s[symbol_run_end(s, j)]),
    decreases s.len() - j,
{
    if j < s.len() && is_symbol_char(s[j]) {
        lemma_symbol_run_end(s, j + 1);
    }
}

/// A BGM symbol starts at `i`: `MSD_BGM_` and at least one symbol character.
pub open spec fn bgm_symbol_at(s: Seq<char>, i: int) -> bool {
    occurs_at(s, seq_msd_bgm(), i) && i + 8 < s.len() && is_symbol_char(s[i + 8])
}

/// The BGM symbols in `s` from position `i` on, each as long as it runs,
/// scanning on after each (the matches of `MSD_BGM_[A-Z0-9_]+`).
pub open spec fn bgm_symbols_from(s: Seq<char>, i: int) -> Seq<Seq<char>>
    decreases s.len() - i,
{
    if i < 0 || i >= s.len() {
        Seq::empty()
    } else if bgm_symbol_at(s, i) {
        let e = symbol_run_end(s, i + 8);
        proof {
            lemma_symbol_run_end(s, i + 8);
        }
        seq![s.subrange(i, e)] + bgm_symbols_from(s, e)
    } else {
        bgm_symbols_from(s, i + 1)
    }
}

/// Each name once, in the order of its first appearance.
pub open spec fn first_occurrences(ms: Seq<Seq<char>>) -> Seq<Seq<char>>
    decreases ms.len(),
{
    if ms.len() == 0 {
        Seq::empty()
    } else {
        let d = first_occurrences(ms.drop_last());
        if d.contains(ms.last()) {
            d
        } else {
            d.push(ms.last())
        }
    }
}

/// The retail BGM names of a sound-assignment text, by identifier: the
/// `k`-th distinct name is BGM `0x80010000 + k + 1`.
pub open spec fn bgm_names(source: Seq<char>, m: Map<u32, String>) -> bool {
    let names = first_occurrences(bgm_symbols_from(source, 0));
    &&& forall|id: u32|
        #[trigger] m.contains_key(id) <==> BGM_BASE < id && id - BGM_BASE <= names.len()
    &&& forall|id: u32| #[trigger] m.contains_key(id) ==> m[id]@ == names[id - BGM_BASE - 1]
}

pub open spec fn no_bgm_names() -> Seq<char> {
    "retail mSound.asn contains no MSD_BGM names"@
}

pub open spec fn bgm_count_overflow() -> Seq<char> {
    "retail BGM name count does not fit u32"@
}

fn is_symbol_char_exec(c: char) -> (b: bool)
    ensures
        b == is_symbol_char(c),
{
    ('A' <= c && c <= 'Z') || ('0' <= c && c <= '9') || c == '_'
}

fn contains_name(names: &Vec<Vec<char>>, name: &Vec<char>) -> (b: bool)
    ensures
        b == names@.map_values(|v: Vec<char>| v@).contains(name@),
{
    let ghost views = names@.map_values(|v: Vec<char>| v@);
    let mut i: usize = 0;
    while i < names.len()
        invariant
            i <= names.len(),
            views == names@.map_values(|v: Vec<char>| v@),
            forall|j: int| 0 <= j < i ==> views[j] != name@,
        decreases names.len() - i,
    {
        if crate::text::seq_equal(&names[i], name) {
            assert(views[i as int] == name@);
            return true;
        }
        i += 1;
    }
    false
}

/// The distinct BGM symbols of a text, in order of first appearance.
fn distinct_bgm_symbols(chars: &Vec<char>) -> (names: Vec<Vec<char>>)
    ensures
        names@.map_values(|v: Vec<char>| v@) == first_occurrences(bgm_symbols_from(chars@, 0)),
        names@.len() <= chars@.len(),
{
    let prefix = vec!['M', 'S', 'D', '_', 'B', 'G', 'M', '_'];
    proof {
        assert(prefix@ =~= seq_msd_bgm());
    }
    let mut names: Vec<Vec<char>> = Vec::new();
    let ghost mut found: Seq<Seq<char>> = Seq::empty();
    let mut i: usize = 0;
    while i < chars.len()
        invariant
            i <= chars.len(),
            prefix@ == seq_msd_bgm(),
            bgm_symbols_from(chars@, 0) == found + bgm_symbols_from(chars@, i as int),
            names@.map_values(|v: Vec<char>| v@) == first_occurrences(found),
            names@.len() <= i,
        decreases chars.len() - i,
    {
        let at = crate::text::matches_at(chars, &prefix, i);
        if at && i + 8 < chars.len() && is_symbol_char_exec(chars[i + 8]) {
            assert(bgm_symbol_at(chars@, i as int));
            let mut e = i + 9;
            proof {
                lemma_symbol_run_end(chars@, i + 8);
            }
            while e < chars.len() && is_symbol_char_exec(chars[e])
                invariant
                    i + 9 <= e <= chars.len(),
                    symbol_run_end(chars@, i + 8) == symbol_run_end(chars@, e as int),
                decreases chars.len() - e,
            {
                e += 1;
            }
            let symbol = sub_vec(chars, i, e);
            proof {
                let rest = bgm_symbols_from(chars@, e as int);
                assert(bgm_symbols_from(chars@, i as int) == seq![symbol@] + rest);
                assert(found + (seq![symbol@] + rest) =~= found.push(symbol@) + rest);
                assert(found.push(symbol@).drop_last() =~= found);
            }
            let ghost views = names@.map_values(|v: Vec<char>| v@);
            if !contains_name(&names, &symbol) {
                names.push(symbol);
                proof {
                    assert(names@.map_values(|v: Vec<char>| v@) =~= views.push(found.push(symbol@).last()));
                }
            }
            proof {
                found = found.push(symbol@);
            }
            i = e;
        } else {
            proof {
                assert(!bgm_symbol_at(chars@, i as int));
            }
            i += 1;
        }
    }
    proof {
        assert(bgm_symbols_from(chars@, i as int) =~= Seq::<Seq<char>>::empty());
        assert(found + Seq::<Seq<char>>::empty() =~= found);
    }
    names
}

/// Reads the retail BGM names from the sound-assignment text, numbered from
/// `0x80010001` in order of first appearance. A text with `0x7fff0000` or
/// more distinct names is refused: their identifiers would run past `u32`.
pub fn extract_retail_bgm_names(source: &str) -> (r: Result<std::collections::BTreeMap<u32, String>, String>)
    ensures
        ({
            let names = first_occurrences(bgm_symbols_from(source@, 0));
            &&& names.len() >= 0x7fff_0000 ==> (r matches Err(m) && m@ == bgm_count_overflow())
            &&& names.len() == 0 ==> (r matches Err(m) && m@ == no_bgm_names())
            &&& 0 < names.len() < 0x7fff_0000 ==> (r matches Ok(m) && bgm_names(source@, m@))
        }),
{
    let chars = chars_of(source);
    let names = distinct_bgm_symbols(&chars);
    if names.len() >= 0x7fff_0000 {
        return Err("retail BGM name count does not fit u32".to_owned());
    }
    let ghost views = names@.map_values(|v: Vec<char>| v@);
    let mut result: std::collections::BTreeMap<u32, String> = std::collections::BTreeMap::new();
    let mut k: usize = 0;
    while k < names.len()
        invariant
            k <= names.len(),
            views == names@.map_values(|v: Vec<char>| v@),
            views.len() < 0x7fff_0000,
            forall|id: u32|
                #[trigger] result@.contains_key(id) <==> BGM_BASE < id && id - BGM_BASE <= k,
            forall|id: u32| #[trigger] result@.contains_key(id) ==> result@[id]@ == views[id - BGM_BASE - 1],
        decreases names.len() - k,
    {
        let ordinal = (k + 1) as u32;
        let id = BGM_BASE + ordinal;
        result.insert(id, string_of(&names[k]));
        proof {
            assert(views[k as int] == names@[k as int]@);
        }
        k += 1;
    }
    if result.is_empty() {
        proof {
            if views.len() > 0 {
                assert(result@.contains_key((BGM_BASE + 1) as u32));
            }
        }
        return Err("retail mSound.asn contains no MSD_BGM names".to_owned());
    }
    Ok(result)
}

/// The retail BGM names from the bytes of `mSound.asn`, read as lossy UTF-8.
pub fn load_retail_bgm_names(bytes: &[u8]) -> (r: Result<std::collections::BTreeMap<u32, String>, String>)
    ensures
        ({
            let names = first_occurrences(bgm_symbols_from(utf8_lossy(bytes@), 0));
            &&& names.len() >= 0x7fff_0000 ==> (r matches Err(m) && m@ == bgm_count_overflow())
            &&& names.len() == 0 ==> (r matches Err(m) && m@ == no_bgm_names())
            &&& 0 < names.len() < 0x7fff_0000 ==> (r matches Ok(m) && bgm_names(utf8_lossy(bytes@), m@))
        }),
{
    let source = decode_utf8_lossy(bytes);
    extract_retail_bgm_names(source.as_str())
}


// ---------------------------------------------------------------------------
// The decomp's BGM to wave-scene table

/// The end of the white-space run starting at `i`.
pub open spec fn skip_ws(s: Seq<char>, i: int) -> int
    decreases s.len() - i,
{
    if 0 <= i < s.len() && is_whitespace(s[i]) {
        skip_ws(s, i + 1)
    } else {
        i
    }
}

/// The end of the hexadecimal-digit run starting at `i`.
pub open spec fn skip_hex(s: Seq<char>, i: int) -> int
    decreases s.len() - i,
{
    if 0 <= i < s.len() && hex_digit_value(s[i]) is Some {
        skip_hex(s, i + 1)
    } else {
        i
    }
}

/// A `0x`-prefixed hexadecimal literal at `i`: where it ends.
pub open spec fn hex_literal_end(s: Seq<char>, i: int) -> Option<int> {
    if occurs_at(s, "0x"@, i) && skip_hex(s, i + 2) > i + 2 {
        Some(skip_hex(s, i + 2))
    } else {
        None
    }
}

/// A `case 0x..: return 0x..;` arm at `i` (white space as the decomp source
/// may have it): where it ends, and its two literals.
pub open spec fn wave_case_at(s: Seq<char>, i: int) -> Option<(int, Seq<char>, Seq<char>)> {
    let b = skip_ws(s, i + 4);
    if !occurs_at(s, "case"@, i) || b == i + 4 {
        None
    } else {
        match hex_literal_end(s, b) {
            None => None,
            Some(d) => {
                let e = skip_ws(s, d);
                if !(e < s.len() && s[e] == ':') {
                    None
                } else {
                    let f = skip_ws(s, e + 1);
                    let h = skip_ws(s, f + 6);
                    if !occurs_at(s, "return"@, f) || h == f + 6 {
                        None
                    } else {
                        match hex_literal_end(s, h) {
                            None => None,
                            Some(l) => {
                                let m = skip_ws(s, l);
                                if m < s.len() && s[m] == ';' {
                                    Some((m + 1, s.subrange(b, d), s.subrange(h, l)))
                                } else {
                                    None
                                }
                            },
                        }
                    }
                }
            },
        }
    }
}

/// The arms found scanning from `i`, left to right, each search resuming
/// where the last arm ended.
pub open spec fn wave_cases_from(s: Seq<char>, i: int) -> Seq<(Seq<char>, Seq<char>)>
    decreases s.len() - i,
{
    if 0 <= i < s.len() {
        match wave_case_at(s, i) {
            Some((end, a, b)) => if i < end <= s.len() {
                seq![(a, b)] + wave_cases_from(s, end)
            } else {
                Seq::empty()
            },
            None => wave_cases_from(s, i + 1),
        }
    } else {
        Seq::empty()
    }
}

/// How a literal that does not parse is reported.
pub open spec fn hex_error(value: Seq<char>, e: HexIssue) -> Seq<char> {
    "parse hexadecimal value "@ + value + ": "@ + issue_text(e)
}

/// `format!("{n:08X}")`.
pub open spec fn hex8(n: nat) -> Seq<char> {
    hex4(n / 65536) + hex4(n % 65536)
}

/// The table the arms build, in order: each BGM once, or the first literal
/// that does not parse, or the first BGM mapped twice.
pub open spec fn wave_map(arms: Seq<(Seq<char>, Seq<char>)>) -> Result<Map<u32, u32>, Seq<char>>
    decreases arms.len(),
{
    if arms.len() == 0 {
        Ok(Map::empty())
    } else {
        match wave_map(arms.drop_last()) {
            Err(e) => Err(e),
            Ok(m) => {
                let (a, b) = arms.last();
                match radix16(trim_hex_prefixes(a)) {
                    Err(x) => Err(hex_error(a, x)),
                    Ok(k) => match radix16(trim_hex_prefixes(b)) {
                        Err(x) => Err(hex_error(b, x)),
                        Ok(v) => if m.contains_key(k as u32) {
                            Err("decomp contains duplicate BGM mapping 0x"@ + hex8(k))
                        } else {
                            Ok(m.insert(k as u32, v as u32))
                        },
                    },
                }
            },
        }
    }
}

fn skip_ws_at(s: &Vec<char>, i: usize) -> (j: usize)
    requires
        i <= s.len(),
    ensures
        j == skip_ws(s@, i as int),
        i <= j <= s.len(),
{
    let mut j = i;
    while j < s.len() && char_is_whitespace(s[j])
        invariant
            i <= j <= s.len(),
            skip_ws(s@, i as int) == skip_ws(s@, j as int),
        decreases s.len() - j,
    {
        j += 1;
    }
    j
}

fn is_hex_char(c: char) -> (b: bool)
    ensures
        b == hex_digit_value(c) is Some,
{
    ('0' <= c && c <= '9') || ('a' <= c && c <= 'f') || ('A' <= c && c <= 'F')
}

fn hex_literal_end_at(s: &Vec<char>, i: usize) -> (r: Option<usize>)
    requires
        i <= s.len(),
    ensures
        match r {
            Some(e) => hex_literal_end(s@, i as int) == Some(e as int) && e <= s.len(),
            None => hex_literal_end(s@, i as int) is None,
        },
{
    let prefix = chars_of("0x");
    proof {
        reveal_strlit("0x");
    }
    if !matches_at(s, &prefix, i) {
        return None;
    }
    let start = i + 2;
    let mut j = start;
    while j < s.len() && is_hex_char(s[j])
        invariant
            start <= j <= s.len(),
            skip_hex(s@, start as int) == skip_hex(s@, j as int),
        decreases s.len() - j,
    {
        j += 1;
    }
    if j == start {
        None
    } else {
        Some(j)
    }
}

fn wave_case_at_exec(s: &Vec<char>, i: usize) -> (r: Option<(usize, Vec<char>, Vec<char>)>)
    requires
        i <= s.len(),
    ensures
        match r {
            Some((end, a, b)) => wave_case_at(s@, i as int) == Some((end as int, a@, b@)) && i < end
                <= s.len(),
            None => wave_case_at(s@, i as int) is None,
        },
{
    let case_word = chars_of("case");
    proof {
        reveal_strlit("case");
        reveal_strlit("return");
    }
    if !matches_at(s, &case_word, i) {
        return None;
    }
    let b = skip_ws_at(s, i + 4);
    if b == i + 4 {
        return None;
    }
    let d = match hex_literal_end_at(s, b) {
        Some(d) => d,
        None => return None,
    };
    let e = skip_ws_at(s, d);
    if !(e < s.len() && s[e] == ':') {
        return None;
    }
    let f = skip_ws_at(s, e + 1);
    let return_word = chars_of("return");
    if !matches_at(s, &return_word, f) {
        return None;
    }
    let h = skip_ws_at(s, f + 6);
    if h == f + 6 {
        return None;
    }
    let l = match hex_literal_end_at(s, h) {
        Some(l) => l,
        None => return None,
    };
    let m = skip_ws_at(s, l);
    if m < s.len() && s[m] == ';' {
        Some((m + 1, sub_vec(s, b, d), sub_vec(s, h, l)))
    } else {
        None
    }
}

fn wave_cases(s: &Vec<char>) -> (arms: Vec<(Vec<char>, Vec<char>)>)
    ensures
        arms@.map_values(|p: (Vec<char>, Vec<char>)| (p.0@, p.1@)) == wave_cases_from(s@, 0),
{
    let mut arms: Vec<(Vec<char>, Vec<char>)> = Vec::new();
    let mut i: usize = 0;
    while i < s.len()
        invariant
            i <= s.len(),
            wave_cases_from(s@, 0) == arms@.map_values(|p: (Vec<char>, Vec<char>)| (p.0@, p.1@))
                + wave_cases_from(s@, i as int),
        decreases s.len() - i,
    {
        let ghost before = arms@.map_values(|p: (Vec<char>, Vec<char>)| (p.0@, p.1@));
        match wave_case_at_exec(s, i) {
            Some((end, a, b)) => {
                let ghost pair = (a@, b@);
                arms.push((a, b));
                proof {
                    assert(arms@.map_values(|p: (Vec<char>, Vec<char>)| (p.0@, p.1@)) =~= before.push(pair));
                    assert(before + wave_cases_from(s@, i as int) =~= before.push(pair) + wave_cases_from(s@, end as int));
                }
                i = end;
            },
            None => {
                i += 1;
            },
        }
    }
    proof {
        assert(wave_cases_from(s@, i as int) =~= Seq::<(Seq<char>, Seq<char>)>::empty());
        assert(wave_cases_from(s@, 0) =~= arms@.map_values(|p: (Vec<char>, Vec<char>)| (p.0@, p.1@)));
    }
    arms
}

fn hex8_chars(n: u32) -> (v: Vec<char>)
    ensures
        v@ == hex8(n as nat),
{
    let mut v = hex4_chars(n / 65536);
    let mut low = hex4_chars(n % 65536);
    v.append(&mut low);
    v
}

/// Reads the decomp's BGM to wave-scene table from the source of
/// `MSoundBGM.cpp`: every `case 0x..: return 0x..;` arm, in order.
pub fn extract_bgm_wave_scenes(source: &str) -> (r: Result<std::collections::BTreeMap<u32, u32>, String>)
    ensures
        match wave_map(wave_cases_from(source@, 0)) {
            Ok(m) => r matches Ok(t) && t@ == m,
            Err(e) => r matches Err(x) && x@ == e,
        },
{
    let chars = chars_of(source);
    let arms = wave_cases(&chars);
    let ghost all = arms@.map_values(|p: (Vec<char>, Vec<char>)| (p.0@, p.1@));
    let mut result: std::collections::BTreeMap<u32, u32> = std::collections::BTreeMap::new();
    let mut k: usize = 0;
    while k < arms.len()
        invariant
            k <= arms@.len(),
            all == arms@.map_values(|p: (Vec<char>, Vec<char>)| (p.0@, p.1@)),
            all == wave_cases_from(source@, 0),
            wave_map(all.take(k as int)) == Ok::<Map<u32, u32>, Seq<char>>(result@),
        decreases arms@.len() - k,
    {
        proof {
            assert(all.take(k + 1).drop_last() =~= all.take(k as int));
            assert(all.take(k + 1).last() == all[k as int]);
        }
        let bgm_text = string_of(&arms[k].0);
        let scene_text = string_of(&arms[k].1);
        let bgm_id = match parse_hex(bgm_text.as_str()) {
            Ok(v) => v,
            Err(e) => {
                proof {
                    lemma_wave_map_error_sticks(all, (k + 1) as int);
                }
                return Err(e);
            },
        };
        let wave_scene_id = match parse_hex(scene_text.as_str()) {
            Ok(v) => v,
            Err(e) => {
                proof {
                    lemma_wave_map_error_sticks(all, (k + 1) as int);
                }
                return Err(e);
            },
        };
        if result.contains_key(&bgm_id) {
            let mut m = chars_of("decomp contains duplicate BGM mapping 0x");
            let mut digits = hex8_chars(bgm_id);
            m.append(&mut digits);
            proof {
                lemma_wave_map_error_sticks(all, (k + 1) as int);
            }
            return Err(string_of(&m));
        }
        result.insert(bgm_id, wave_scene_id);
        k += 1;
    }
    proof {
        assert(all.take(all.len() as int) =~= all);
    }
    Ok(result)
}

/// Once a prefix of the arms fails, the whole table fails the same way.
proof fn lemma_wave_map_error_sticks(arms: Seq<(Seq<char>, Seq<char>)>, n: int)
    requires
        0 <= n <= arms.len(),
        wave_map(arms.take(n)) is Err,
    ensures
        wave_map(arms) == wave_map(arms.take(n)),
    decreases arms.len() - n,
{
    if n < arms.len() {
        assert(arms.take(n + 1).drop_last() =~= arms.take(n));
        lemma_wave_map_error_sticks(arms, n + 1);
    } else {
        assert(arms.take(n) =~= arms);
    }
}

} // verus!
