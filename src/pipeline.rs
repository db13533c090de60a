//! The fixed screen layouts, how regions are handed to OCR engines, and how the
//! recognized texts become card records.
use vstd::prelude::*;

use crate::catalog::{opt_text, Character};
use crate::normalize::lower_spec;
use crate::preprocess::{CropRegion, FieldKind};
use crate::text::{chars_of, string_of};

verus! {

/// Engines in the pool that reads a single-card claim screen.
pub const CAPTCHA_POOL: usize = 3;

/// Engines in the pool that reads a three-card drop screen.
pub const DROP_POOL: usize = 9;

pub open spec fn region_is(r: CropRegion, x: u32, y: u32, w: u32, h: u32, kind: FieldKind) -> bool {
    r.x == x && r.y == y && r.width == w && r.height == h && r.kind == kind
}

fn region(x: u32, y: u32, width: u32, height: u32, kind: FieldKind) -> (r: CropRegion)
    ensures
        region_is(r, x, y, width, height, kind),
{
    CropRegion { x, y, width, height, kind }
}

/// The single-card layout: name, series, then the numeric id.
pub fn captcha_regions() -> (r: Vec<CropRegion>)
    ensures
        r.len() == 3,
        region_is(r@[0], 18, 460, 290, 27, FieldKind::Text),
        region_is(r@[1], 18, 488, 290, 27, FieldKind::Text),
        region_is(r@[2], 41, 430, 108, 27, FieldKind::NumericId),
{
    vec![
        region(18, 460, 290, 27, FieldKind::Text),
        region(18, 488, 290, 27, FieldKind::Text),
        region(41, 430, 108, 27, FieldKind::NumericId),
    ]
}

/// The three-card layout: name and series of each card, then the three numeric ids.
pub fn drop_regions() -> (r: Vec<CropRegion>)
    ensures
        r.len() == 9,
        region_is(r@[0], 12, 458, 290, 26, FieldKind::Text),
        region_is(r@[1], 12, 487, 290, 26, FieldKind::Text),
        region_is(r@[2], 361, 458, 290, 26, FieldKind::Text),
        region_is(r@[3], 361, 487, 290, 26, FieldKind::Text),
        region_is(r@[4], 704, 458, 290, 26, FieldKind::Text),
        region_is(r@[5], 704, 487, 290, 26, FieldKind::Text),
        region_is(r@[6], 36, 427, 108, 26, FieldKind::NumericId),
        region_is(r@[7], 385, 427, 108, 26, FieldKind::NumericId),
        region_is(r@[8], 728, 427, 108, 26, FieldKind::NumericId),
{
    vec![
        region(12, 458, 290, 26, FieldKind::Text),
        region(12, 487, 290, 26, FieldKind::Text),
        region(361, 458, 290, 26, FieldKind::Text),
        region(361, 487, 290, 26, FieldKind::Text),
        region(704, 458, 290, 26, FieldKind::Text),
        region(704, 487, 290, 26, FieldKind::Text),
        region(36, 427, 108, 26, FieldKind::NumericId),
        region(385, 427, 108, 26, FieldKind::NumericId),
        region(728, 427, 108, 26, FieldKind::NumericId),
    ]
}

/// The region each engine of the pool reads: engine `i` reads region `i`; engines
/// past the last region read nothing, and regions past the pool are not read.
pub fn plan_slots(pool_size: usize, regions: &Vec<CropRegion>) -> (r: Vec<Option<CropRegion>>)
    ensures
        r.len() == pool_size,
        forall|i: int|
            0 <= i < pool_size ==> #[trigger] r@[i] == if i < regions.len() {
                Some(regions@[i])
            } else {
                None
            },
{
    let mut r: Vec<Option<CropRegion>> = Vec::new();
    let mut i: usize = 0;
    while i < pool_size
        invariant
            i <= pool_size,
            r.len() == i,
            forall|j: int|
                0 <= j < i ==> #[trigger] r@[j] == if j < regions.len() {
                    Some(regions@[j])
                } else {
                    None
                },
        decreases pool_size - i,
    {
        if i < regions.len() {
            r.push(Some(regions[i]));
        } else {
            r.push(None);
        }
        i += 1;
    }
    r
}

/// The character filters an engine is set to before it reads a region.
pub struct EngineSettings {
    /// Characters the engine may report; empty for any.
    pub whitelist: &'static str,
    /// Characters the engine must not report, where it is to be changed.
    pub blacklist: Option<&'static str>,
}

/// Numeric ids are read as digits only; text excludes symbols that OCR misreads
/// on this screen and allows every other character.
pub fn engine_settings(kind: FieldKind) -> (r: EngineSettings)
    ensures
        kind == FieldKind::NumericId ==> r.whitelist@ == "1234567890"@ && r.blacklist is None,
        kind == FieldKind::Text ==> (r.whitelist@ == ""@ && r.blacklist == Some("|[]*ç€")),
{
    match kind {
        FieldKind::NumericId => EngineSettings { whitelist: "1234567890", blacklist: None },
        FieldKind::Text => EngineSettings { whitelist: "", blacklist: Some("|[]*ç€") },
    }
}

/// Each ASCII capital replaced by its small letter.
pub open spec fn ascii_lower(s: Seq<char>) -> Seq<char> {
    Seq::new(s.len(), |i: int| lower_spec(s[i]))
}

/// A character with the Unicode White_Space property.
pub open spec fn is_white_space(c: char) -> bool {
    ||| '\u{9}' <= c && c <= '\u{d}'
    ||| c == ' ' || c == '\u{85}' || c == '\u{a0}' || c == '\u{1680}'
    ||| '\u{2000}' <= c && c <= '\u{200a}'
    ||| c == '\u{2028}' || c == '\u{2029}' || c == '\u{202f}' || c == '\u{205f}' || c == '\u{3000}'
}

pub open spec fn trim_start(s: Seq<char>) -> Seq<char>
    decreases s.len(),
{
    if s.len() > 0 && is_white_space(s[0]) {
        trim_start(s.drop_first())
    } else {
        s
    }
}

pub open spec fn trim_end(s: Seq<char>) -> Seq<char>
    decreases s.len(),
{
    if s.len() > 0 && is_white_space(s.last()) {
        trim_end(s.drop_last())
    } else {
        s
    }
}

/// `s` without leading and trailing white space.
pub open spec fn trimmed(s: Seq<char>) -> Seq<char> {
    trim_end(trim_start(s))
}

/// Relies on `str::trim`: the characters with the White_Space property
/// (`char::is_whitespace`) removed from both ends.
#[verifier::external_body]
fn trim_text(s: &str) -> (r: String)
    ensures
        r@ == trimmed(s@),
{
    s.trim().to_string()
}

fn lower_char(c: char) -> (r: char)
    ensures
        r == lower_spec(c),
{
    if 'A' <= c && c <= 'Z' {
        ((c as u8) + 32) as char
    } else {
        c
    }
}

/// Recognized text as the pipelines pass it on: ASCII-lowercased, then trimmed.
pub fn clean_text(raw: &str) -> (r: String)
    ensures
        r@ == trimmed(ascii_lower(raw@)),
{
    let v = chars_of(raw);
    let mut low: Vec<char> = Vec::new();
    let mut i: usize = 0;
    while i < v.len()
        invariant
            i <= v.len(),
            v@ == raw@,
            low@ =~= Seq::new(i as nat, |j: int| lower_spec(v@[j])),
        decreases v.len() - i,
    {
        low.push(lower_char(v[i]));
        i += 1;
    }
    let s = string_of(&low);
    trim_text(s.as_str())
}

fn copy_string(s: &String) -> (r: String)
    ensures
        r@ == s@,
{
    s.clone()
}

/// The record read from a single-card screen: name, series and id, in region order.
pub fn assemble_captcha(texts: &Vec<String>) -> (r: Character)
    requires
        texts.len() >= 3,
    ensures
        r.name@ == texts@[0]@,
        r.series@ == texts@[1]@,
        opt_text(r.gen) == Some(texts@[2]@),
        r.wl is None,
{
    Character {
        name: copy_string(&texts[0]),
        series: copy_string(&texts[1]),
        gen: Some(copy_string(&texts[2])),
        wl: None,
    }
}

/// The three records read from a drop screen: card `i` takes name `2i`, series
/// `2i + 1` and id `6 + i`.
pub fn assemble_drop(texts: &Vec<String>) -> (r: Vec<Character>)
    requires
        texts.len() >= 9,
    ensures
        r.len() == 3,
        forall|i: int|
            0 <= i < 3 ==> {
                &&& (#[trigger] r@[i]).name@ == texts@[2 * i]@
                &&& r@[i].series@ == texts@[2 * i + 1]@
                &&& opt_text(r@[i].gen) == Some(texts@[6 + i]@)
                &&& r@[i].wl is None
            },
{
    let mut r: Vec<Character> = Vec::new();
    let mut i: usize = 0;
    while i < 3
        invariant
            texts.len() >= 9,
            i <= 3,
            r.len() == i,
            forall|j: int|
                0 <= j < i ==> {
                    &&& (#[trigger] r@[j]).name@ == texts@[2 * j]@
                    &&& r@[j].series@ == texts@[2 * j + 1]@
                    &&& opt_text(r@[j].gen) == Some(texts@[6 + j]@)
                    &&& r@[j].wl is None
                },
        decreases 3 - i,
    {
        r.push(
            Character {
                name: copy_string(&texts[2 * i]),
                series: copy_string(&texts[2 * i + 1]),
                gen: Some(copy_string(&texts[6 + i])),
                wl: None,
            },
        );
        i += 1;
    }
    r
}

} // verus!
