//! Card records and the catalog of known cards that resolves them.
use vstd::prelude::*;
use vstd::string::StringExecFns;

use rayon::iter::{IndexedParallelIterator, IntoParallelRefIterator, ParallelIterator};

use crate::matcher::{equal_chars, equal_spec, match_chars, match_spec};
use crate::normalize::{
    ends_with_dots,
    lite_chars,
    lemma_lite_idempotent,
    lite_text,
    norm_text,
    norm_truncated,
    normalize_chars,
};
use crate::text::{chars_of, decimal, decimal_of, string_of};

verus! {

/// A card as recognized on screen, or as held in the catalog.
#[derive(Clone, Debug, PartialEq, Eq)]
pub struct Character {
    pub name: String,
    pub series: String,
    pub gen: Option<String>,
    pub wl: Option<u32>,
}

pub struct CardView {
    pub name: Seq<char>,
    pub series: Seq<char>,
    pub gen: Option<Seq<char>>,
    pub wl: Option<u32>,
}

pub open spec fn opt_text(o: Option<String>) -> Option<Seq<char>> {
    match o {
        Some(s) => Some(s@),
        None => None,
    }
}

impl View for Character {
    type V = CardView;

    open spec fn view(&self) -> CardView {
        CardView { name: self.name@, series: self.series@, gen: opt_text(self.gen), wl: self.wl }
    }
}

pub open spec fn opt_card(o: Option<Character>) -> Option<CardView> {
    match o {
        Some(c) => Some(c@),
        None => None,
    }
}

fn copy_text(o: &Option<String>) -> (r: Option<String>)
    ensures
        opt_text(r) == opt_text(*o),
{
    match o {
        Some(s) => Some(s.clone()),
        None => None,
    }
}

impl Character {
    /// A copy with the same fields.
    pub fn duplicate(&self) -> (r: Character)
        ensures
            r@ == self@,
    {
        Character {
            name: self.name.clone(),
            series: self.series.clone(),
            gen: copy_text(&self.gen),
            wl: self.wl,
        }
    }
}

// ---------------------------------------------------------------------------
// Searching
// ---------------------------------------------------------------------------

/// How a catalog entry is compared with a key.
#[derive(Clone, Copy)]
pub enum MatchMode {
    /// Name and series up to one confusable misread each (lookups).
    Fuzzy,
    /// Name and series as stored (updates, first choice).
    Stored,
    /// Name and series after lite normalization (updates, fallback).
    Lite,
}

/// Entry `e` answers the key under `mode`; a truncated key matches by prefix.
pub open spec fn hit(
    e: CardView,
    name: Seq<char>,
    name_dot: bool,
    series: Seq<char>,
    series_dot: bool,
    mode: MatchMode,
) -> bool {
    match mode {
        MatchMode::Fuzzy => match_spec(e.name, name, name_dot) && match_spec(
            e.series,
            series,
            series_dot,
        ),
        MatchMode::Stored => equal_spec(e.name, name, name_dot) && equal_spec(
            e.series,
            series,
            series_dot,
        ),
        MatchMode::Lite => equal_spec(lite_text(e.name), name, name_dot) && equal_spec(
            lite_text(e.series),
            series,
            series_dot,
        ),
    }
}

pub open spec fn is_first_hit(
    es: Seq<CardView>,
    i: int,
    name: Seq<char>,
    name_dot: bool,
    series: Seq<char>,
    series_dot: bool,
    mode: MatchMode,
) -> bool {
    &&& 0 <= i < es.len()
    &&& hit(es[i], name, name_dot, series, series_dot, mode)
    &&& forall|j: int| 0 <= j < i ==> !hit(es[j], name, name_dot, series, series_dot, mode)
}

/// The position of the first entry that answers the key, if any does.
pub open spec fn first_hit(
    es: Seq<CardView>,
    name: Seq<char>,
    name_dot: bool,
    series: Seq<char>,
    series_dot: bool,
    mode: MatchMode,
) -> Option<int> {
    if exists|i: int| is_first_hit(es, i, name, name_dot, series, series_dot, mode) {
        Some(choose|i: int| is_first_hit(es, i, name, name_dot, series, series_dot, mode))
    } else {
        None
    }
}

/// The record with the rank of the first catalog entry that matches it, or with no
/// rank where none does.
pub open spec fn resolve_spec(es: Seq<CardView>, card: CardView) -> CardView {
    match first_hit(
        es,
        norm_text(card.name),
        norm_truncated(card.name),
        norm_text(card.series),
        norm_truncated(card.series),
        MatchMode::Fuzzy,
    ) {
        Some(i) => CardView { wl: es[i].wl, ..card },
        None => CardView { wl: None, ..card },
    }
}

/// The entry an update with `card` changes: the first whose stored name and series
/// equal the record's lite-normalized ones (by prefix where truncated); failing that,
/// for a record that is not truncated, the first that equals it after lite
/// normalization of the entry too.
pub open spec fn update_target(es: Seq<CardView>, card: CardView) -> Option<int> {
    let name_dot = ends_with_dots(card.name, 3);
    let series_dot = ends_with_dots(card.series, 3);
    let n = lite_text(card.name);
    let s = lite_text(card.series);
    match first_hit(es, n, name_dot, s, series_dot, MatchMode::Stored) {
        Some(i) => Some(i),
        None => if !name_dot && !series_dot {
            first_hit(es, n, false, s, false, MatchMode::Lite)
        } else {
            None
        },
    }
}

/// The catalog after an update with `card`, and the entry to persist, if any: the
/// target takes the record's rank; without one, the record is appended unless its
/// name or series is truncated.
pub open spec fn upsert_spec(es: Seq<CardView>, card: CardView) -> (Seq<CardView>, Option<CardView>) {
    match update_target(es, card) {
        Some(i) => {
            let e = CardView { wl: card.wl, ..es[i] };
            (es.update(i, e), Some(e))
        },
        None => if !ends_with_dots(card.name, 3) && !ends_with_dots(card.series, 3) {
            (es.push(card), Some(card))
        } else {
            (es, None)
        },
    }
}

// ---------------------------------------------------------------------------
// Reply text
// ---------------------------------------------------------------------------

pub open spec fn wl_text(wl: Option<u32>) -> Seq<char> {
    match wl {
        Some(n) => decimal(n as nat),
        None => "null"@,
    }
}

pub open spec fn gen_text(g: Option<Seq<char>>) -> Seq<char> {
    match g {
        Some(t) => "\""@ + json_text(t) + "\""@,
        None => "null"@,
    }
}

/// The lowercase hexadecimal digit of a value below sixteen.
pub open spec fn hex_digit(d: u32) -> char {
    if d < 10 {
        (d + 48) as char
    } else {
        (d + 87) as char
    }
}

/// One character inside a JSON string: quote and backslash escaped, other control
/// characters written as `\u00XX`.
pub open spec fn json_char(c: char) -> Seq<char> {
    if c == '"' {
        seq!['\\', '"']
    } else if c == '\\' {
        seq!['\\', '\\']
    } else if (c as u32) < 32 {
        seq!['\\', 'u', '0', '0', hex_digit((c as u32) / 16), hex_digit((c as u32) % 16)]
    } else {
        seq![c]
    }
}

/// The characters of `s` as the inside of a JSON string.
pub open spec fn json_text(s: Seq<char>) -> Seq<char>
    decreases s.len(),
{
    if s.len() == 0 {
        Seq::empty()
    } else {
        json_text(s.drop_last()) + json_char(s.last())
    }
}

fn hex_char(d: u32) -> (r: char)
    requires
        d < 16,
    ensures
        r == hex_digit(d),
{
    if d < 10 {
        ((d as u8) + 48) as char
    } else {
        ((d as u8) + 87) as char
    }
}

/// `s` escaped for the inside of a JSON string.
pub fn json_escaped(s: &str) -> (r: String)
    ensures
        r@ == json_text(s@),
{
    let v = chars_of(s);
    let mut out: Vec<char> = Vec::new();
    let mut i: usize = 0;
    while i < v.len()
        invariant
            i <= v.len(),
            v@ == s@,
            out@ == json_text(v@.subrange(0, i as int)),
        decreases v.len() - i,
    {
        let c = v[i];
        let ghost before = out@;
        proof {
            let nxt = v@.subrange(0, i + 1);
            assert(nxt.drop_last() =~= v@.subrange(0, i as int));
            assert(nxt.last() == c);
        }
        if c == '"' {
            out.push('\\');
            out.push('"');
        } else if c == '\\' {
            out.push('\\');
            out.push('\\');
        } else if (c as u32) < 32 {
            let k = c as u32;
            out.push('\\');
            out.push('u');
            out.push('0');
            out.push('0');
            out.push(hex_char(k / 16));
            out.push(hex_char(k % 16));
        } else {
            out.push(c);
        }
        assert(out@ =~= before + json_char(c));
        i += 1;
    }
    assert(v@.subrange(0, v.len() as int) =~= v@);
    string_of(&out)
}

pub open spec fn record_text(c: CardView) -> Seq<char> {
    "{\"name\":\""@ + json_text(c.name) + "\",\"series\":\""@ + json_text(c.series)
        + "\",\"wl\":"@ + wl_text(c.wl)
        + ",\"gen\":"@ + gen_text(c.gen) + "}"@
}

/// The records' texts, separated by commas.
pub open spec fn records_text(cs: Seq<CardView>) -> Seq<char>
    decreases cs.len(),
{
    if cs.len() == 0 {
        Seq::empty()
    } else if cs.len() == 1 {
        record_text(cs[0])
    } else {
        records_text(cs.drop_last()) + ","@ + record_text(cs.last())
    }
}

/// The reply to a lookup: a bracketed list of the first three records.
pub open spec fn reply_spec(cs: Seq<CardView>) -> Seq<char> {
    let shown = if cs.len() <= 3 {
        cs
    } else {
        cs.subrange(0, 3)
    };
    "["@ + records_text(shown) + "]"@
}

fn push_record(out: &mut String, c: &Character)
    ensures
        final(out)@ == old(out)@ + record_text(c@),
{
    out.append("{\"name\":\"");
    let name = json_escaped(c.name.as_str());
    out.append(name.as_str());
    out.append("\",\"series\":\"");
    let series = json_escaped(c.series.as_str());
    out.append(series.as_str());
    out.append("\",\"wl\":");
    match c.wl {
        Some(n) => {
            let d = decimal_of(n);
            out.append(d.as_str());
        },
        None => {
            out.append("null");
        },
    }
    out.append(",\"gen\":");
    match &c.gen {
        Some(g) => {
            out.append("\"");
            let gen = json_escaped(g.as_str());
            out.append(gen.as_str());
            out.append("\"");
        },
        None => {
            out.append("null");
        },
    }
    out.append("}");
    assert(final(out)@ =~= old(out)@ + record_text(c@));
}

/// The text that answers a lookup for the resolved records `found`.
pub fn reply_text(found: &Vec<Character>) -> (r: String)
    ensures
        r@ == reply_spec(found@.map_values(|c: Character| c@)),
{
    let ghost cs = found@.map_values(|c: Character| c@);
    let n: usize = if found.len() < 3 {
        found.len()
    } else {
        3
    };
    let ghost shown = cs.subrange(0, n as int);
    let mut out = String::from_str("[");
    let mut i: usize = 0;
    while i < n
        invariant
            n <= found.len(),
            n <= 3,
            i <= n,
            cs == found@.map_values(|c: Character| c@),
            out@ == "["@ + records_text(cs.subrange(0, i as int)),
        decreases n - i,
    {
        proof {
            let nxt = cs.subrange(0, i + 1);
            assert(nxt.drop_last() =~= cs.subrange(0, i as int));
            assert(nxt.last() == found@[i as int]@);
        }
        if i > 0 {
            out.append(",");
        }
        push_record(&mut out, &found[i]);
        proof {
            if i == 0 {
                assert(cs.subrange(0, 0) =~= Seq::<CardView>::empty());
            }
        }
        i += 1;
    }
    out.append("]");
    proof {
        if cs.len() <= 3 {
            assert(cs.subrange(0, n as int) =~= cs);
        }
    }
    out
}

// ---------------------------------------------------------------------------
// The catalog
// ---------------------------------------------------------------------------

/// Whether entry `e` answers the key under `mode`.
fn entry_hits(
    e: &Character,
    name: &Vec<char>,
    name_dot: bool,
    series: &Vec<char>,
    series_dot: bool,
    mode: MatchMode,
) -> (r: bool)
    ensures
        r == hit(e@, name@, name_dot, series@, series_dot, mode),
{
    let en = chars_of(e.name.as_str());
    let es = chars_of(e.series.as_str());
    match mode {
        MatchMode::Fuzzy => match_chars(&en, name, name_dot) && match_chars(&es, series, series_dot),
        MatchMode::Stored => equal_chars(&en, name, name_dot) && equal_chars(&es, series, series_dot),
        MatchMode::Lite => {
            let (_, ln) = lite_chars(&en);
            let (_, ls) = lite_chars(&es);
            equal_chars(&ln, name, name_dot) && equal_chars(&ls, series, series_dot)
        },
    }
}

/// The known cards with their ranks. Entries are updated in place or appended,
/// never removed.
pub struct Catalog {
    entries: Vec<Character>,
}

impl View for Catalog {
    type V = Seq<CardView>;

    closed spec fn view(&self) -> Seq<CardView> {
        self.entries@.map_values(|c: Character| c@)
    }
}

impl Catalog {
    /// An empty catalog.
    pub fn new() -> (r: Catalog)
        ensures
            r@ == Seq::<CardView>::empty(),
    {
        let r = Catalog { entries: Vec::new() };
        assert(r@ =~= Seq::<CardView>::empty());
        r
    }

    /// A catalog holding `entries`, in order, as loaded from storage.
    pub fn from_entries(entries: Vec<Character>) -> (r: Catalog)
        ensures
            r@ == entries@.map_values(|c: Character| c@),
    {
        Catalog { entries }
    }

    /// The entries, in order.
    pub fn entries(&self) -> (r: &Vec<Character>)
        ensures
            r@.map_values(|c: Character| c@) == self@,
    {
        &self.entries
    }

    pub fn len(&self) -> (r: usize)
        ensures
            r == self@.len(),
    {
        self.entries.len()
    }

    /// Relies on rayon's `IndexedParallelIterator::position_first` over the entries:
    /// the least index whose entry satisfies the predicate (here `entry_hits`),
    /// searched in parallel.
    #[verifier::external_body]
    fn find_first(
        &self,
        name: &Vec<char>,
        name_dot: bool,
        series: &Vec<char>,
        series_dot: bool,
        mode: MatchMode,
    ) -> (r: Option<usize>)
        ensures
            opt_int(r) == first_hit(self@, name@, name_dot, series@, series_dot, mode),
    {
        self.entries.par_iter().position_first(
            |e| entry_hits(e, name, name_dot, series, series_dot, mode),
        )
    }

    /// Resolves one record: the record with the rank of the first entry whose name
    /// and series both match its normalized name and series.
    pub fn resolve(&self, card: &Character) -> (r: Character)
        ensures
            r@ == resolve_spec(self@, card@),
    {
        let (name_dot, name) = normalize_chars(&chars_of(card.name.as_str()));
        let (series_dot, series) = normalize_chars(&chars_of(card.series.as_str()));
        let mut r = card.duplicate();
        match self.find_first(&name, name_dot, &series, series_dot, MatchMode::Fuzzy) {
            Some(i) => {
                r.wl = self.entries[i].wl;
            },
            None => {
                r.wl = None;
            },
        }
        r
    }

    /// Relies on rayon's `IndexedParallelIterator::collect_into_vec`: the results of
    /// `resolve` on each record, in the records' order.
    #[verifier::external_body]
    fn resolve_all(&self, cards: &Vec<Character>) -> (r: Vec<Character>)
        ensures
            r.len() == cards.len(),
            forall|i: int| 0 <= i < cards.len() ==> #[trigger] r@[i]@ == resolve_spec(self@, cards@[i]@),
    {
        let mut r = Vec::new();
        cards.par_iter().map(|c| self.resolve(c)).collect_into_vec(&mut r);
        r
    }

    /// Resolves each record against the catalog, in order, in parallel.
    pub fn find_card(&self, cards: &Vec<Character>) -> (r: Vec<Character>)
        ensures
            r.len() == cards.len(),
            forall|i: int| 0 <= i < cards.len() ==> #[trigger] r@[i]@ == resolve_spec(self@, cards@[i]@),
    {
        self.resolve_all(cards)
    }

    /// Answers a lookup: resolves the records and renders the first three.
    pub fn lookup(&self, cards: &Vec<Character>) -> (r: String)
        ensures
            r@ == reply_spec(cards@.map_values(|c: Character| resolve_spec(self@, c@))),
    {
        let found = self.find_card(cards);
        let r = reply_text(&found);
        assert(found@.map_values(|c: Character| c@) =~= cards@.map_values(
            |c: Character| resolve_spec(self@, c@),
        ));
        r
    }

    /// Applies an update (see `update_target` and `upsert_spec`): the entry the record
    /// names takes its rank; without one, the record is appended unless its name or
    /// series is truncated. Returns the entry to persist.
    pub fn update_card(&mut self, card: Character) -> (r: Option<Character>)
        ensures
            final(self)@ == upsert_spec(old(self)@, card@).0,
            opt_card(r) == upsert_spec(old(self)@, card@).1,
    {
        let (name_dot, name) = lite_chars(&chars_of(card.name.as_str()));
        let (series_dot, series) = lite_chars(&chars_of(card.series.as_str()));
        let target = match self.find_first(&name, name_dot, &series, series_dot, MatchMode::Stored) {
            Some(i) => Some(i),
            None => if !name_dot && !series_dot {
                self.find_first(&name, false, &series, false, MatchMode::Lite)
            } else {
                None
            },
        };
        match target {
            Some(i) => {
                let mut e = self.entries[i].duplicate();
                e.wl = card.wl;
                let kept = e.duplicate();
                self.entries.set(i, e);
                assert(self@ =~= upsert_spec(old(self)@, card@).0);
                Some(kept)
            },
            None => {
                if !name_dot && !series_dot {
                    let kept = card.duplicate();
                    self.entries.push(card);
                    assert(self@ =~= upsert_spec(old(self)@, card@).0);
                    Some(kept)
                } else {
                    None
                }
            },
        }
    }
}


/// A message to the task that owns the catalog.
pub enum Request {
    /// Resolve these records and answer with the reply text.
    Lookup { cards: Vec<Character> },
    /// Record this card's rank.
    Upsert { card: Character },
}

/// What the owner of the catalog does after a request.
pub enum Action {
    /// Send this text to the requester.
    Reply { text: String },
    /// Write this entry to storage.
    Persist { entry: Character },
    /// Nothing further.
    Skip,
}

impl Catalog {
    /// Serves one request. A lookup leaves the catalog as it was.
    pub fn handle(&mut self, request: Request) -> (r: Action)
        ensures
            match request {
                Request::Lookup { cards } => {
                    &&& final(self)@ == old(self)@
                    &&& r is Reply
                    &&& r->text@ == reply_spec(
                        cards@.map_values(|c: Character| resolve_spec(old(self)@, c@)),
                    )
                },
                Request::Upsert { card } => {
                    &&& final(self)@ == upsert_spec(old(self)@, card@).0
                    &&& match upsert_spec(old(self)@, card@).1 {
                        Some(e) => r is Persist && r->entry@ == e,
                        None => r is Skip,
                    }
                },
            },
    {
        match request {
            Request::Lookup { cards } => Action::Reply { text: self.lookup(&cards) },
            Request::Upsert { card } => match self.update_card(card) {
                Some(entry) => Action::Persist { entry },
                None => Action::Skip,
            },
        }
    }
}

// ---------------------------------------------------------------------------
// Updates keep one entry per key
// ---------------------------------------------------------------------------

/// Entry `i` carries exactly this name and series.
pub open spec fn key_at(es: Seq<CardView>, i: int, name: Seq<char>, series: Seq<char>) -> bool {
    0 <= i < es.len() && es[i].name == name && es[i].series == series
}

/// Entry `i` carries this name and series up to lite normalization.
pub open spec fn lite_key_at(es: Seq<CardView>, i: int, name: Seq<char>, series: Seq<char>) -> bool {
    0 <= i < es.len() && lite_text(es[i].name) == lite_text(name) && lite_text(es[i].series)
        == lite_text(series)
}

/// At most one entry carries this name and series up to lite normalization.
pub open spec fn lite_key_unique(es: Seq<CardView>, name: Seq<char>, series: Seq<char>) -> bool {
    forall|i: int, j: int|
        #[trigger] lite_key_at(es, i, name, series) && #[trigger] lite_key_at(es, j, name, series)
            ==> i == j
}

/// No two entries carry the same name and series.
pub open spec fn keys_unique(es: Seq<CardView>) -> bool {
    forall|i: int, j: int|
        0 <= i < es.len() && 0 <= j < es.len() && i != j ==> !(#[trigger] es[i].name
            == #[trigger] es[j].name && es[i].series == es[j].series)
}

proof fn lemma_hit_has_first(
    es: Seq<CardView>,
    j: int,
    name: Seq<char>,
    name_dot: bool,
    series: Seq<char>,
    series_dot: bool,
    mode: MatchMode,
)
    requires
        0 <= j < es.len(),
        hit(es[j], name, name_dot, series, series_dot, mode),
    ensures
        first_hit(es, name, name_dot, series, series_dot, mode) is Some,
    decreases j,
{
    if exists|k: int| 0 <= k < j && hit(es[k], name, name_dot, series, series_dot, mode) {
        let k = choose|k: int| 0 <= k < j && hit(es[k], name, name_dot, series, series_dot, mode);
        lemma_hit_has_first(es, k, name, name_dot, series, series_dot, mode);
    } else {
        assert(is_first_hit(es, j, name, name_dot, series, series_dot, mode));
    }
}

/// An update never removes an entry nor changes an entry's name or series, and a
/// catalog with no two entries of the same name and series keeps that property.
pub proof fn lemma_update_keeps_keys_unique(es: Seq<CardView>, card: CardView)
    requires
        keys_unique(es),
    ensures
        ({
            let es2 = upsert_spec(es, card).0;
            &&& es2.len() >= es.len()
            &&& forall|j: int|
                0 <= j < es.len() ==> #[trigger] es2[j].name == es[j].name && es2[j].series
                    == es[j].series
            &&& keys_unique(es2)
        }),
{
    let es2 = upsert_spec(es, card).0;
    let name_dot = ends_with_dots(card.name, 3);
    let series_dot = ends_with_dots(card.series, 3);
    let n = lite_text(card.name);
    let s = lite_text(card.series);
    match update_target(es, card) {
        Some(i) => {
            match first_hit(es, n, name_dot, s, series_dot, MatchMode::Stored) {
                Some(k) => {
                    assert(is_first_hit(es, k, n, name_dot, s, series_dot, MatchMode::Stored));
                },
                None => {
                    assert(is_first_hit(es, i, n, false, s, false, MatchMode::Lite));
                },
            }
            assert forall|a: int, b: int|
                0 <= a < es2.len() && 0 <= b < es2.len() && a != b implies !(#[trigger] es2[a].name
                == #[trigger] es2[b].name && es2[a].series == es2[b].series) by {
                assert(es2[a].name == es[a].name && es2[a].series == es[a].series);
                assert(es2[b].name == es[b].name && es2[b].series == es[b].series);
            }
        },
        None => {
            if !name_dot && !series_dot {
                assert forall|j: int| 0 <= j < es.len() implies !(es[j].name == card.name
                    && es[j].series == card.series) by {
                    if es[j].name == card.name && es[j].series == card.series {
                        assert(hit(es[j], n, false, s, false, MatchMode::Lite));
                        lemma_hit_has_first(es, j, n, false, s, false, MatchMode::Lite);
                    }
                }
                assert forall|a: int, b: int|
                    0 <= a < es2.len() && 0 <= b < es2.len() && a != b implies !(
                    #[trigger] es2[a].name == #[trigger] es2[b].name && es2[a].series
                        == es2[b].series) by {
                    if a < es.len() && b < es.len() {
                        assert(es2[a] == es[a] && es2[b] == es[b]);
                    } else if a < es.len() {
                        assert(es2[a] == es[a]);
                    } else if b < es.len() {
                        assert(es2[b] == es[b]);
                    }
                }
            }
        },
    }
}

/// An update whose name and series are not truncated, where at most one entry
/// carried them up to lite normalization, leaves exactly one such entry, holding
/// the update's rank; it carries the update's own name and series where one did
/// before or where none matched.
pub proof fn lemma_upsert_one_key(es: Seq<CardView>, c: CardView)
    requires
        !ends_with_dots(c.name, 3),
        !ends_with_dots(c.series, 3),
        lite_key_unique(es, c.name, c.series),
    ensures
        ({
            let es2 = upsert_spec(es, c).0;
            exists|i: int|
                {
                    &&& #[trigger] lite_key_at(es2, i, c.name, c.series)
                    &&& es2[i].wl == c.wl
                    &&& forall|j: int| #[trigger] lite_key_at(es2, j, c.name, c.series) ==> j == i
                    &&& ((exists|j: int| key_at(es, j, c.name, c.series)) || (forall|j: int|
                        !lite_key_at(es, j, c.name, c.series))) ==> key_at(es2, i, c.name, c.series)
                }
        }),
{
    let es2 = upsert_spec(es, c).0;
    let n = lite_text(c.name);
    let s = lite_text(c.series);
    lemma_lite_idempotent(c.name);
    lemma_lite_idempotent(c.series);
    match update_target(es, c) {
        Some(i) => {
            match first_hit(es, n, false, s, false, MatchMode::Stored) {
                Some(k) => {
                    assert(is_first_hit(es, k, n, false, s, false, MatchMode::Stored));
                    assert(es[i].name == n && es[i].series == s);
                },
                None => {
                    assert(is_first_hit(es, i, n, false, s, false, MatchMode::Lite));
                },
            }
            assert(lite_key_at(es, i, c.name, c.series));
            assert forall|j: int| #[trigger] lite_key_at(es2, j, c.name, c.series) implies j
                == i by {
                if j != i {
                    assert(lite_key_at(es, j, c.name, c.series));
                }
            }
            assert(lite_key_at(es2, i, c.name, c.series));
            if exists|j: int| key_at(es, j, c.name, c.series) {
                let j = choose|j: int| key_at(es, j, c.name, c.series);
                assert(lite_key_at(es, j, c.name, c.series));
            }
        },
        None => {
            assert forall|j: int| !lite_key_at(es, j, c.name, c.series) by {
                if lite_key_at(es, j, c.name, c.series) {
                    assert(hit(es[j], n, false, s, false, MatchMode::Lite));
                    lemma_hit_has_first(es, j, n, false, s, false, MatchMode::Lite);
                }
            }
            let last = es.len() as int;
            assert(lite_key_at(es2, last, c.name, c.series));
            assert(key_at(es2, last, c.name, c.series));
            assert forall|j: int| #[trigger] lite_key_at(es2, j, c.name, c.series) implies j
                == last by {
                if j != last {
                    assert(lite_key_at(es, j, c.name, c.series));
                }
            }
        },
    }
}

/// Two updates for the same name and series, neither truncated, on a catalog with
/// at most one entry for that name and series up to lite normalization, leave
/// exactly one such entry, holding the later update's rank; no other entry carries
/// that exact name and series.
pub proof fn lemma_update_key_stable(es: Seq<CardView>, first: CardView, second: CardView)
    requires
        first.name == second.name,
        first.series == second.series,
        !ends_with_dots(first.name, 3),
        !ends_with_dots(first.series, 3),
        lite_key_unique(es, first.name, first.series),
    ensures
        ({
            let es2 = upsert_spec(upsert_spec(es, first).0, second).0;
            exists|i: int|
                {
                    &&& #[trigger] lite_key_at(es2, i, first.name, first.series)
                    &&& es2[i].wl == second.wl
                    &&& forall|j: int|
                        #[trigger] lite_key_at(es2, j, first.name, first.series) ==> j == i
                    &&& forall|j: int| #[trigger] key_at(es2, j, first.name, first.series) ==> j == i
                    &&& ((exists|j: int| key_at(es, j, first.name, first.series)) || (forall|j: int|
                        !lite_key_at(es, j, first.name, first.series))) ==> key_at(
                        es2,
                        i,
                        first.name,
                        first.series,
                    )
                }
        }),
{
    let es1 = upsert_spec(es, first).0;
    let es2 = upsert_spec(es1, second).0;
    lemma_upsert_one_key(es, first);
    let i = choose|i: int|
        {
            &&& #[trigger] lite_key_at(es1, i, first.name, first.series)
            &&& es1[i].wl == first.wl
            &&& forall|j: int| #[trigger] lite_key_at(es1, j, first.name, first.series) ==> j == i
            &&& ((exists|j: int| key_at(es, j, first.name, first.series)) || (forall|j: int|
                !lite_key_at(es, j, first.name, first.series))) ==> key_at(
                es1,
                i,
                first.name,
                first.series,
            )
        };
    assert(lite_key_unique(es1, first.name, first.series));
    lemma_upsert_one_key(es1, second);
    let k = choose|k: int|
        {
            &&& #[trigger] lite_key_at(es2, k, second.name, second.series)
            &&& es2[k].wl == second.wl
            &&& forall|j: int| #[trigger] lite_key_at(es2, j, second.name, second.series) ==> j == k
            &&& ((exists|j: int| key_at(es1, j, second.name, second.series)) || (forall|j: int|
                !lite_key_at(es1, j, second.name, second.series))) ==> key_at(
                es2,
                k,
                second.name,
                second.series,
            )
        };
    assert forall|j: int| #[trigger] key_at(es2, j, first.name, first.series) implies j == k by {
        assert(lite_key_at(es2, j, first.name, first.series));
    }
    if (exists|j: int| key_at(es, j, first.name, first.series)) || (forall|j: int|
        !lite_key_at(es, j, first.name, first.series)) {
        assert(key_at(es1, i, first.name, first.series));
    }
    assert(lite_key_at(es2, k, first.name, first.series));
}

pub open spec fn opt_int(o: Option<usize>) -> Option<int> {
    match o {
        Some(i) => Some(i as int),
        None => None,
    }
}

} // verus!
