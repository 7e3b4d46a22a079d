//! The sheet of symbols and placements that a line of glyphs fills.
//!
//! Glyphs arrive one by one in visual order. The first glyph with a given
//! id decides whether the id has an outline; if it has, the outline becomes
//! a symbol. Every glyph with a symbol becomes a placement. A placement
//! does not hold a position: it names the glyph that it stands for, and the
//! pen stands before that glyph where the advances of all glyphs before it
//! end.

use std::collections::HashMap;
use vstd::prelude::*;
use crate::names::{
    font_glyph_name,
    glyph_label,
    label_glyph,
    lookup_glyph_name,
    make_symbol_href,
    make_symbol_id,
    symbol_href,
    symbol_id,
    text_of,
    NAMED_FACE,
};
use crate::path::{outline_to_svg_path, path_text, PathCommand};

verus! {

broadcast use vstd::std_specs::hash::group_hash_axioms;

/// What the sheet reads of a shaped glyph.
#[derive(Clone, Copy, Debug, PartialEq, Eq, Structural)]
pub struct Glyph {
    pub id: u16,
    /// A mark stacks on the glyph before it and does not widen the line.
    pub is_mark: bool,
}

/// The outline of one glyph, kept once for all its occurrences.
#[derive(Debug)]
pub struct Symbol {
    /// The glyph that the symbol draws.
    pub glyph: u16,
    pub id: String,
    /// The outline as a path description.
    pub path: String,
}

/// One occurrence of a glyph that has a symbol.
#[derive(Debug)]
pub struct Placement {
    /// Index of the symbol in the sheet.
    pub symbol: usize,
    /// The reference to the symbol.
    pub href: String,
    /// Index of the glyph in the visual stream. The pen stands before it
    /// after the advances of the glyphs `0..glyph_index`.
    pub glyph_index: usize,
}

/// What is known of a glyph id that has been seen.
#[derive(Clone, Copy, Debug, PartialEq, Eq, Structural)]
pub enum CacheEntry {
    /// The glyph has no outline and is never placed.
    NoOutline,
    /// The glyph has the symbol with this index.
    Symbol(usize),
}

/// The state of a sheet while the glyphs of a line are put on it.
pub struct Sheet {
    testcase: String,
    /// Whether the coordinates of outlines are rounded down.
    floor_coords: bool,
    /// The glyphs put on the sheet so far, from left to right.
    stream: Vec<Glyph>,
    /// What each glyph id seen so far resolved to.
    cache: HashMap<u16, CacheEntry>,
    /// The symbols in the order in which their glyphs were first seen.
    symbols: Vec<Symbol>,
    /// The placements from left to right.
    placements: Vec<Placement>,
    /// The number of glyphs up to and including the last one that is no
    /// mark: the width of the line is where the pen stands after them.
    width_glyphs: usize,
}

/// The ids of the glyphs of a stream.
pub open spec fn glyph_ids(stream: Seq<Glyph>) -> Seq<u16> {
    Seq::new(stream.len(), |i: int| stream[i].id)
}

/// The id is known to have a symbol.
pub open spec fn has_symbol(cache: Map<u16, CacheEntry>, id: u16) -> bool {
    cache.contains_key(id) && cache[id] is Symbol
}

/// The ids of `ids` that have a symbol, each once, in the order in which
/// they first occur.
pub open spec fn symbol_order(ids: Seq<u16>, cache: Map<u16, CacheEntry>) -> Seq<u16>
    decreases ids.len(),
{
    if ids.len() == 0 {
        Seq::empty()
    } else if !ids.drop_last().contains(ids.last()) && has_symbol(cache, ids.last()) {
        symbol_order(ids.drop_last(), cache).push(ids.last())
    } else {
        symbol_order(ids.drop_last(), cache)
    }
}

/// The positions in `ids` of the glyphs that have a symbol, in order.
pub open spec fn placed_glyphs(ids: Seq<u16>, cache: Map<u16, CacheEntry>) -> Seq<int>
    decreases ids.len(),
{
    if ids.len() == 0 {
        Seq::empty()
    } else if has_symbol(cache, ids.last()) {
        placed_glyphs(ids.drop_last(), cache).push(ids.len() - 1)
    } else {
        placed_glyphs(ids.drop_last(), cache)
    }
}

/// The number of glyphs up to and including the last one that is no mark.
pub open spec fn width_of(stream: Seq<Glyph>) -> int
    decreases stream.len(),
{
    if stream.len() == 0 {
        0
    } else if !stream.last().is_mark {
        stream.len() as int
    } else {
        width_of(stream.drop_last())
    }
}

/// The glyphs that the symbols draw.
pub open spec fn symbol_glyphs(symbols: Seq<Symbol>) -> Seq<u16> {
    Seq::new(symbols.len(), |k: int| symbols[k].glyph)
}

/// The glyphs that the placements stand for.
pub open spec fn placement_glyphs(placements: Seq<Placement>) -> Seq<int> {
    Seq::new(placements.len(), |j: int| placements[j].glyph_index as int)
}

/// The commands of an outline that may be missing.
pub open spec fn outline_of(outline: Option<&Vec<PathCommand>>) -> Option<Seq<PathCommand>> {
    match outline {
        Some(commands) => Some(commands@),
        None => None,
    }
}

/// What the id of the next glyph resolves to: what it resolved to before,
/// or, for an id not seen before, a new symbol if the glyph has an outline.
pub open spec fn resolved(pre: Sheet, id: u16, outline: Option<Seq<PathCommand>>) -> CacheEntry {
    if pre.entries().contains_key(id) {
        pre.entries()[id]
    } else if outline is Some {
        CacheEntry::Symbol(pre.symbol_seq().len() as usize)
    } else {
        CacheEntry::NoOutline
    }
}

/// Putting `glyph` on the sheet `pre` gives the sheet `post` and the
/// reference `href`. `outline` and `name` are what the font holds for the
/// glyph; they are read only where the id of the glyph has not been seen.
pub open spec fn placed(
    pre: Sheet,
    post: Sheet,
    glyph: Glyph,
    outline: Option<Seq<PathCommand>>,
    name: Option<Seq<char>>,
    href: Option<String>,
) -> bool {
    let at = pre.glyphs().len();
    let entry = resolved(pre, glyph.id, outline);
    let fresh = !pre.entries().contains_key(glyph.id);
    &&& post.case_name() == pre.case_name()
    &&& post.floors() == pre.floors()
    &&& post.glyphs() == pre.glyphs().push(glyph)
    &&& post.width() == if glyph.is_mark {
        pre.width() as int
    } else {
        pre.glyphs().len() as int + 1
    }
    &&& post.entries() == pre.entries().insert(glyph.id, entry)
    &&& if fresh && outline is Some {
        &&& post.symbol_seq().len() == pre.symbol_seq().len() + 1
        &&& post.symbol_seq().drop_last() == pre.symbol_seq()
        &&& post.symbol_seq().last().glyph == glyph.id
        &&& post.symbol_seq().last().id@ == symbol_id(pre.case_name(), glyph_label(name, glyph.id))
        &&& post.symbol_seq().last().path@ == path_text(outline->0, pre.floors())
    } else {
        post.symbol_seq() == pre.symbol_seq()
    }
    &&& match entry {
        CacheEntry::NoOutline => href is None && post.placement_seq() == pre.placement_seq(),
        CacheEntry::Symbol(k) => {
            &&& href is Some
            &&& k < post.symbol_seq().len()
            &&& href->0@ == symbol_href(post.symbol_seq()[k as int].id@)
            &&& post.placement_seq().len() == pre.placement_seq().len() + 1
            &&& post.placement_seq().drop_last() == pre.placement_seq()
            &&& post.placement_seq().last().symbol == k
            &&& post.placement_seq().last().glyph_index == at
            &&& post.placement_seq().last().href@ == href->0@
        },
    }
}

/// An id that does not occur among `ids` has no say in which of them have
/// symbols.
proof fn lemma_fresh_id_frames(
    ids: Seq<u16>,
    cache: Map<u16, CacheEntry>,
    id: u16,
    entry: CacheEntry,
)
    requires
        !ids.contains(id),
    ensures
        symbol_order(ids, cache.insert(id, entry)) == symbol_order(ids, cache),
        placed_glyphs(ids, cache.insert(id, entry)) == placed_glyphs(ids, cache),
    decreases ids.len(),
{
    if ids.len() > 0 {
        let rest = ids.drop_last();
        assert(ids.last() == ids[ids.len() - 1]);
        assert(ids.last() != id);
        assert forall|x: u16| rest.contains(x) implies ids.contains(x) by {
            let i = choose|i: int| 0 <= i < rest.len() && rest[i] == x;
            assert(ids[i] == x);
        }
        lemma_fresh_id_frames(rest, cache, id, entry);
    }
}

impl Sheet {
    /// The name of the test case that the ids of the symbols begin with.
    pub closed spec fn case_name(self) -> Seq<char> {
        self.testcase@
    }

    /// Whether the coordinates of outlines are rounded down.
    pub closed spec fn floors(self) -> bool {
        self.floor_coords
    }

    /// The glyphs put on the sheet so far, from left to right: the visual
    /// stream.
    pub closed spec fn glyphs(self) -> Seq<Glyph> {
        self.stream@
    }

    /// What each glyph id seen so far resolved to.
    pub closed spec fn entries(self) -> Map<u16, CacheEntry> {
        self.cache@
    }

    /// The symbols of the sheet.
    pub closed spec fn symbol_seq(self) -> Seq<Symbol> {
        self.symbols@
    }

    /// The placements of the sheet.
    pub closed spec fn placement_seq(self) -> Seq<Placement> {
        self.placements@
    }

    /// The number of glyphs up to and including the last one that is no
    /// mark.
    pub closed spec fn width(self) -> nat {
        self.width_glyphs as nat
    }

    pub fn testcase(&self) -> (name: &str)
        ensures
            name@ == self.case_name(),
    {
        self.testcase.as_str()
    }

    pub fn floor_coords(&self) -> (floor: bool)
        ensures
            floor == self.floors(),
    {
        self.floor_coords
    }

    /// The glyphs put on the sheet so far, from left to right.
    pub fn stream(&self) -> (stream: &Vec<Glyph>)
        ensures
            stream@ == self.glyphs(),
    {
        &self.stream
    }

    /// What the glyph id resolved to, if it has been seen.
    pub fn entry(&self, id: u16) -> (entry: Option<CacheEntry>)
        ensures
            entry == if self.entries().contains_key(id) {
                Some(self.entries()[id])
            } else {
                None::<CacheEntry>
            },
    {
        match self.cache.get(&id) {
            Some(entry) => Some(*entry),
            None => None,
        }
    }

    /// The symbols in the order in which their glyphs first occur.
    pub fn symbols(&self) -> (symbols: &Vec<Symbol>)
        ensures
            symbols@ == self.symbol_seq(),
    {
        &self.symbols
    }

    /// The placements from left to right.
    pub fn placements(&self) -> (placements: &Vec<Placement>)
        ensures
            placements@ == self.placement_seq(),
    {
        &self.placements
    }

    /// The number of glyphs up to and including the last one that is no
    /// mark: the width of the line is where the pen stands after them.
    pub fn width_glyphs(&self) -> (count: usize)
        ensures
            count == self.width(),
    {
        self.width_glyphs
    }

    /// The invariant of a sheet. The cache knows exactly the ids of the
    /// glyphs in the stream. An entry with a symbol names the symbol of its
    /// id, and the entry of the glyph of every symbol names that symbol.
    /// The symbols stand in the order in which their glyphs first occur.
    /// The placements are the glyphs with a symbol, from left to right,
    /// each with the reference to its symbol. The width ends behind the
    /// last glyph that is no mark. Every sheet that `new` made and that
    /// `place` and `place_glyph` changed is well formed.
    pub open spec fn wf(self) -> bool {
        let ids = glyph_ids(self.glyphs());
        let cache = self.entries();
        &&& forall|id: u16| cache.contains_key(id) <==> ids.contains(id)
        &&& forall|id: u16| #[trigger]
            has_symbol(cache, id) ==> cache[id]->Symbol_0 < self.symbol_seq().len()
                && self.symbol_seq()[cache[id]->Symbol_0 as int].glyph == id
        &&& symbol_glyphs(self.symbol_seq()) == symbol_order(ids, cache)
        &&& forall|k: int|
            0 <= k < self.symbol_seq().len() ==> has_symbol(cache, (#[trigger] self.symbol_seq()[k]).glyph)
                && cache[self.symbol_seq()[k].glyph]->Symbol_0 == k
        &&& placement_glyphs(self.placement_seq()) == placed_glyphs(ids, cache)
        &&& forall|j: int|
            0 <= j < self.placement_seq().len() ==> {
                let p = #[trigger] self.placement_seq()[j];
                &&& p.glyph_index < self.glyphs().len()
                &&& cache[self.glyphs()[p.glyph_index as int].id] == CacheEntry::Symbol(p.symbol)
                &&& p.symbol < self.symbol_seq().len()
                &&& p.href@ == symbol_href(self.symbol_seq()[p.symbol as int].id@)
            }
        &&& self.width() == width_of(self.glyphs())
    }

    /// An empty sheet for the test case `testcase`.
    pub fn new(testcase: &str, floor_coords: bool) -> (sheet: Sheet)
        ensures
            sheet.wf(),
            sheet.case_name() == testcase@,
            sheet.floors() == floor_coords,
            sheet.glyphs().len() == 0,
            sheet.symbol_seq().len() == 0,
            sheet.placement_seq().len() == 0,
            sheet.width() == 0,
            sheet.entries() == Map::<u16, CacheEntry>::empty(),
    {
        let sheet = Sheet {
            testcase: testcase.to_owned(),
            floor_coords,
            stream: Vec::new(),
            cache: HashMap::new(),
            symbols: Vec::new(),
            placements: Vec::new(),
            width_glyphs: 0,
        };
        assert(symbol_glyphs(sheet.symbol_seq()) =~= symbol_order(
            glyph_ids(sheet.glyphs()),
            sheet.entries(),
        ));
        assert(placement_glyphs(sheet.placement_seq()) =~= placed_glyphs(
            glyph_ids(sheet.glyphs()),
            sheet.entries(),
        ));
        sheet
    }

    /// Whether the glyph id has not been seen yet, so that the next glyph
    /// with this id needs its outline.
    pub fn needs_outline(&self, id: u16) -> (b: bool)
        ensures
            b == !self.entries().contains_key(id),
    {
        !self.cache.contains_key(&id)
    }

    /// Puts the next glyph of the visual stream on the sheet and gives the
    /// reference to its symbol, if it has one. `outline` and `name` are
    /// the outline and the name of the glyph in the font; the sheet reads
    /// them only for a glyph id that it has not seen.
    pub fn place(
        &mut self,
        glyph: Glyph,
        outline: Option<&Vec<PathCommand>>,
        name: Option<String>,
    ) -> (href: Option<String>)
        requires
            old(self).wf(),
        ensures
            final(self).wf(),
            placed(*old(self), *final(self), glyph, outline_of(outline), text_of(name), href),
    {
        let ghost pre = *self;
        let ghost ids = glyph_ids(self.stream@);
        let at = self.stream.len();
        let known = self.cache.get(&glyph.id);
        let entry = match known {
            Some(entry) => *entry,
            None => {
                let entry = match outline {
                    None => CacheEntry::NoOutline,
                    Some(commands) => {
                        let path = outline_to_svg_path(commands, self.floor_coords);
                        let label = label_glyph(name, glyph.id);
                        let id = make_symbol_id(self.testcase.as_str(), label.as_str());
                        let k = self.symbols.len();
                        self.symbols.push(Symbol { glyph: glyph.id, id, path });
                        CacheEntry::Symbol(k)
                    },
                };
                proof {
                    lemma_fresh_id_frames(ids, pre.entries(), glyph.id, entry);
                }
                self.cache.insert(glyph.id, entry);
                entry
            },
        };
        assert(entry == resolved(pre, glyph.id, outline_of(outline)));
        assert(self.cache@ =~= pre.entries().insert(glyph.id, entry));
        self.stream.push(glyph);
        if !glyph.is_mark {
            self.width_glyphs = self.stream.len();
        }
        let ghost ids2 = glyph_ids(self.stream@);
        proof {
            assert(ids2 =~= ids.push(glyph.id));
            assert(ids2.drop_last() =~= ids);
            assert(ids2.last() == glyph.id);
            assert(self.stream@.drop_last() =~= pre.glyphs());
            assert forall|id: u16| self.cache@.contains_key(id) <==> ids2.contains(id) by {
                if id == glyph.id {
                    assert(ids2[ids2.len() - 1] == id);
                } else {
                    if ids.contains(id) {
                        let i = choose|i: int| 0 <= i < ids.len() && ids[i] == id;
                        assert(ids2[i] == id);
                    }
                    if ids2.contains(id) {
                        let i = choose|i: int| 0 <= i < ids2.len() && ids2[i] == id;
                        assert(ids[i] == id);
                    }
                }
            }
            assert(symbol_glyphs(self.symbols@) =~= symbol_order(ids2, self.cache@));
            assert forall|id: u16| #[trigger]
                has_symbol(self.cache@, id) implies self.cache@[id]->Symbol_0 < self.symbols@.len()
                && self.symbols@[self.cache@[id]->Symbol_0 as int].glyph == id by {
                if pre.entries().contains_key(id) {
                    assert(has_symbol(pre.entries(), id));
                    assert(self.symbols@[pre.entries()[id]->Symbol_0 as int]
                        == pre.symbol_seq()[pre.entries()[id]->Symbol_0 as int]);
                }
            }
            assert forall|k: int| 0 <= k < self.symbols@.len() implies has_symbol(
                self.cache@,
                (#[trigger] self.symbols@[k]).glyph,
            ) && self.cache@[self.symbols@[k].glyph]->Symbol_0 == k by {
                if k < pre.symbol_seq().len() {
                    assert(self.symbols@[k] == pre.symbol_seq()[k]);
                }
            }
            assert forall|j: int| 0 <= j < self.placements@.len() implies {
                let p = #[trigger] self.placements@[j];
                &&& p.glyph_index < self.stream@.len()
                &&& self.cache@[self.stream@[p.glyph_index as int].id] == CacheEntry::Symbol(
                    p.symbol,
                )
                &&& p.symbol < self.symbols@.len()
                &&& p.href@ == symbol_href(self.symbols@[p.symbol as int].id@)
            } by {
                let p = pre.placement_seq()[j];
                assert(self.stream@[p.glyph_index as int] == pre.glyphs()[p.glyph_index as int]);
                assert(ids[p.glyph_index as int] == pre.glyphs()[p.glyph_index as int].id);
                assert(ids.contains(pre.glyphs()[p.glyph_index as int].id));
                assert(self.symbols@[p.symbol as int] == pre.symbol_seq()[p.symbol as int]);
            }
        }
        let href = match entry {
            CacheEntry::NoOutline => None,
            CacheEntry::Symbol(k) => {
                assert(has_symbol(self.cache@, glyph.id));
                let href = make_symbol_href(self.symbols[k].id.as_str());
                self.placements.push(Placement { symbol: k, href: href.clone(), glyph_index: at });
                Some(href)
            },
        };
        proof {
            assert(placement_glyphs(self.placements@) =~= placed_glyphs(ids2, self.cache@));
            assert(self.stream@[at as int].id == glyph.id);
            if !pre.entries().contains_key(glyph.id) && outline is Some {
                assert(self.symbols@.drop_last() =~= pre.symbol_seq());
            }
            if entry is Symbol {
                assert(self.placements@.drop_last() =~= pre.placement_seq());
            }
        }
        href
    }

    /// Puts the next glyph of the visual stream on the sheet, as `place`
    /// does, with the name that the first face of the font `font` gives to
    /// the glyph. The font is asked for the name only where a symbol is
    /// made.
    pub fn place_glyph(
        &mut self,
        glyph: Glyph,
        outline: Option<&Vec<PathCommand>>,
        font: &[u8],
    ) -> (href: Option<String>)
        requires
            old(self).wf(),
        ensures
            final(self).wf(),
            placed(
                *old(self),
                *final(self),
                glyph,
                outline_of(outline),
                font_glyph_name(font@, NAMED_FACE, glyph.id),
                href,
            ),
    {
        let name = if self.needs_outline(glyph.id) && outline.is_some() {
            lookup_glyph_name(font, NAMED_FACE, glyph.id)
        } else {
            None
        };
        let ghost pre = *self;
        let href = self.place(glyph, outline, name);
        assert(placed(
            pre,
            *self,
            glyph,
            outline_of(outline),
            font_glyph_name(font@, NAMED_FACE, glyph.id),
            href,
        ));
        href
    }
}

/// Where the pen stands after the first `count` glyphs of a line whose
/// glyphs have the advances `advances`.
pub open spec fn pen_after(advances: Seq<nat>, count: int) -> nat
    decreases count,
{
    if count <= 0 {
        0
    } else {
        pen_after(advances, count - 1) + advances[count - 1]
    }
}

/// The first position of `id` in `ids`, for an id that occurs there.
pub open spec fn first_at(ids: Seq<u16>, id: u16) -> int
    decreases ids.len(),
{
    if ids.len() == 0 {
        0
    } else if ids.drop_last().contains(id) {
        first_at(ids.drop_last(), id)
    } else {
        ids.len() - 1
    }
}

/// The ids on the sheet that have a symbol.
pub open spec fn outlined_ids(sheet: Sheet) -> Set<u16> {
    Set::new(
        |id: u16| glyph_ids(sheet.glyphs()).contains(id) && has_symbol(sheet.entries(), id),
    )
}

/// `first_at` finds an id where it first occurs.
pub proof fn lemma_first_at(ids: Seq<u16>, id: u16)
    requires
        ids.contains(id),
    ensures
        0 <= first_at(ids, id) < ids.len(),
        ids[first_at(ids, id)] == id,
        forall|i: int| 0 <= i < first_at(ids, id) ==> ids[i] != id,
    decreases ids.len(),
{
    let rest = ids.drop_last();
    if rest.contains(id) {
        lemma_first_at(rest, id);
        assert forall|i: int| 0 <= i < first_at(ids, id) implies ids[i] != id by {
            assert(rest[i] == ids[i]);
        }
        assert(rest[first_at(rest, id)] == ids[first_at(rest, id)]);
    } else {
        let at = choose|i: int| 0 <= i < ids.len() && ids[i] == id;
        if at < ids.len() - 1 {
            assert(rest[at] == id);
        }
        assert forall|i: int| 0 <= i < ids.len() - 1 implies ids[i] != id by {
            assert(rest[i] == ids[i]);
        }
    }
}

/// The ids in `symbol_order` are the ids with a symbol that occur in `ids`,
/// and an id stands before another there exactly as its first occurrence
/// comes before the first occurrence of the other.
pub proof fn lemma_symbol_order(ids: Seq<u16>, cache: Map<u16, CacheEntry>)
    ensures
        forall|j: int|
            0 <= j < symbol_order(ids, cache).len() ==> ids.contains(
                #[trigger] symbol_order(ids, cache)[j],
            ) && has_symbol(cache, symbol_order(ids, cache)[j]),
        forall|id: u16|
            ids.contains(id) && has_symbol(cache, id) ==> symbol_order(ids, cache).contains(id),
        forall|j: int, k: int|
            0 <= j < k < symbol_order(ids, cache).len() ==> first_at(
                ids,
                #[trigger] symbol_order(ids, cache)[j],
            ) < first_at(ids, #[trigger] symbol_order(ids, cache)[k]),
    decreases ids.len(),
{
    let order = symbol_order(ids, cache);
    if ids.len() > 0 {
        let rest = ids.drop_last();
        let last = ids.last();
        let before = symbol_order(rest, cache);
        lemma_symbol_order(rest, cache);
        assert(ids[ids.len() - 1] == last);
        assert forall|x: u16| rest.contains(x) implies ids.contains(x) by {
            let i = choose|i: int| 0 <= i < rest.len() && rest[i] == x;
            assert(ids[i] == x);
        }
        assert forall|j: int| 0 <= j < order.len() implies ids.contains(#[trigger] order[j])
            && has_symbol(cache, order[j]) by {
            if j < before.len() {
                assert(order[j] == before[j]);
            }
        }
        assert forall|id: u16| ids.contains(id) && has_symbol(cache, id) implies order.contains(
            id,
        ) by {
            if rest.contains(id) {
                let j = choose|j: int| 0 <= j < before.len() && before[j] == id;
                assert(order[j] == id);
            } else {
                let i = choose|i: int| 0 <= i < ids.len() && ids[i] == id;
                if i < ids.len() - 1 {
                    assert(rest[i] == id);
                }
                assert(id == last);
                assert(order[order.len() - 1] == id);
            }
        }
        assert forall|j: int, k: int| 0 <= j < k < order.len() implies first_at(
            ids,
            #[trigger] order[j],
        ) < first_at(ids, #[trigger] order[k]) by {
            assert(order[j] == before[j]);
            assert(rest.contains(before[j]));
            lemma_first_at(rest, before[j]);
            if k < before.len() {
                assert(order[k] == before[k]);
                assert(rest.contains(before[k]));
            } else {
                assert(order[k] == last);
                assert(!rest.contains(last));
            }
        }
    }
}

/// A sheet holds exactly one symbol for every glyph id on it that has an
/// outline, however often the id occurs.
pub proof fn lemma_one_symbol_per_outlined_id(sheet: Sheet)
    requires
        sheet.wf(),
    ensures
        symbol_glyphs(sheet.symbol_seq()).no_duplicates(),
        symbol_glyphs(sheet.symbol_seq()).to_set() == outlined_ids(sheet),
        sheet.symbol_seq().len() == outlined_ids(sheet).len(),
{
    let glyphs = symbol_glyphs(sheet.symbol_seq());
    assert forall|j: int, k: int| 0 <= j < glyphs.len() && 0 <= k < glyphs.len() && j != k implies glyphs[j]
        != glyphs[k] by {
        assert(sheet.entries()[sheet.symbol_seq()[j].glyph]->Symbol_0 == j);
        assert(sheet.entries()[sheet.symbol_seq()[k].glyph]->Symbol_0 == k);
    }
    assert forall|id: u16| glyphs.to_set().contains(id) <==> outlined_ids(sheet).contains(id) by {
        if glyphs.to_set().contains(id) {
            let k = choose|k: int| 0 <= k < glyphs.len() && glyphs[k] == id;
            assert(sheet.symbol_seq()[k].glyph == id);
            assert(sheet.entries().contains_key(id));
        }
        if outlined_ids(sheet).contains(id) {
            assert(has_symbol(sheet.entries(), id));
            let k = sheet.entries()[id]->Symbol_0 as int;
            assert(glyphs[k] == id);
        }
    }
    assert(glyphs.to_set() =~= outlined_ids(sheet));
    glyphs.unique_seq_to_set();
}

/// The symbols of a sheet stand in the order in which their glyphs first
/// occur in the visual stream.
pub proof fn lemma_symbols_in_first_seen_order(sheet: Sheet, j: int, k: int)
    requires
        sheet.wf(),
        0 <= j < k < sheet.symbol_seq().len(),
    ensures
        symbol_glyphs(sheet.symbol_seq()) == symbol_order(glyph_ids(sheet.glyphs()), sheet.entries()),
        first_at(glyph_ids(sheet.glyphs()), sheet.symbol_seq()[j].glyph) < first_at(
            glyph_ids(sheet.glyphs()),
            sheet.symbol_seq()[k].glyph,
        ),
        glyph_ids(sheet.glyphs()).contains(sheet.symbol_seq()[j].glyph),
        glyph_ids(sheet.glyphs()).contains(sheet.symbol_seq()[k].glyph),
{
    let ids = glyph_ids(sheet.glyphs());
    lemma_symbol_order(ids, sheet.entries());
    let order = symbol_order(ids, sheet.entries());
    assert(order[j] == sheet.symbol_seq()[j].glyph);
    assert(order[k] == sheet.symbol_seq()[k].glyph);
}

/// The pen never moves back: after more glyphs it stands no further left.
pub proof fn lemma_pen_monotone(advances: Seq<nat>, i: int, j: int)
    requires
        0 <= i <= j <= advances.len(),
    ensures
        pen_after(advances, i) <= pen_after(advances, j),
    decreases j - i,
{
    if i < j {
        lemma_pen_monotone(advances, i, j - 1);
    }
}

/// The width of a line ends with a glyph that is no mark, and only marks
/// follow it.
pub proof fn lemma_width_of(stream: Seq<Glyph>)
    ensures
        0 <= width_of(stream) <= stream.len(),
        width_of(stream) > 0 ==> !stream[width_of(stream) - 1].is_mark,
        forall|i: int| width_of(stream) <= i < stream.len() ==> (#[trigger] stream[i]).is_mark,
    decreases stream.len(),
{
    if stream.len() > 0 && stream.last().is_mark {
        let rest = stream.drop_last();
        lemma_width_of(rest);
        assert forall|i: int| width_of(stream) <= i < stream.len() implies (
        #[trigger] stream[i]).is_mark by {
            if i < rest.len() {
                assert(rest[i] == stream[i]);
            }
        }
        if width_of(stream) > 0 {
            assert(rest[width_of(stream) - 1] == stream[width_of(stream) - 1]);
        }
    }
}

/// The glyphs that are placed are named from left to right, and each lies
/// in the stream.
pub proof fn lemma_placed_glyphs(ids: Seq<u16>, cache: Map<u16, CacheEntry>)
    ensures
        forall|j: int|
            0 <= j < placed_glyphs(ids, cache).len() ==> 0 <= (#[trigger] placed_glyphs(
                ids,
                cache,
            )[j]) < ids.len() && has_symbol(cache, ids[placed_glyphs(ids, cache)[j]]),
        forall|j: int, k: int|
            0 <= j < k < placed_glyphs(ids, cache).len() ==> (#[trigger] placed_glyphs(
                ids,
                cache,
            )[j]) < (#[trigger] placed_glyphs(ids, cache)[k]),
        forall|i: int|
            0 <= i < ids.len() && has_symbol(cache, #[trigger] ids[i]) ==> placed_glyphs(
                ids,
                cache,
            ).contains(i),
    decreases ids.len(),
{
    let placed = placed_glyphs(ids, cache);
    if ids.len() > 0 {
        let rest = ids.drop_last();
        let before = placed_glyphs(rest, cache);
        lemma_placed_glyphs(rest, cache);
        assert forall|j: int| 0 <= j < placed.len() implies 0 <= (#[trigger] placed[j]) < ids.len()
            && has_symbol(cache, ids[placed[j]]) by {
            if j < before.len() {
                assert(placed[j] == before[j]);
                assert(rest[before[j]] == ids[before[j]]);
            }
        }
        assert forall|j: int, k: int| 0 <= j < k < placed.len() implies (#[trigger] placed[j]) < (
        #[trigger] placed[k]) by {
            assert(placed[j] == before[j]);
            if k < before.len() {
                assert(placed[k] == before[k]);
            }
        }
        assert forall|i: int| 0 <= i < ids.len() && has_symbol(
            cache,
            #[trigger] ids[i],
        ) implies placed.contains(i) by {
            if i < rest.len() {
                assert(rest[i] == ids[i]);
                let j = choose|j: int| 0 <= j < before.len() && before[j] == i;
                assert(placed[j] == i);
            } else {
                assert(placed[placed.len() - 1] == i);
            }
        }
    }
}

/// On a line whose glyphs have the advances `advances`, the pen of a sheet
/// only moves to the right: a placement stands no further right than the
/// placement after it, and the width of the line is no more than where the
/// pen stands at the end.
pub proof fn lemma_pen_of_sheet(sheet: Sheet, advances: Seq<nat>)
    requires
        sheet.wf(),
        advances.len() == sheet.glyphs().len(),
    ensures
        0 <= sheet.width() <= sheet.glyphs().len(),
        pen_after(advances, sheet.width() as int) <= pen_after(
            advances,
            sheet.glyphs().len() as int,
        ),
        forall|j: int, k: int|
            0 <= j < k < sheet.placement_seq().len() ==> (#[trigger] sheet.placement_seq()[j]).glyph_index < (
            #[trigger] sheet.placement_seq()[k]).glyph_index,
        forall|j: int, k: int|
            0 <= j <= k < sheet.placement_seq().len() ==> pen_after(
                advances,
                (#[trigger] sheet.placement_seq()[j]).glyph_index as int,
            ) <= pen_after(advances, (#[trigger] sheet.placement_seq()[k]).glyph_index as int),
{
    lemma_width_of(sheet.glyphs());
    lemma_pen_monotone(advances, sheet.width() as int, sheet.glyphs().len() as int);
    let ids = glyph_ids(sheet.glyphs());
    lemma_placed_glyphs(ids, sheet.entries());
    let placed = placed_glyphs(ids, sheet.entries());
    assert forall|j: int, k: int| 0 <= j < k < sheet.placement_seq().len() implies (
    #[trigger] sheet.placement_seq()[j]).glyph_index < (#[trigger] sheet.placement_seq()[k]).glyph_index by {
        assert(placement_glyphs(sheet.placement_seq())[j] == placed[j]);
        assert(placement_glyphs(sheet.placement_seq())[k] == placed[k]);
    }
    assert forall|j: int, k: int| 0 <= j <= k < sheet.placement_seq().len() implies pen_after(
        advances,
        (#[trigger] sheet.placement_seq()[j]).glyph_index as int,
    ) <= pen_after(advances, (#[trigger] sheet.placement_seq()[k]).glyph_index as int) by {
        lemma_pen_monotone(
            advances,
            sheet.placement_seq()[j].glyph_index as int,
            sheet.placement_seq()[k].glyph_index as int,
        );
    }
}

} // verus!
