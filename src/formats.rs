//! The style registry: every distinct cell format gets one index, and the
//! fonts, fills and borders that formats are made of each get one index in
//! their own table, which the resolved record of a format points into.

use vstd::prelude::*;

use crate::dedup::{first_occurrences, interned, lemma_first_occurrences};

verus! {

#[derive(Clone, Copy, Debug, PartialEq, Eq, Structural)]
pub struct Font {
    pub bold: bool,
    pub italic: bool,
    pub underline: u8,
    pub strikethrough: bool,
    /// The size in twentieths of a point.
    pub size: u32,
    /// An RGB color; zero is the automatic color.
    pub color: u32,
}

#[derive(Clone, Copy, Debug, PartialEq, Eq, Structural)]
pub struct Fill {
    /// The pattern: zero is none, seventeen is the gray 12.5% pattern.
    pub pattern: u8,
    pub foreground: u32,
    pub background: u32,
}

#[derive(Clone, Copy, Debug, PartialEq, Eq, Structural)]
pub struct Border {
    pub left: u8,
    pub right: u8,
    pub top: u8,
    pub bottom: u8,
    pub color: u32,
}

/// A cell format descriptor: two are the same format exactly where every
/// attribute is equal.
#[derive(Clone, Copy, Debug, PartialEq, Eq, Structural)]
pub struct Format {
    pub num_format: u16,
    pub font: Font,
    pub fill: Fill,
    pub border: Border,
    pub horizontal: u8,
    pub vertical: u8,
    pub wrap: bool,
    pub locked: bool,
    pub hidden: bool,
}

/// The resolved form of a format: its sub-records by index.
#[derive(Clone, Copy, Debug, PartialEq, Eq, Structural)]
pub struct StyleRecord {
    pub num_format: u16,
    pub font: usize,
    pub fill: usize,
    pub border: usize,
    pub horizontal: u8,
    pub vertical: u8,
    pub wrap: bool,
    pub locked: bool,
    pub hidden: bool,
}

/// Gray 12.5%, the pattern of the second built-in fill.
pub const GRAY125: u8 = 17;

/// The font of the default format: 11 points, automatic color.
pub open spec fn default_font() -> Font {
    Font { bold: false, italic: false, underline: 0, strikethrough: false, size: 220, color: 0 }
}

pub open spec fn no_fill() -> Fill {
    Fill { pattern: 0, foreground: 0, background: 0 }
}

pub open spec fn gray_fill() -> Fill {
    Fill { pattern: GRAY125, foreground: 0, background: 0 }
}

pub open spec fn no_border() -> Border {
    Border { left: 0, right: 0, top: 0, bottom: 0, color: 0 }
}

/// The format of a cell that was given none: general number format, the
/// default font, no fill, no border, locked.
pub open spec fn default_format() -> Format {
    Format {
        num_format: 0,
        font: default_font(),
        fill: no_fill(),
        border: no_border(),
        horizontal: 0,
        vertical: 0,
        wrap: false,
        locked: true,
        hidden: false,
    }
}

/// The record of `f` where its font, fill and border stand at the given
/// indices.
pub open spec fn record_of(f: Format, font: usize, fill: usize, border: usize) -> StyleRecord {
    StyleRecord {
        num_format: f.num_format,
        font,
        fill,
        border,
        horizontal: f.horizontal,
        vertical: f.vertical,
        wrap: f.wrap,
        locked: f.locked,
        hidden: f.hidden,
    }
}

/// The position of `x` in `v`, where it is there.
fn find_format(v: &Vec<Format>, x: &Format) -> (r: Option<usize>)
    ensures
        match r {
            Some(i) => i < v@.len() && v@[i as int] == *x,
            None => !v@.contains(*x),
        },
{
    let mut i: usize = 0;
    while i < v.len()
        invariant
            i <= v@.len(),
            forall|k: int| 0 <= k < i ==> v@[k] != *x,
        decreases v@.len() - i,
    {
        if v[i] == *x {
            return Some(i);
        }
        i = i + 1;
    }
    None
}

/// The position of `x` in `v`, where it is there.
fn find_font(v: &Vec<Font>, x: &Font) -> (r: Option<usize>)
    ensures
        match r {
            Some(i) => i < v@.len() && v@[i as int] == *x,
            None => !v@.contains(*x),
        },
{
    let mut i: usize = 0;
    while i < v.len()
        invariant
            i <= v@.len(),
            forall|k: int| 0 <= k < i ==> v@[k] != *x,
        decreases v@.len() - i,
    {
        if v[i] == *x {
            return Some(i);
        }
        i = i + 1;
    }
    None
}

/// The position of `x` in `v`, where it is there.
fn find_fill(v: &Vec<Fill>, x: &Fill) -> (r: Option<usize>)
    ensures
        match r {
            Some(i) => i < v@.len() && v@[i as int] == *x,
            None => !v@.contains(*x),
        },
{
    let mut i: usize = 0;
    while i < v.len()
        invariant
            i <= v@.len(),
            forall|k: int| 0 <= k < i ==> v@[k] != *x,
        decreases v@.len() - i,
    {
        if v[i] == *x {
            return Some(i);
        }
        i = i + 1;
    }
    None
}

/// The position of `x` in `v`, where it is there.
fn find_border(v: &Vec<Border>, x: &Border) -> (r: Option<usize>)
    ensures
        match r {
            Some(i) => i < v@.len() && v@[i as int] == *x,
            None => !v@.contains(*x),
        },
{
    let mut i: usize = 0;
    while i < v.len()
        invariant
            i <= v@.len(),
            forall|k: int| 0 <= k < i ==> v@[k] != *x,
        decreases v@.len() - i,
    {
        if v[i] == *x {
            return Some(i);
        }
        i = i + 1;
    }
    None
}

/// The registry of formats, with the built-in entries first: the default
/// format and its font and border at index zero, and the two fills that
/// every style table begins with.
pub struct FormatRegistry {
    formats: Vec<Format>,
    records: Vec<StyleRecord>,
    fonts: Vec<Font>,
    fills: Vec<Fill>,
    borders: Vec<Border>,
}

impl FormatRegistry {
    pub closed spec fn formats(&self) -> Seq<Format> {
        self.formats@
    }

    pub closed spec fn records(&self) -> Seq<StyleRecord> {
        self.records@
    }

    pub closed spec fn fonts(&self) -> Seq<Font> {
        self.fonts@
    }

    pub closed spec fn fills(&self) -> Seq<Fill> {
        self.fills@
    }

    pub closed spec fn borders(&self) -> Seq<Border> {
        self.borders@
    }

    /// The record at `k` is the format at `k` with its font, fill and border
    /// by index into their tables.
    pub open spec fn record_ok(&self, k: int) -> bool {
        let r = self.records()[k];
        &&& r.font < self.fonts().len()
        &&& r.fill < self.fills().len()
        &&& r.border < self.borders().len()
        &&& self.fonts()[r.font as int] == self.formats()[k].font
        &&& self.fills()[r.fill as int] == self.formats()[k].fill
        &&& self.borders()[r.border as int] == self.formats()[k].border
        &&& r == record_of(self.formats()[k], r.font, r.fill, r.border)
    }

    pub open spec fn wf(&self) -> bool {
        &&& self.formats().no_duplicates()
        &&& self.fonts().no_duplicates()
        &&& self.fills().no_duplicates()
        &&& self.borders().no_duplicates()
        &&& self.records().len() == self.formats().len()
        &&& forall|k: int| 0 <= k < self.formats().len() ==> self.record_ok(k)
        &&& self.formats().len() >= 1
        &&& self.formats()[0] == default_format()
        &&& self.fonts().len() >= 1
        &&& self.fonts()[0] == default_font()
        &&& self.fills().len() >= 2
        &&& self.fills()[0] == no_fill()
        &&& self.fills()[1] == gray_fill()
        &&& self.borders().len() >= 1
        &&& self.borders()[0] == no_border()
    }

    /// A registry that holds the built-in entries alone.
    pub fn new() -> (r: FormatRegistry)
        ensures
            r.wf(),
            r.formats() == seq![default_format()],
            r.fonts() == seq![default_font()],
            r.fills() == seq![no_fill(), gray_fill()],
            r.borders() == seq![no_border()],
    {
        let font = Font {
            bold: false,
            italic: false,
            underline: 0,
            strikethrough: false,
            size: 220,
            color: 0,
        };
        let none = Fill { pattern: 0, foreground: 0, background: 0 };
        let gray = Fill { pattern: GRAY125, foreground: 0, background: 0 };
        let border = Border { left: 0, right: 0, top: 0, bottom: 0, color: 0 };
        let format = Format {
            num_format: 0,
            font,
            fill: none,
            border,
            horizontal: 0,
            vertical: 0,
            wrap: false,
            locked: true,
            hidden: false,
        };
        let record = StyleRecord {
            num_format: 0,
            font: 0,
            fill: 0,
            border: 0,
            horizontal: 0,
            vertical: 0,
            wrap: false,
            locked: true,
            hidden: false,
        };
        let r = FormatRegistry {
            formats: vec![format],
            records: vec![record],
            fonts: vec![font],
            fills: vec![none, gray],
            borders: vec![border],
        };
        assert(r.record_ok(0));
        r
    }

    /// The number of formats, built-in ones included.
    pub fn len(&self) -> (r: usize)
        ensures
            r == self.formats().len(),
    {
        self.formats.len()
    }

    pub fn font_count(&self) -> (r: usize)
        ensures
            r == self.fonts().len(),
    {
        self.fonts.len()
    }

    pub fn fill_count(&self) -> (r: usize)
        ensures
            r == self.fills().len(),
    {
        self.fills.len()
    }

    pub fn border_count(&self) -> (r: usize)
        ensures
            r == self.borders().len(),
    {
        self.borders.len()
    }

    /// The resolved record of the format at `index`.
    pub fn record(&self, index: usize) -> (r: StyleRecord)
        requires
            self.wf(),
            index < self.formats().len(),
        ensures
            r == self.records()[index as int],
            self.record_ok(index as int),
    {
        self.records[index]
    }

    /// The index of `f`. A new format is appended, with its font, fill and
    /// border each appended to its table where it is new there.
    pub fn resolve(&mut self, f: Format) -> (r: usize)
        requires
            old(self).wf(),
        ensures
            final(self).wf(),
            final(self).formats() == interned(old(self).formats(), f),
            r < final(self).formats().len(),
            final(self).formats()[r as int] == f,
            !old(self).formats().contains(f) ==> r == old(self).formats().len(),
            old(self).formats().contains(f) ==> {
                &&& final(self).fonts() == old(self).fonts()
                &&& final(self).fills() == old(self).fills()
                &&& final(self).borders() == old(self).borders()
            },
            !old(self).formats().contains(f) ==> {
                &&& final(self).fonts() == interned(old(self).fonts(), f.font)
                &&& final(self).fills() == interned(old(self).fills(), f.fill)
                &&& final(self).borders() == interned(old(self).borders(), f.border)
            },
    {
        match find_format(&self.formats, &f) {
            Some(i) => {
                return i;
            },
            None => {},
        }
        let font = match find_font(&self.fonts, &f.font) {
            Some(i) => i,
            None => {
                self.fonts.push(f.font);
                assert(self.fonts@ == interned(old(self).fonts(), f.font));
                self.fonts.len() - 1
            },
        };
        let fill = match find_fill(&self.fills, &f.fill) {
            Some(i) => i,
            None => {
                self.fills.push(f.fill);
                assert(self.fills@ == interned(old(self).fills(), f.fill));
                self.fills.len() - 1
            },
        };
        let border = match find_border(&self.borders, &f.border) {
            Some(i) => i,
            None => {
                self.borders.push(f.border);
                assert(self.borders@ == interned(old(self).borders(), f.border));
                self.borders.len() - 1
            },
        };
        let record = StyleRecord {
            num_format: f.num_format,
            font,
            fill,
            border,
            horizontal: f.horizontal,
            vertical: f.vertical,
            wrap: f.wrap,
            locked: f.locked,
            hidden: f.hidden,
        };
        self.formats.push(f);
        self.records.push(record);
        proof {
            let o = old(self);
            assert forall|k: int| 0 <= k < self.formats().len() implies self.record_ok(k) by {
                if k < o.formats().len() {
                    assert(o.record_ok(k));
                    assert(self.formats()[k] == o.formats()[k]);
                    assert(self.records()[k] == o.records()[k]);
                    let rk = o.records()[k];
                    assert(self.fonts()[rk.font as int] == o.fonts()[rk.font as int]);
                    assert(self.fills()[rk.fill as int] == o.fills()[rk.fill as int]);
                    assert(self.borders()[rk.border as int] == o.borders()[rk.border as int]);
                }
            }
            assert(self.formats() == interned(o.formats(), f));
        }
        self.formats.len() - 1
    }
}

impl FormatRegistry {
    /// The registry of the formats of `cells`, resolved in order, and the
    /// index of each cell's format in it.
    pub fn from_formats(cells: &Vec<Format>) -> (r: (FormatRegistry, Vec<usize>))
        ensures
            r.0.wf(),
            r.0.formats() == first_occurrences(seq![default_format()] + cells@),
            r.1@.len() == cells@.len(),
            forall|k: int|
                0 <= k < cells@.len() ==> r.1@[k] < r.0.formats().len() && r.0.formats()[r.1@[
                    k
                ] as int] == cells@[k],
    {
        let ghost all = seq![default_format()] + cells@;
        let mut reg = FormatRegistry::new();
        proof {
            let e = Seq::<Format>::empty();
            assert(all.take(1).drop_last() =~= e);
            assert(first_occurrences(e) == e);
            assert(!e.contains(default_format()));
            assert(e.push(default_format()) =~= seq![default_format()]);
            assert(first_occurrences(all.take(1)) =~= seq![default_format()]);
        }
        let mut indices: Vec<usize> = Vec::new();
        let mut k: usize = 0;
        while k < cells.len()
            invariant
                k <= cells@.len(),
                all == seq![default_format()] + cells@,
                reg.wf(),
                reg.formats() == first_occurrences(all.take(k + 1)),
                indices@.len() == k,
                forall|j: int|
                    0 <= j < k ==> #[trigger] indices@[j] < reg.formats().len() && reg.formats()[indices@[
                        j
                    ] as int] == cells@[j],
            decreases cells@.len() - k,
        {
            let ghost before = reg.formats();
            let ghost old_indices = indices@;
            let index = reg.resolve(cells[k]);
            indices.push(index);
            proof {
                let t = all.take(k + 2);
                assert(t.drop_last() =~= all.take(k + 1));
                assert(t.last() == cells@[k as int]);
                assert forall|j: int| 0 <= j < k implies indices@[j] < reg.formats().len()
                    && reg.formats()[indices@[j] as int] == cells@[j] by {
                    assert(indices@[j] == old_indices[j]);
                    assert(old_indices[j] < before.len());
                    assert(before.len() <= reg.formats().len());
                    assert(reg.formats()[old_indices[j] as int] == before[old_indices[j] as int]);
                }
            }
            k = k + 1;
        }
        assert(all.take(k + 1) =~= all);
        (reg, indices)
    }
}

/// Two formats resolved one after the other on a well-formed registry get
/// the same index exactly where they are equal in every attribute. Here `t`
/// is the registry's table of formats before the two calls and `ia`, `ib`
/// the indices that they returned.
pub proof fn lemma_resolve_same_index(t: Seq<Format>, a: Format, b: Format, ia: int, ib: int)
    requires
        t.no_duplicates(),
        0 <= ia < interned(t, a).len(),
        interned(t, a)[ia] == a,
        0 <= ib < interned(interned(t, a), b).len(),
        interned(interned(t, a), b)[ib] == b,
    ensures
        (ia == ib) <==> (a == b),
{
    let t1 = interned(t, a);
    let t2 = interned(t1, b);
    assert(t2[ia] == a);
    if t1.contains(b) {
        let p = choose|p: int| 0 <= p < t1.len() && t1[p] == b;
        assert(t1.contains(a));
        if a == b {
            if t.contains(a) {
                assert(t1 == t);
            }
            assert(t2 == t1);
            assert(t1.no_duplicates());
        }
    }
}

/// After the formats of the cells are resolved, the table holds one entry
/// for each distinct format among the cells and the default format.
pub proof fn lemma_style_count(cells: Seq<Format>)
    ensures
        first_occurrences(seq![default_format()] + cells).len() == cells.to_set().insert(
            default_format(),
        ).len(),
{
    let all = seq![default_format()] + cells;
    lemma_first_occurrences(all);
    assert forall|x: Format| all.to_set().contains(x) <==> cells.to_set().insert(
        default_format(),
    ).contains(x) by {
        if all.contains(x) {
            let p = choose|p: int| 0 <= p < all.len() && all[p] == x;
            if p > 0 {
                assert(cells[p - 1] == x);
            }
        }
        if cells.contains(x) {
            let p = choose|p: int| 0 <= p < cells.len() && cells[p] == x;
            assert(all[p + 1] == x);
        }
        assert(all[0] == default_format());
    }
    assert(all.to_set() =~= cells.to_set().insert(default_format()));
}

} // verus!
