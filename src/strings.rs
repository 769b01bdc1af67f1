//! The shared string table: every distinct literal string of the cells, in
//! the order of its first occurrence, referenced by its index. Strings are
//! equal only where they are equal character for character, so two rich
//! strings with the same text and other runs are two entries.

use vstd::prelude::*;

use crate::dedup::{first_occurrences, interned};

verus! {

pub open spec fn views(v: Seq<String>) -> Seq<Seq<char>> {
    v.map_values(|s: String| s@)
}

/// The distinct strings in order of first occurrence, each held once.
pub struct SharedStringTable {
    strings: Vec<String>,
}

impl View for SharedStringTable {
    type V = Seq<Seq<char>>;

    closed spec fn view(&self) -> Seq<Seq<char>> {
        views(self.strings@)
    }
}

impl SharedStringTable {
    /// No string is held twice.
    pub open spec fn wf(&self) -> bool {
        self@.no_duplicates()
    }

    /// An empty table.
    pub fn new() -> (r: SharedStringTable)
        ensures
            r.wf(),
            r@ == Seq::<Seq<char>>::empty(),
    {
        let r = SharedStringTable { strings: Vec::new() };
        assert(r@ =~= Seq::<Seq<char>>::empty());
        r
    }

    /// The number of distinct strings.
    pub fn len(&self) -> (r: usize)
        ensures
            r == self@.len(),
    {
        self.strings.len()
    }

    pub fn is_empty(&self) -> (r: bool)
        ensures
            r == (self@.len() == 0),
    {
        self.strings.len() == 0
    }

    /// The string at `index`.
    pub fn get(&self, index: usize) -> (r: &str)
        requires
            index < self@.len(),
        ensures
            r@ == self@[index as int],
    {
        self.strings[index].as_str()
    }

    /// The index of `s`, appending it first where it is new.
    pub fn shared_string_index(&mut self, s: &str) -> (r: usize)
        requires
            old(self).wf(),
        ensures
            final(self).wf(),
            final(self)@ == interned(old(self)@, s@),
            r < final(self)@.len(),
            final(self)@[r as int] == s@,
            old(self)@.contains(s@) ==> r < old(self)@.len(),
            !old(self)@.contains(s@) ==> r == old(self)@.len(),
    {
        let owned = s.to_owned();
        let mut i: usize = 0;
        while i < self.strings.len()
            invariant
                self@ == old(self)@,
                self.wf(),
                i <= self@.len(),
                owned@ == s@,
                forall|k: int| 0 <= k < i ==> self@[k] != s@,
            decreases self@.len() - i,
        {
            if self.strings[i] == owned {
                assert(self@[i as int] == s@);
                return i;
            }
            i = i + 1;
        }
        assert(!self@.contains(s@));
        self.strings.push(owned);
        assert(self@ =~= old(self)@.push(s@));
        i
    }

    /// The table of `cells` and the index of each cell's string in it.
    pub fn from_cells(cells: &Vec<String>) -> (r: (SharedStringTable, Vec<usize>))
        ensures
            r.0.wf(),
            r.0@ == first_occurrences(views(cells@)),
            r.1@.len() == cells@.len(),
            forall|k: int|
                0 <= k < cells@.len() ==> r.1@[k] < r.0@.len() && r.0@[r.1@[k] as int]
                    == cells@[k]@,
    {
        let mut table = SharedStringTable::new();
        let mut indices: Vec<usize> = Vec::new();
        let mut k: usize = 0;
        while k < cells.len()
            invariant
                k <= cells@.len(),
                table.wf(),
                table@ == first_occurrences(views(cells@).take(k as int)),
                indices@.len() == k,
                forall|j: int|
                    0 <= j < k ==> indices@[j] < table@.len() && table@[indices@[j] as int]
                        == cells@[j]@,
            decreases cells@.len() - k,
        {
            let ghost before = table@;
            let index = table.shared_string_index(cells[k].as_str());
            indices.push(index);
            proof {
                let t = views(cells@).take(k + 1);
                assert(t.drop_last() =~= views(cells@).take(k as int));
                assert(t.last() == cells@[k as int]@);
                assert forall|j: int| 0 <= j < k implies indices@[j] < table@.len()
                    && table@[indices@[j] as int] == cells@[j]@ by {
                    assert(before.len() <= table@.len());
                    assert(table@[indices@[j] as int] == before[indices@[j] as int]);
                }
            }
            k = k + 1;
        }
        assert(views(cells@).take(k as int) =~= views(cells@));
        (table, indices)
    }
}

/// The literal strings of a row, in column order; a cell without one (empty,
/// a number, a formula) is `None`.
pub open spec fn row_strings(row: Seq<Option<String>>) -> Seq<Seq<char>>
    decreases row.len(),
{
    if row.len() == 0 {
        Seq::empty()
    } else {
        row_strings(row.drop_last()) + match row.last() {
            Some(t) => seq![t@],
            None => Seq::empty(),
        }
    }
}

/// The literal strings of a worksheet, row by row.
pub open spec fn sheet_strings(rows: Seq<Vec<Option<String>>>) -> Seq<Seq<char>>
    decreases rows.len(),
{
    if rows.len() == 0 {
        Seq::empty()
    } else {
        sheet_strings(rows.drop_last()) + row_strings(rows.last()@)
    }
}

/// The literal strings of a workbook, worksheet by worksheet.
pub open spec fn book_strings(sheets: Seq<Vec<Vec<Option<String>>>>) -> Seq<Seq<char>>
    decreases sheets.len(),
{
    if sheets.len() == 0 {
        Seq::empty()
    } else {
        book_strings(sheets.drop_last()) + sheet_strings(sheets.last()@)
    }
}

proof fn lemma_first_occurrences_push(a: Seq<Seq<char>>, x: Seq<char>)
    ensures
        first_occurrences(a.push(x)) == interned(first_occurrences(a), x),
{
    assert(a.push(x).drop_last() =~= a);
}

impl SharedStringTable {
    /// The table of the literal strings of the worksheets, scanned worksheet
    /// by worksheet, row by row, column by column.
    pub fn from_worksheets(sheets: &Vec<Vec<Vec<Option<String>>>>) -> (r: SharedStringTable)
        ensures
            r.wf(),
            r@ == first_occurrences(book_strings(sheets@)),
    {
        let mut table = SharedStringTable::new();
        let mut s: usize = 0;
        while s < sheets.len()
            invariant
                s <= sheets@.len(),
                table.wf(),
                table@ == first_occurrences(book_strings(sheets@.take(s as int))),
            decreases sheets@.len() - s,
        {
            let rows = &sheets[s];
            let ghost done = book_strings(sheets@.take(s as int));
            let mut r: usize = 0;
            while r < rows.len()
                invariant
                    r <= rows@.len(),
                    table.wf(),
                    table@ == first_occurrences(done + sheet_strings(rows@.take(r as int))),
                decreases rows@.len() - r,
            {
                let row = &rows[r];
                let ghost before = done + sheet_strings(rows@.take(r as int));
                let mut c: usize = 0;
                while c < row.len()
                    invariant
                        c <= row@.len(),
                        table.wf(),
                        table@ == first_occurrences(before + row_strings(row@.take(c as int))),
                    decreases row@.len() - c,
                {
                    let ghost prev = before + row_strings(row@.take(c as int));
                    assert(row@.take(c + 1).drop_last() =~= row@.take(c as int));
                    match &row[c] {
                        Some(text) => {
                            table.shared_string_index(text.as_str());
                            proof {
                                lemma_first_occurrences_push(prev, text@);
                                assert(before + row_strings(row@.take(c + 1)) =~= prev.push(
                                    text@,
                                ));
                            }
                        },
                        None => {
                            assert(before + row_strings(row@.take(c + 1)) =~= prev);
                        },
                    }
                    c = c + 1;
                }
                proof {
                    assert(row@.take(c as int) =~= row@);
                    assert(rows@.take(r + 1).drop_last() =~= rows@.take(r as int));
                    assert(rows@.take(r + 1).last() == rows@[r as int]);
                    assert(done + sheet_strings(rows@.take(r + 1)) =~= before + row_strings(row@));
                }
                r = r + 1;
            }
            proof {
                assert(rows@.take(r as int) =~= rows@);
                assert(sheets@.take(s + 1).drop_last() =~= sheets@.take(s as int));
                assert(sheets@.take(s + 1).last() == sheets@[s as int]);
                assert(book_strings(sheets@.take(s + 1)) =~= done + sheet_strings(rows@));
            }
            s = s + 1;
        }
        assert(sheets@.take(s as int) =~= sheets@);
        table
    }
}

} // verus!
