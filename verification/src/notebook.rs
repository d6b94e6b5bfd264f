use vstd::prelude::*;
use crate::text::chars_of;

verus! {

/// One calculation cell: its source and whether it must be compiled again.
#[derive(Debug)]
pub struct Cell {
    pub source: String,
    pub dirty: bool,
}

impl Cell {
    /// A new cell, to be compiled.
    pub fn new(source: &str) -> (c: Cell)
        ensures
            c.source@ == source@,
            c.dirty,
    {
        Cell { source: String::from_str(source), dirty: true }
    }
}

/// The cells of a notebook, in order. Each cell is compiled in the
/// environment that the cells before it leave, so a change to one cell
/// makes it and every cell after it dirty. A notebook never has no cell.
pub struct Notebook {
    cells: Vec<Cell>,
}

pub open spec fn cells_view(v: Seq<Cell>) -> Seq<(Seq<char>, bool)> {
    v.map_values(|c: Cell| (c.source@, c.dirty))
}

/// Marks every cell at or after `from` dirty.
pub open spec fn dirty_from(s: Seq<(Seq<char>, bool)>, from: int) -> Seq<(Seq<char>, bool)> {
    Seq::new(s.len(), |j: int| if j >= from { (s[j].0, true) } else { s[j] })
}

/// Marks every cell at or after `from` compiled.
pub open spec fn clean_from(s: Seq<(Seq<char>, bool)>, from: int) -> Seq<(Seq<char>, bool)> {
    Seq::new(s.len(), |j: int| if j >= from { (s[j].0, false) } else { s[j] })
}

/// Cells `a` and `b` exchanged.
pub open spec fn swapped(s: Seq<(Seq<char>, bool)>, a: int, b: int) -> Seq<(Seq<char>, bool)> {
    s.update(a, s[b]).update(b, s[a])
}

/// The sources of the cells.
pub open spec fn sources(s: Seq<(Seq<char>, bool)>) -> Seq<Seq<char>> {
    s.map_values(|c: (Seq<char>, bool)| c.0)
}

impl Notebook {
    /// Source and dirty flag of each cell.
    pub closed spec fn cells(&self) -> Seq<(Seq<char>, bool)> {
        cells_view(self.cells@)
    }

    /// A notebook of the given sources, every cell dirty.
    pub fn new(srcs: &Vec<&str>) -> (nb: Notebook)
        requires
            srcs@.len() > 0,
        ensures
            nb.cells().len() == srcs@.len(),
            forall|i: int| 0 <= i < srcs@.len() ==> #[trigger] nb.cells()[i] == (srcs@[i]@, true),
    {
        let mut cells: Vec<Cell> = Vec::new();
        let mut i: usize = 0;
        while i < srcs.len()
            invariant
                i <= srcs.len(),
                cells@.len() == i,
                forall|j: int| 0 <= j < i ==> (#[trigger] cells@[j]).source@ == srcs@[j]@ && cells@[j].dirty,
            decreases srcs.len() - i,
        {
            cells.push(Cell::new(srcs[i]));
            i += 1;
        }
        Notebook { cells }
    }

    /// Number of cells.
    pub fn len(&self) -> (n: usize)
        ensures
            n == self.cells().len(),
    {
        self.cells.len()
    }

    /// The source of cell `i`.
    pub fn source(&self, i: usize) -> (s: &str)
        requires
            i < self.cells().len(),
        ensures
            s@ == self.cells()[i as int].0,
    {
        self.cells[i].source.as_str()
    }

    /// The first dirty cell, if any: compilation starts there.
    pub fn first_dirty(&self) -> (r: Option<usize>)
        ensures
            match r {
                Some(i) => i < self.cells().len() && self.cells()[i as int].1
                    && forall|j: int| 0 <= j < i ==> !(#[trigger] self.cells()[j]).1,
                None => forall|j: int| 0 <= j < self.cells().len() ==> !(#[trigger] self.cells()[j]).1,
            },
    {
        let mut i: usize = 0;
        while i < self.cells.len()
            invariant
                i <= self.cells.len(),
                forall|j: int| 0 <= j < i ==> !(#[trigger] self.cells()[j]).1,
            decreases self.cells.len() - i,
        {
            if self.cells[i].dirty {
                return Some(i);
            }
            i += 1;
        }
        None
    }

    /// Appends a new cell, to be compiled.
    pub fn add_cell(&mut self)
        ensures
            final(self).cells() == old(self).cells().push(("# New cell\n"@, true)),
    {
        let ghost before = self.cells();
        self.cells.push(Cell::new("# New cell\n"));
        assert(self.cells() =~= before.push(("# New cell\n"@, true)));
    }

    /// Replaces the source of cell `i`; the cell becomes dirty.
    pub fn edit(&mut self, i: usize, source: &str)
        requires
            i < old(self).cells().len(),
        ensures
            final(self).cells() == old(self).cells().update(i as int, (source@, true)),
    {
        let ghost before = self.cells();
        self.cells.set(i, Cell::new(source));
        assert(self.cells() =~= before.update(i as int, (source@, true)));
    }

    /// Deletes cell `i`, unless it is the only one or there is none such;
    /// the cells from `i` on become dirty. Tells whether it deleted.
    pub fn delete_cell(&mut self, i: usize) -> (deleted: bool)
        ensures
            deleted == (old(self).cells().len() > 1 && i < old(self).cells().len()),
            deleted ==> final(self).cells() == dirty_from(old(self).cells().remove(i as int), i as int),
            !deleted ==> final(self).cells() == old(self).cells(),
    {
        if self.cells.len() > 1 && i < self.cells.len() {
            let ghost before = self.cells();
            self.cells.remove(i);
            assert(self.cells() =~= before.remove(i as int));
            self.mark_dirty_from(i);
            true
        } else {
            false
        }
    }

    /// Swaps cells `a` and `b` (`a < b`); the cells from `a` on become dirty.
    pub fn swap_cells(&mut self, a: usize, b: usize)
        requires
            a < b < old(self).cells().len(),
        ensures
            final(self).cells() == dirty_from(swapped(old(self).cells(), a as int, b as int), a as int),
    {
        let ghost before = self.cells();
        let cb = self.cells.remove(b);
        let ca = self.cells.remove(a);
        self.cells.insert(a, cb);
        self.cells.insert(b, ca);
        assert(self.cells() =~= before.update(a as int, before[b as int]).update(b as int, before[a as int]));
        self.mark_dirty_from(a);
    }

    /// Marks the cells from `from` on dirty.
    pub fn mark_dirty_from(&mut self, from: usize)
        ensures
            final(self).cells() == dirty_from(old(self).cells(), from as int),
    {
        let ghost before = self.cells();
        let mut j: usize = from;
        let n = self.cells.len();
        if j >= n {
            assert(self.cells() =~= dirty_from(before, from as int));
            return;
        }
        while j < n
            invariant
                from <= j <= n,
                n == self.cells@.len(),
                before.len() == n,
                forall|k: int| 0 <= k < n ==> #[trigger] self.cells()[k] == if from <= k < j {
                    (before[k].0, true)
                } else {
                    before[k]
                },
            decreases n - j,
        {
            let ghost prev = self.cells();
            let ghost prev_v = self.cells@;
            let src = self.cells[j].source.clone();
            self.cells.set(j, Cell { source: src, dirty: true });
            assert forall|k: int| 0 <= k < n implies #[trigger] self.cells()[k] == if from <= k < j + 1 {
                (before[k].0, true)
            } else {
                before[k]
            } by {
                assert(self.cells()[k] == (self.cells@[k].source@, self.cells@[k].dirty));
                assert(prev[k] == (prev_v[k].source@, prev_v[k].dirty));
                if k != j {
                    assert(self.cells@[k] == prev_v[k]);
                }
            }
            j += 1;
        }
        assert(self.cells() =~= dirty_from(before, from as int));
    }

    /// Marks the cells from `from` on compiled.
    pub fn mark_clean_from(&mut self, from: usize)
        ensures
            final(self).cells() == clean_from(old(self).cells(), from as int),
    {
        let ghost before = self.cells();
        let n = self.cells.len();
        let mut j: usize = from;
        if j >= n {
            assert(self.cells() =~= clean_from(before, from as int));
            return;
        }
        while j < n
            invariant
                from <= j <= n,
                n == self.cells@.len(),
                before.len() == n,
                forall|k: int| 0 <= k < n ==> #[trigger] self.cells()[k] == if from <= k < j {
                    (before[k].0, false)
                } else {
                    before[k]
                },
            decreases n - j,
        {
            let ghost prev = self.cells();
            let ghost prev_v = self.cells@;
            let src = self.cells[j].source.clone();
            self.cells.set(j, Cell { source: src, dirty: false });
            assert forall|k: int| 0 <= k < n implies #[trigger] self.cells()[k] == if from <= k < j + 1 {
                (before[k].0, false)
            } else {
                before[k]
            } by {
                assert(self.cells()[k] == (self.cells@[k].source@, self.cells@[k].dirty));
                assert(prev[k] == (prev_v[k].source@, prev_v[k].dirty));
                if k != j {
                    assert(self.cells@[k] == prev_v[k]);
                }
            }
            j += 1;
        }
        assert(self.cells() =~= clean_from(before, from as int));
    }
}


/// A notebook keeps at least one cell: deleting never removes the last one.
pub proof fn law_delete_keeps_a_cell(s: Seq<(Seq<char>, bool)>, i: int)
    requires
        s.len() >= 1,
    ensures
        (s.len() > 1 && 0 <= i < s.len()) ==> dirty_from(s.remove(i), i).len() >= 1,
{
}

/// Compiling from the first dirty cell to the end leaves no cell dirty.
pub proof fn law_compile_from_first_dirty(s: Seq<(Seq<char>, bool)>, i: int)
    requires
        0 <= i,
        forall|j: int| 0 <= j < i && j < s.len() ==> !(#[trigger] s[j]).1,
    ensures
        forall|j: int| 0 <= j < s.len() ==> !(#[trigger] clean_from(s, i)[j]).1,
{
}

/// Moving a cell down and then up again gives back the same sources, with
/// the cells from the first of the two on dirty.
pub proof fn law_swap_back(s: Seq<(Seq<char>, bool)>, a: int, b: int)
    requires
        0 <= a < b < s.len(),
    ensures
        sources(dirty_from(swapped(dirty_from(swapped(s, a, b), a), a, b), a)) == sources(s),
        dirty_from(swapped(dirty_from(swapped(s, a, b), a), a, b), a) == dirty_from(s, a),
{
    let t = dirty_from(swapped(dirty_from(swapped(s, a, b), a), a, b), a);
    assert(t =~= dirty_from(s, a));
    assert(sources(t) =~= sources(s));
}

}

verus! {

/// The Markdown shown for a comment: a comment that starts with `#` is
/// already a heading; any other becomes a level-1 heading.
pub open spec fn comment_markdown_spec(text: Seq<char>) -> Seq<char> {
    if text.len() > 0 && text[0] == '#' {
        text
    } else {
        "# "@ + text
    }
}

/// The Markdown shown for a comment (see [`comment_markdown_spec`]).
pub fn comment_markdown(text: &str) -> (r: String)
    ensures
        r@ == comment_markdown_spec(text@),
{
    let v = chars_of(text);
    if v.len() > 0 && v[0] == '#' {
        String::from_str(text)
    } else {
        let mut r = String::from_str("# ");
        r.append(text);
        r
    }
}

}
