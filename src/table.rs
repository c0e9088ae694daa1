//! Tab-separated tables with a header row, as the map query service returns
//! them.

use vstd::prelude::*;
use crate::text::{lemma_split_nonempty, split_on, split_str, str_eq, views};

verus! {

/// A table: the header cells, and the cells of each non-empty line after it.
#[derive(Debug)]
pub struct Table {
    pub header: Vec<String>,
    pub rows: Vec<Vec<String>>,
}

pub open spec fn rows_view(rows: Seq<Vec<String>>) -> Seq<Seq<Seq<char>>> {
    rows.map_values(|r: Vec<String>| views(r@))
}

/// The non-empty lines of `lines`, each cut at tabs.
pub open spec fn data_rows(lines: Seq<Seq<char>>) -> Seq<Seq<Seq<char>>>
    decreases lines.len(),
{
    if lines.len() == 0 {
        Seq::empty()
    } else if lines.last().len() == 0 {
        data_rows(lines.drop_last())
    } else {
        data_rows(lines.drop_last()).push(split_on(lines.last(), '\t'))
    }
}

pub open spec fn header_of(text: Seq<char>) -> Seq<Seq<char>> {
    split_on(split_on(text, '\n')[0], '\t')
}

pub open spec fn rows_of(text: Seq<char>) -> Seq<Seq<Seq<char>>> {
    data_rows(split_on(text, '\n').drop_first())
}

/// The index of the first header cell that reads `name`.
pub open spec fn column(header: Seq<Seq<char>>, name: Seq<char>) -> Option<int>
    decreases header.len(),
{
    if header.len() == 0 {
        None
    } else if header[0] == name {
        Some(0)
    } else {
        match column(header.drop_first(), name) {
            Some(i) => Some(i + 1),
            None => None,
        }
    }
}

/// The cell of `row` in the column named `name`; empty where there is none.
pub open spec fn cell(header: Seq<Seq<char>>, row: Seq<Seq<char>>, name: Seq<char>) -> Seq<char> {
    match column(header, name) {
        Some(i) => if i < row.len() {
            row[i]
        } else {
            Seq::empty()
        },
        None => Seq::empty(),
    }
}

proof fn lemma_column_bound(header: Seq<Seq<char>>, name: Seq<char>)
    ensures
        column(header, name) matches Some(i) ==> 0 <= i < header.len() && header[i] == name,
    decreases header.len(),
{
    if header.len() > 0 && header[0] != name {
        lemma_column_bound(header.drop_first(), name);
    }
}

impl Table {
    pub open spec fn header_view(&self) -> Seq<Seq<char>> {
        views(self.header@)
    }

    pub open spec fn rows_view(&self) -> Seq<Seq<Seq<char>>> {
        rows_view(self.rows@)
    }

    /// Reads a table. Fails where the header has fewer than two columns.
    pub fn parse(text: &str) -> (r: Result<Table, crate::relation::RelationError>)
        ensures
            match r {
                Ok(t) => {
                    &&& header_of(text@).len() >= 2
                    &&& t.header_view() == header_of(text@)
                    &&& t.rows_view() == rows_of(text@)
                },
                Err(e) => header_of(text@).len() < 2 && e == crate::relation::RelationError::Format,
            },
    {
        let lines = split_str(text, '\n');
        proof {
            lemma_split_nonempty(text@, '\n');
        }
        let header = split_str(lines[0].as_str(), '\t');
        assert(views(header@) =~= header_of(text@));
        if header.len() < 2 {
            return Err(crate::relation::RelationError::Format);
        }
        let ghost ls = split_on(text@, '\n').drop_first();
        let mut rows: Vec<Vec<String>> = Vec::new();
        let mut i: usize = 1;
        assert(ls.take(0) =~= Seq::<Seq<char>>::empty());
        while i < lines.len()
            invariant
                1 <= i <= lines@.len(),
                lines@.len() == split_on(text@, '\n').len(),
                forall|k: int| 0 <= k < lines@.len() ==> (#[trigger] lines@[k])@ == split_on(text@, '\n')[k],
                ls == split_on(text@, '\n').drop_first(),
                rows_view(rows@) == data_rows(ls.take(i - 1)),
            decreases lines@.len() - i,
        {
            assert(ls.take(i as int).drop_last() =~= ls.take(i - 1));
            assert(ls.take(i as int).last() == lines@[i as int]@);
            let ghost before = rows@;
            proof {
                reveal_strlit("");
            }
            assert(""@.len() == 0);
            if !str_eq(lines[i].as_str(), "") {
                proof {
                    if lines@[i as int]@.len() == 0 {
                        assert(lines@[i as int]@ =~= ""@);
                    }
                }
                let cells = split_str(lines[i].as_str(), '\t');
                assert(views(cells@) =~= split_on(lines@[i as int]@, '\t'));
                rows.push(cells);
                assert(rows_view(rows@) =~= rows_view(before).push(views(cells@)));
            } else {
                assert(lines@[i as int]@ =~= Seq::<char>::empty());
            }
            i = i + 1;
        }
        assert(ls.take(lines@.len() - 1) =~= ls);
        Ok(Table { header, rows })
    }

    /// The index of the column named `name`.
    pub fn column(&self, name: &str) -> (r: Option<usize>)
        ensures
            match r {
                Some(i) => column(self.header_view(), name@) == Some(i as int),
                None => column(self.header_view(), name@) is None,
            },
    {
        let ghost h = self.header_view();
        let mut i: usize = 0;
        assert(h.skip(0) =~= h);
        while i < self.header.len()
            invariant
                i <= self.header@.len(),
                h == self.header_view(),
                column(h, name@) == match column(h.skip(i as int), name@) {
                    Some(k) => Some(k + i),
                    None => None,
                },
            decreases self.header@.len() - i,
        {
            assert(h.skip(i as int).drop_first() =~= h.skip(i + 1));
            assert(h.skip(i as int)[0] == self.header@[i as int]@);
            if str_eq(self.header[i].as_str(), name) {
                return Some(i);
            }
            i = i + 1;
        }
        None
    }

    /// The cell of row `row` in column `col` (from [`Table::column`]).
    pub(crate) fn cell(&self, row: usize, col: Option<usize>, name: Ghost<Seq<char>>) -> (r: String)
        requires
            row < self.rows@.len(),
            match col {
                Some(i) => column(self.header_view(), name@) == Some(i as int),
                None => column(self.header_view(), name@) is None,
            },
        ensures
            r@ == cell(self.header_view(), self.rows_view()[row as int], name@),
    {
        let cells = &self.rows[row];
        assert(self.rows_view()[row as int] == views(cells@));
        match col {
            Some(i) => {
                if i < cells.len() {
                    cells[i].clone()
                } else {
                    String::new()
                }
            },
            None => String::new(),
        }
    }
}

} // verus!
