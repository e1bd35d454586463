use vstd::prelude::*;
use crate::model::{Record, RecordModel, TableModel, lookup, table_model, table_wf};
use crate::text::{append_repeated, dashes, spaces};
use crate::columns::{infer_headings, inferred_headings};

verus! {

/// Width of the column headed `h`: the longest of the heading and of its value
/// in every record, counted in characters.
pub open spec fn width(h: Seq<char>, t: TableModel) -> nat
    decreases t.len(),
{
    if t.len() == 0 {
        h.len()
    } else {
        let w = width(h, t.drop_last());
        let l = lookup(t.last(), h).len();
        if l > w {
            l
        } else {
            w
        }
    }
}

/// `t` centred in `w` columns: half the free space (rounded down) on the
/// left, the rest on the right.
pub open spec fn centered(t: Seq<char>, w: nat) -> Seq<char> {
    let d = w - t.len();
    spaces((d / 2) as nat) + t + spaces((d - d / 2) as nat)
}

/// Cells joined by `|`, with a `|` at each end.
pub open spec fn cells_line(cells: Seq<Seq<char>>) -> Seq<char>
    decreases cells.len(),
{
    if cells.len() == 0 {
        seq!['|']
    } else {
        cells_line(cells.drop_last()) + cells.last() + seq!['|']
    }
}

/// Lines joined by newlines, with none after the last.
pub open spec fn join_lines(lines: Seq<Seq<char>>) -> Seq<char>
    decreases lines.len(),
{
    if lines.len() == 0 {
        Seq::empty()
    } else if lines.len() == 1 {
        lines[0]
    } else {
        join_lines(lines.drop_last()) + seq!['\n'] + lines.last()
    }
}

/// The header cells: each heading centred in its column.
pub open spec fn header_cells(hs: Seq<Seq<char>>, t: TableModel) -> Seq<Seq<char>> {
    Seq::new(hs.len(), |i: int| centered(hs[i], width(hs[i], t)))
}

/// The separator cells: a run of dashes as wide as each column.
pub open spec fn rule_cells(hs: Seq<Seq<char>>, t: TableModel) -> Seq<Seq<char>> {
    Seq::new(hs.len(), |i: int| dashes(width(hs[i], t)))
}

/// The cells of one record: its value under each heading (empty when
/// absent), centred in the column.
pub open spec fn record_cells(hs: Seq<Seq<char>>, t: TableModel, r: RecordModel) -> Seq<Seq<char>> {
    Seq::new(hs.len(), |i: int| centered(lookup(r, hs[i]), width(hs[i], t)))
}

/// Header line, separator line, then one line per record.
pub open spec fn table_lines(hs: Seq<Seq<char>>, t: TableModel) -> Seq<Seq<char>> {
    seq![cells_line(header_cells(hs, t)), cells_line(rule_cells(hs, t))] + Seq::new(
        t.len(),
        |k: int| cells_line(record_cells(hs, t, t[k])),
    )
}

/// The Markdown text of table `t` under headings `hs`.
pub open spec fn markdown(hs: Seq<Seq<char>>, t: TableModel) -> Seq<char> {
    join_lines(table_lines(hs, t))
}

/// The model of a list of strings.
pub open spec fn texts(v: Seq<String>) -> Seq<Seq<char>> {
    v.map_values(|s: String| s@)
}

/// Cells of the given texts, each centred in the matching width.
pub open spec fn centered_cells(ts: Seq<Seq<char>>, ws: Seq<usize>) -> Seq<Seq<char>> {
    Seq::new(ts.len(), |i: int| centered(ts[i], ws[i] as nat))
}

/// The width of the column headed `h` in `table`.
fn column_width(h: &String, table: &Vec<Record>) -> (r: usize)
    ensures
        r == width(h@, table_model(table@)),
{
    let ghost t = table_model(table@);
    let mut w = h.as_str().unicode_len();
    let mut k: usize = 0;
    while k < table.len()
        invariant
            t == table_model(table@),
            0 <= k <= table.len(),
            w == width(h@, t.subrange(0, k as int)),
        decreases table.len() - k,
    {
        assert(t.subrange(0, k as int + 1).drop_last() =~= t.subrange(0, k as int));
        let v = table[k].value_of(h);
        let l = v.as_str().unicode_len();
        if l > w {
            w = l;
        }
        k = k + 1;
    }
    assert(t.subrange(0, table.len() as int) =~= t);
    w
}

/// Appends `text` centred in `w` columns.
fn append_centered(out: &mut String, text: &String, w: usize)
    requires
        text@.len() <= w,
    ensures
        final(out)@ == old(out)@ + centered(text@, w as nat),
{
    let l = text.as_str().unicode_len();
    let d = w - l;
    proof {
        reveal_strlit(" ");
    }
    append_repeated(out, " ", d / 2);
    out.append(text.as_str());
    append_repeated(out, " ", d - d / 2);
    assert(Seq::new((d / 2) as nat, |i: int| ' ') =~= spaces((d / 2) as nat));
    assert(Seq::new((d - d / 2) as nat, |i: int| ' ') =~= spaces((d - d / 2) as nat));
}

/// Appends one line of centred cells.
fn append_row(out: &mut String, ts: &[String], ws: &Vec<usize>)
    requires
        ts.len() == ws.len(),
        forall|i: int| 0 <= i < ts.len() ==> ts[i]@.len() <= ws[i],
    ensures
        final(out)@ == old(out)@ + cells_line(centered_cells(texts(ts@), ws@)),
{
    let ghost cells = centered_cells(texts(ts@), ws@);
    proof {
        reveal_strlit("|");
    }
    out.append("|");
    let mut i: usize = 0;
    assert(cells.subrange(0, 0) =~= Seq::<Seq<char>>::empty());
    while i < ts.len()
        invariant
            ts.len() == ws.len(),
            forall|j: int| 0 <= j < ts.len() ==> ts[j]@.len() <= ws[j],
            cells == centered_cells(texts(ts@), ws@),
            0 <= i <= ts.len(),
            out@ == old(out)@ + cells_line(cells.subrange(0, i as int)),
        decreases ts.len() - i,
    {
        proof {
            reveal_strlit("|");
        }
        assert(cells.subrange(0, i as int + 1).drop_last() =~= cells.subrange(0, i as int));
        append_centered(out, &ts[i], ws[i]);
        out.append("|");
        i = i + 1;
        assert(out@ =~= old(out)@ + cells_line(cells.subrange(0, i as int)));
    }
    assert(cells.subrange(0, ts.len() as int) =~= cells);
}

/// Appends the separator line: a run of dashes per column.
fn append_rule(out: &mut String, ws: &Vec<usize>)
    ensures
        final(out)@ == old(out)@ + cells_line(Seq::new(ws.len() as nat, |i: int| dashes(ws[i] as nat))),
{
    let ghost cells = Seq::new(ws.len() as nat, |i: int| dashes(ws[i] as nat));
    proof {
        reveal_strlit("|");
        reveal_strlit("-");
    }
    out.append("|");
    let mut i: usize = 0;
    assert(cells.subrange(0, 0) =~= Seq::<Seq<char>>::empty());
    while i < ws.len()
        invariant
            cells == Seq::new(ws.len() as nat, |i: int| dashes(ws[i] as nat)),
            0 <= i <= ws.len(),
            out@ == old(out)@ + cells_line(cells.subrange(0, i as int)),
        decreases ws.len() - i,
    {
        proof {
            reveal_strlit("|");
            reveal_strlit("-");
        }
        assert(cells.subrange(0, i as int + 1).drop_last() =~= cells.subrange(0, i as int));
        append_repeated(out, "-", ws[i]);
        assert(Seq::new(ws[i as int] as nat, |j: int| '-') =~= dashes(ws[i as int] as nat));
        out.append("|");
        i = i + 1;
        assert(out@ =~= old(out)@ + cells_line(cells.subrange(0, i as int)));
    }
    assert(cells.subrange(0, ws.len() as int) =~= cells);
}

/// A heading and every value under it fit in its column.
pub proof fn lemma_width_bounds(h: Seq<char>, t: TableModel)
    ensures
        h.len() <= width(h, t),
        forall|k: int| 0 <= k < t.len() ==> #[trigger] lookup(t[k], h).len() <= width(h, t),
    decreases t.len(),
{
    if t.len() > 0 {
        lemma_width_bounds(h, t.drop_last());
        assert forall|k: int| 0 <= k < t.len() implies #[trigger] lookup(t[k], h).len() <= width(h, t) by {
            if k < t.len() - 1 {
                assert(t.drop_last()[k] == t[k]);
            }
        }
    }
}

/// Renders `table` as a Markdown table with the columns `headings`, in that
/// order: a centred header line, a line of dashes, then one line per record.
pub fn mk_table(headings: &[String], table: &Vec<Record>) -> (r: String)
    requires
        table_wf(table_model(table@)),
    ensures
        r@ == markdown(texts(headings@), table_model(table@)),
{
    let ghost hs = texts(headings@);
    let ghost t = table_model(table@);
    let ghost lines = table_lines(hs, t);
    let mut ws: Vec<usize> = Vec::new();
    let mut i: usize = 0;
    while i < headings.len()
        invariant
            hs == texts(headings@),
            t == table_model(table@),
            0 <= i <= headings.len(),
            ws.len() == i,
            forall|j: int| 0 <= j < i ==> ws[j] == width(hs[j], t),
        decreases headings.len() - i,
    {
        let w = column_width(&headings[i], table);
        ws.push(w);
        i = i + 1;
    }
    assert forall|j: int| 0 <= j < headings.len() implies headings[j]@.len() <= ws[j] by {
        lemma_width_bounds(hs[j], t);
    }
    let mut out = String::new();
    append_row(&mut out, headings, &ws);
    assert(centered_cells(texts(headings@), ws@) =~= header_cells(hs, t));
    assert(lines.subrange(0, 1) =~= seq![lines[0]]);
    assert(out@ == lines[0]);
    assert(join_lines(lines.subrange(0, 1)) == lines[0]);
    proof {
        reveal_strlit("\n");
    }
    out.append("\n");
    append_rule(&mut out, &ws);
    assert(Seq::new(ws.len() as nat, |j: int| dashes(ws[j] as nat)) =~= rule_cells(hs, t));
    assert(lines.subrange(0, 2).drop_last() =~= lines.subrange(0, 1));
    assert(lines.subrange(0, 2).last() == lines[1]);
    assert(lines[1] == cells_line(rule_cells(hs, t)));
    assert(out@ =~= join_lines(lines.subrange(0, 2)));
    let mut k: usize = 0;
    while k < table.len()
        invariant
            hs == texts(headings@),
            t == table_model(table@),
            lines == table_lines(hs, t),
            ws.len() == headings.len(),
            forall|j: int| 0 <= j < headings.len() ==> ws[j] == width(hs[j], t),
            0 <= k <= table.len(),
            out@ == join_lines(lines.subrange(0, k + 2)),
        decreases table.len() - k,
    {
        let mut row: Vec<String> = Vec::new();
        let mut j: usize = 0;
        while j < headings.len()
            invariant
                hs == texts(headings@),
                t == table_model(table@),
                0 <= k < table.len(),
                0 <= j <= headings.len(),
                row.len() == j,
                forall|q: int| 0 <= q < j ==> row[q]@ == lookup(t[k as int], hs[q]),
            decreases headings.len() - j,
        {
            let v = table[k].value_of(&headings[j]);
            row.push(v);
            j = j + 1;
        }
        assert forall|q: int| 0 <= q < row.len() implies row[q]@.len() <= ws[q] by {
            lemma_width_bounds(hs[q], t);
            assert(lookup(t[k as int], hs[q]).len() <= width(hs[q], t));
        }
        proof {
            reveal_strlit("\n");
        }
        out.append("\n");
        append_row(&mut out, row.as_slice(), &ws);
        assert(centered_cells(texts(row@), ws@) =~= record_cells(hs, t, t[k as int]));
        assert(lines.subrange(0, k + 3).drop_last() =~= lines.subrange(0, k + 2));
        k = k + 1;
        assert(out@ =~= join_lines(lines.subrange(0, k + 2)));
    }
    assert(lines.subrange(0, table.len() + 2) =~= lines);
    out
}

/// Renders `table` as a Markdown table over all of its keys, in order of
/// first occurrence.
pub fn mk_table_all_cols(table: &Vec<Record>) -> (r: String)
    requires
        table_wf(table_model(table@)),
    ensures
        r@ == markdown(inferred_headings(table_model(table@)), table_model(table@)),
{
    let hs = infer_headings(table);
    mk_table(hs.as_slice(), table)
}

/// A cell of text length `L` in a column of width `W` gets `(W - L) / 2`
/// spaces on the left, the text, and the remaining `W - L - (W - L) / 2`
/// spaces on the right: `W` characters in all.
pub proof fn lemma_centering(t: Seq<char>, w: nat)
    requires
        t.len() <= w,
    ensures
        centered(t, w).len() == w,
        centered(t, w).subrange(0, (w - t.len()) / 2) == spaces(((w - t.len()) / 2) as nat),
        centered(t, w).subrange((w - t.len()) / 2, (w - t.len()) / 2 + t.len()) == t,
        centered(t, w).subrange((w - t.len()) / 2 + t.len(), w as int) == spaces(
            (w - t.len() - (w - t.len()) / 2) as nat,
        ),
{
    let d = w - t.len();
    let c = centered(t, w);
    let left = (d / 2) as nat;
    assert(c.subrange(0, left as int) =~= spaces(left));
    assert(c.subrange(left as int, left + t.len() as int) =~= t);
    assert(c.subrange(left + t.len() as int, w as int) =~= spaces((d - d / 2) as nat));
}

/// Every line of the rendered table gives each column exactly its width: the
/// header, the separator and every record line.
pub proof fn lemma_column_widths(hs: Seq<Seq<char>>, t: TableModel)
    ensures
        forall|i: int| 0 <= i < hs.len() ==> #[trigger] header_cells(hs, t)[i].len() == width(hs[i], t),
        forall|i: int| 0 <= i < hs.len() ==> #[trigger] rule_cells(hs, t)[i].len() == width(hs[i], t),
        forall|k: int, i: int|
            0 <= k < t.len() && 0 <= i < hs.len() ==> #[trigger] record_cells(hs, t, t[k])[i].len()
                == width(hs[i], t),
{
    assert forall|i: int| 0 <= i < hs.len() implies #[trigger] header_cells(hs, t)[i].len() == width(hs[i], t) by {
        lemma_width_bounds(hs[i], t);
        lemma_centering(hs[i], width(hs[i], t));
    }
    assert forall|k: int, i: int| 0 <= k < t.len() && 0 <= i < hs.len() implies #[trigger] record_cells(hs, t, t[k])[i].len()
        == width(hs[i], t) by {
        lemma_width_bounds(hs[i], t);
        lemma_centering(lookup(t[k], hs[i]), width(hs[i], t));
    }
}

/// A key that the record lacks reads as the empty text.
pub proof fn lemma_lookup_absent(r: RecordModel, key: Seq<char>)
    requires
        forall|j: int| 0 <= j < r.len() ==> r[j].0 != key,
    ensures
        lookup(r, key) == Seq::<char>::empty(),
    decreases r.len(),
{
    if r.len() > 0 {
        assert(r[0].0 != key);
        assert forall|j: int| 0 <= j < r.drop_first().len() implies r.drop_first()[j].0 != key by {
            assert(r.drop_first()[j] == r[j + 1]);
        }
        lemma_lookup_absent(r.drop_first(), key);
    }
}

/// Under a heading that the record lacks, its cell is all spaces, as wide as
/// the column.
pub proof fn lemma_missing_value(hs: Seq<Seq<char>>, t: TableModel, r: RecordModel, i: int)
    requires
        0 <= i < hs.len(),
        forall|j: int| 0 <= j < r.len() ==> r[j].0 != hs[i],
    ensures
        record_cells(hs, t, r)[i] == spaces(width(hs[i], t)),
{
    lemma_lookup_absent(r, hs[i]);
    let w = width(hs[i], t);
    assert(centered(Seq::empty(), w) =~= spaces(w));
}

} // verus!
