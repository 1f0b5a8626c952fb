//! Compared positions and the runs they are gathered into.
//!
//! Every compared position yields a [`Cell`]; neighbouring cells of one kind
//! are gathered into a [`Segment`], whose model is a [`Run`].

use crate::text::one_char;
use vstd::prelude::*;

verus! {

/// The four ways a compared position can come out.
#[derive(Debug, Clone, Copy, PartialEq, Eq, Structural)]
pub enum Kind {
    Correct,
    Incorrect,
    Excess,
    NoInput,
}

/// One compared position.
#[derive(Debug, Clone, Copy, PartialEq, Eq, Structural)]
pub enum Cell {
    /// Target and input hold the same character.
    Correct(char),
    /// Target and input hold different characters.
    Incorrect { target: char, input: char },
    /// The input holds a character where the target has ended.
    Excess(char),
    /// The target holds a character that has not been typed.
    NoInput(char),
}

/// The mathematical model of a [`Segment`]: a run of cells of one kind.
pub enum Run {
    Correct(Seq<char>),
    Incorrect { target: Seq<char>, input: Seq<char> },
    Excess(Seq<char>),
    NoInput(Seq<char>),
}

/// A classified run of characters, ready for display.
#[derive(Debug, PartialEq, Eq)]
pub enum Segment {
    /// Characters typed as the target has them.
    Correct(Vec<char>),
    /// Characters typed wrongly: what the target has and what was typed,
    /// position by position.
    Incorrect { target: Vec<char>, input: Vec<char> },
    /// Typed characters beyond the end of the target token.
    Excess(Vec<char>),
    /// Target characters that have not been typed.
    NoInput(Vec<char>),
}

impl View for Segment {
    type V = Run;

    open spec fn view(&self) -> Run {
        match *self {
            Segment::Correct(text) => Run::Correct(text@),
            Segment::Incorrect { target, input } => Run::Incorrect {
                target: target@,
                input: input@,
            },
            Segment::Excess(text) => Run::Excess(text@),
            Segment::NoInput(text) => Run::NoInput(text@),
        }
    }
}

/// The models of a sequence of segments.
pub open spec fn runs_of(segments: Seq<Segment>) -> Seq<Run> {
    Seq::new(segments.len(), |k: int| segments[k]@)
}

impl Cell {
    /// How this position came out.
    pub open spec fn kind(self) -> Kind {
        match self {
            Cell::Correct(_) => Kind::Correct,
            Cell::Incorrect { .. } => Kind::Incorrect,
            Cell::Excess(_) => Kind::Excess,
            Cell::NoInput(_) => Kind::NoInput,
        }
    }

    /// The run that holds this cell alone.
    pub open spec fn alone(self) -> Run {
        match self {
            Cell::Correct(c) => Run::Correct(seq![c]),
            Cell::Incorrect { target, input } => Run::Incorrect {
                target: seq![target],
                input: seq![input],
            },
            Cell::Excess(c) => Run::Excess(seq![c]),
            Cell::NoInput(c) => Run::NoInput(seq![c]),
        }
    }

    /// What the target holds at this position, if anything.
    pub open spec fn target_part(self) -> Seq<char> {
        match self {
            Cell::Correct(c) => seq![c],
            Cell::Incorrect { target, input } => seq![target],
            Cell::Excess(c) => Seq::empty(),
            Cell::NoInput(c) => seq![c],
        }
    }

    /// What was typed at this position, if anything.
    pub open spec fn input_part(self) -> Seq<char> {
        match self {
            Cell::Correct(c) => seq![c],
            Cell::Incorrect { target, input } => seq![input],
            Cell::Excess(c) => seq![c],
            Cell::NoInput(c) => Seq::empty(),
        }
    }
}

impl Run {
    /// The kind of the cells gathered in this run.
    pub open spec fn kind(self) -> Kind {
        match self {
            Run::Correct(_) => Kind::Correct,
            Run::Incorrect { .. } => Kind::Incorrect,
            Run::Excess(_) => Kind::Excess,
            Run::NoInput(_) => Kind::NoInput,
        }
    }

    /// Whether `cell` is of this run's kind.
    pub open spec fn takes(self, cell: Cell) -> bool {
        self.kind() == cell.kind()
    }

    /// This run with `cell` added at its end, for a cell of its kind.
    pub open spec fn with(self, cell: Cell) -> Run {
        match (self, cell) {
            (Run::Correct(text), Cell::Correct(c)) => Run::Correct(text.push(c)),
            (Run::Incorrect { target, input }, Cell::Incorrect { target: t, input: i }) => {
                Run::Incorrect { target: target.push(t), input: input.push(i) }
            },
            (Run::Excess(text), Cell::Excess(c)) => Run::Excess(text.push(c)),
            (Run::NoInput(text), Cell::NoInput(c)) => Run::NoInput(text.push(c)),
            _ => self,
        }
    }

    /// The number of cells gathered in this run.
    pub open spec fn len(self) -> nat {
        match self {
            Run::Correct(text) => text.len(),
            Run::Incorrect { target, input } => target.len(),
            Run::Excess(text) => text.len(),
            Run::NoInput(text) => text.len(),
        }
    }

    /// Whether the two buffers of a run of wrong characters are of one
    /// length. Runs of the other kinds have nothing to go wrong.
    pub open spec fn wf(self) -> bool {
        match self {
            Run::Incorrect { target, input } => target.len() == input.len(),
            _ => true,
        }
    }

    /// The cell at position `k` of this run.
    pub open spec fn cell(self, k: int) -> Cell {
        match self {
            Run::Correct(text) => Cell::Correct(text[k]),
            Run::Incorrect { target, input } => Cell::Incorrect {
                target: target[k],
                input: input[k],
            },
            Run::Excess(text) => Cell::Excess(text[k]),
            Run::NoInput(text) => Cell::NoInput(text[k]),
        }
    }

    /// The cells gathered in this run.
    pub open spec fn cells(self) -> Seq<Cell> {
        Seq::new(self.len(), |k: int| self.cell(k))
    }

    /// The target's characters in this run.
    pub open spec fn target_part(self) -> Seq<char> {
        match self {
            Run::Correct(text) => text,
            Run::Incorrect { target, input } => target,
            Run::Excess(text) => Seq::empty(),
            Run::NoInput(text) => text,
        }
    }

    /// The typed characters in this run.
    pub open spec fn input_part(self) -> Seq<char> {
        match self {
            Run::Correct(text) => text,
            Run::Incorrect { target, input } => input,
            Run::Excess(text) => text,
            Run::NoInput(text) => Seq::empty(),
        }
    }
}

/// `runs` after one more cell: the cell joins the last run if that is of its
/// kind, and opens a run of its own otherwise.
pub open spec fn absorb(runs: Seq<Run>, cell: Cell) -> Seq<Run> {
    if runs.len() > 0 && runs.last().takes(cell) {
        runs.drop_last().push(runs.last().with(cell))
    } else {
        runs.push(cell.alone())
    }
}

/// `runs` after a sequence of cells, absorbed one by one.
pub open spec fn gather(runs: Seq<Run>, cells: Seq<Cell>) -> Seq<Run>
    decreases cells.len(),
{
    if cells.len() == 0 {
        runs
    } else {
        absorb(gather(runs, cells.drop_last()), cells.last())
    }
}

/// The runs of a sequence of cells: neighbouring cells of one kind gathered.
pub open spec fn coalesce(cells: Seq<Cell>) -> Seq<Run> {
    gather(Seq::empty(), cells)
}

/// Adds one cell to the segments gathered so far.
pub fn push_cell(segments: &mut Vec<Segment>, cell: Cell)
    ensures
        runs_of(final(segments)@) == absorb(runs_of(old(segments)@), cell),
{
    let ghost before = runs_of(segments@);
    match segments.pop() {
        None => {
            segments.push(single(cell));
            assert(runs_of(segments@) =~= absorb(before, cell));
        },
        Some(last) => {
            let ghost rest = runs_of(segments@);
            assert(rest =~= before.drop_last());
            assert(last@ == before.last());
            match (last, cell) {
                (Segment::Correct(text), Cell::Correct(c)) => {
                    let mut text = text;
                    text.push(c);
                    segments.push(Segment::Correct(text));
                },
                (Segment::Incorrect { target, input }, Cell::Incorrect { target: t, input: i }) => {
                    let mut target = target;
                    let mut input = input;
                    target.push(t);
                    input.push(i);
                    segments.push(Segment::Incorrect { target, input });
                },
                (Segment::Excess(text), Cell::Excess(c)) => {
                    let mut text = text;
                    text.push(c);
                    segments.push(Segment::Excess(text));
                },
                (Segment::NoInput(text), Cell::NoInput(c)) => {
                    let mut text = text;
                    text.push(c);
                    segments.push(Segment::NoInput(text));
                },
                (last, cell) => {
                    segments.push(last);
                    segments.push(single(cell));
                },
            }
            assert(runs_of(segments@) =~= absorb(before, cell));
        },
    }
}

/// The segment that holds `cell` alone.
fn single(cell: Cell) -> (segment: Segment)
    ensures
        segment@ == cell.alone(),
{
    match cell {
        Cell::Correct(c) => Segment::Correct(one_char(c)),
        Cell::Incorrect { target, input } => Segment::Incorrect {
            target: one_char(target),
            input: one_char(input),
        },
        Cell::Excess(c) => Segment::Excess(one_char(c)),
        Cell::NoInput(c) => Segment::NoInput(one_char(c)),
    }
}

/// Gathering cells in two batches is gathering them all at once.
pub proof fn lemma_gather_concat(runs: Seq<Run>, a: Seq<Cell>, b: Seq<Cell>)
    ensures
        gather(runs, a + b) == gather(gather(runs, a), b),
    decreases b.len(),
{
    if b.len() == 0 {
        assert(a + b =~= a);
    } else {
        lemma_gather_concat(runs, a, b.drop_last());
        assert((a + b).drop_last() =~= a + b.drop_last());
        assert((a + b).last() == b.last());
    }
}

/// The target's characters in a sequence of runs, in order.
pub open spec fn target_side(runs: Seq<Run>) -> Seq<char>
    decreases runs.len(),
{
    if runs.len() == 0 {
        Seq::empty()
    } else {
        target_side(runs.drop_last()) + runs.last().target_part()
    }
}

/// The typed characters in a sequence of runs, in order.
pub open spec fn input_side(runs: Seq<Run>) -> Seq<char>
    decreases runs.len(),
{
    if runs.len() == 0 {
        Seq::empty()
    } else {
        input_side(runs.drop_last()) + runs.last().input_part()
    }
}

/// The target's characters in a sequence of cells, in order.
pub open spec fn target_chars(cells: Seq<Cell>) -> Seq<char>
    decreases cells.len(),
{
    if cells.len() == 0 {
        Seq::empty()
    } else {
        target_chars(cells.drop_last()) + cells.last().target_part()
    }
}

/// The typed characters in a sequence of cells, in order.
pub open spec fn input_chars(cells: Seq<Cell>) -> Seq<char>
    decreases cells.len(),
{
    if cells.len() == 0 {
        Seq::empty()
    } else {
        input_chars(cells.drop_last()) + cells.last().input_part()
    }
}

/// Absorbing a cell adds its characters at the end of both sides.
pub proof fn lemma_absorb_sides(runs: Seq<Run>, cell: Cell)
    ensures
        target_side(absorb(runs, cell)) == target_side(runs) + cell.target_part(),
        input_side(absorb(runs, cell)) == input_side(runs) + cell.input_part(),
{
    let after = absorb(runs, cell);
    if runs.len() > 0 && runs.last().takes(cell) {
        assert(after.drop_last() =~= runs.drop_last());
        assert(after.last() == runs.last().with(cell));
        assert(runs.last().with(cell).target_part() =~= runs.last().target_part()
            + cell.target_part());
        assert(runs.last().with(cell).input_part() =~= runs.last().input_part()
            + cell.input_part());
        assert(target_side(after) =~= target_side(runs) + cell.target_part());
        assert(input_side(after) =~= input_side(runs) + cell.input_part());
    } else {
        assert(after.drop_last() =~= runs);
        assert(after.last() == cell.alone());
        assert(cell.alone().target_part() =~= cell.target_part());
        assert(cell.alone().input_part() =~= cell.input_part());
    }
}

/// Gathering cells into runs keeps every character of both sides, in order.
pub proof fn lemma_gather_sides(runs: Seq<Run>, cells: Seq<Cell>)
    ensures
        target_side(gather(runs, cells)) == target_side(runs) + target_chars(cells),
        input_side(gather(runs, cells)) == input_side(runs) + input_chars(cells),
    decreases cells.len(),
{
    if cells.len() == 0 {
        assert(target_side(runs) + target_chars(cells) =~= target_side(runs));
        assert(input_side(runs) + input_chars(cells) =~= input_side(runs));
    } else {
        lemma_gather_sides(runs, cells.drop_last());
        lemma_absorb_sides(gather(runs, cells.drop_last()), cells.last());
        assert(target_side(gather(runs, cells)) =~= target_side(runs) + target_chars(cells));
        assert(input_side(gather(runs, cells)) =~= input_side(runs) + input_chars(cells));
    }
}

/// The characters of two batches of cells are those of the first batch, then
/// those of the second.
pub proof fn lemma_chars_concat(a: Seq<Cell>, b: Seq<Cell>)
    ensures
        target_chars(a + b) == target_chars(a) + target_chars(b),
        input_chars(a + b) == input_chars(a) + input_chars(b),
    decreases b.len(),
{
    if b.len() == 0 {
        assert(a + b =~= a);
        assert(target_chars(a) + target_chars(b) =~= target_chars(a));
        assert(input_chars(a) + input_chars(b) =~= input_chars(a));
    } else {
        lemma_chars_concat(a, b.drop_last());
        assert((a + b).drop_last() =~= a + b.drop_last());
        assert((a + b).last() == b.last());
        assert(target_chars(a + b) =~= target_chars(a) + target_chars(b));
        assert(input_chars(a + b) =~= input_chars(a) + input_chars(b));
    }
}

/// The cells gathered in a sequence of runs, in order.
pub open spec fn spread(runs: Seq<Run>) -> Seq<Cell>
    decreases runs.len(),
{
    if runs.len() == 0 {
        Seq::empty()
    } else {
        spread(runs.drop_last()) + runs.last().cells()
    }
}

/// A run of one cell holds that cell; a run that takes a cell holds it last.
proof fn lemma_run_cells(run: Run, cell: Cell)
    requires
        run.wf(),
    ensures
        cell.alone().cells() == seq![cell],
        cell.alone().wf(),
        run.takes(cell) ==> run.with(cell).cells() == run.cells().push(cell) && run.with(
            cell,
        ).wf(),
{
    assert(cell.alone().cells() =~= seq![cell]);
    if run.takes(cell) {
        assert(run.with(cell).cells() =~= run.cells().push(cell));
    }
}

/// Absorbing a cell puts it behind the cells gathered so far.
proof fn lemma_absorb_spread(runs: Seq<Run>, cell: Cell)
    requires
        maximal(runs),
    ensures
        spread(absorb(runs, cell)) == spread(runs).push(cell),
{
    let after = absorb(runs, cell);
    if runs.len() > 0 && runs.last().takes(cell) {
        lemma_run_cells(runs.last(), cell);
        assert(after.drop_last() =~= runs.drop_last());
        assert(after.last() == runs.last().with(cell));
        assert(spread(after) =~= spread(runs).push(cell));
    } else {
        lemma_run_cells(cell.alone(), cell);
        assert(after.drop_last() =~= runs);
        assert(after.last() == cell.alone());
        assert(spread(after) =~= spread(runs).push(cell));
    }
}

/// Gathering loses no cell and adds none: the runs hold the cells they were
/// gathered from, in their order.
pub proof fn lemma_gather_spread(runs: Seq<Run>, cells: Seq<Cell>)
    requires
        maximal(runs),
    ensures
        spread(gather(runs, cells)) == spread(runs) + cells,
    decreases cells.len(),
{
    if cells.len() == 0 {
        assert(spread(runs) + cells =~= spread(runs));
    } else {
        lemma_gather_spread(runs, cells.drop_last());
        lemma_gather_maximal(runs, cells.drop_last());
        lemma_absorb_spread(gather(runs, cells.drop_last()), cells.last());
        assert(spread(runs) + cells =~= (spread(runs) + cells.drop_last()).push(cells.last()));
    }
}

/// Cells that are all correct gather into one correct run.
pub proof fn lemma_correct_run(cells: Seq<Cell>)
    requires
        cells.len() > 0,
        forall|k: int| 0 <= k < cells.len() ==> (#[trigger] cells[k]).kind() == Kind::Correct,
    ensures
        coalesce(cells) == seq![Run::Correct(target_chars(cells))],
    decreases cells.len(),
{
    let shorter = cells.drop_last();
    let last = cells.last();
    assert(last.kind() == Kind::Correct);
    if shorter.len() == 0 {
        assert(coalesce(shorter) =~= Seq::empty());
        assert(target_chars(shorter) =~= Seq::empty());
        assert(target_chars(cells) =~= last.target_part());
        assert(coalesce(cells) =~= seq![Run::Correct(target_chars(cells))]);
    } else {
        assert forall|k: int| 0 <= k < shorter.len() implies (#[trigger] shorter[k]).kind()
            == Kind::Correct by {
            assert(shorter[k] == cells[k]);
        }
        lemma_correct_run(shorter);
        let text = target_chars(shorter);
        assert(target_chars(cells) =~= text.push(last->Correct_0));
        assert(coalesce(cells) =~= seq![Run::Correct(target_chars(cells))]);
    }
}

/// Whether the run at `k` is of another kind than the run after it.
pub open spec fn turns_at(runs: Seq<Run>, k: int) -> bool {
    runs[k].kind() != runs[k + 1].kind()
}

/// Runs gathered as far as can be: none is empty or ill-formed, and no run
/// is of the kind of the run before it.
pub open spec fn maximal(runs: Seq<Run>) -> bool {
    &&& forall|k: int| 0 <= k < runs.len() ==> (#[trigger] runs[k]).len() > 0 && runs[k].wf()
    &&& forall|k: int| 0 <= k < runs.len() - 1 ==> #[trigger] turns_at(runs, k)
}

/// Absorbing a cell keeps runs maximal.
proof fn lemma_absorb_maximal(runs: Seq<Run>, cell: Cell)
    requires
        maximal(runs),
    ensures
        maximal(absorb(runs, cell)),
{
    let after = absorb(runs, cell);
    let last = after.len() - 1;
    if runs.len() > 0 && runs.last().takes(cell) {
        let grown = runs.last().with(cell);
        assert(after[last] == grown);
        assert(grown.kind() == runs.last().kind());
        assert(grown.len() == runs.last().len() + 1);
        assert(grown.wf());
        assert forall|k: int| 0 <= k < after.len() implies (#[trigger] after[k]).len() > 0
            && after[k].wf() by {
            if k < last {
                assert(after[k] == runs[k]);
            }
        }
        assert forall|k: int| 0 <= k < after.len() - 1 implies #[trigger] turns_at(after, k) by {
            assert(turns_at(runs, k));
            assert(after[k] == runs[k]);
        }
    } else {
        assert(after[last] == cell.alone());
        assert(cell.alone().len() == 1);
        assert(cell.alone().kind() == cell.kind());
        assert(cell.alone().wf());
        assert forall|k: int| 0 <= k < after.len() implies (#[trigger] after[k]).len() > 0
            && after[k].wf() by {
            if k < last {
                assert(after[k] == runs[k]);
            }
        }
        assert forall|k: int| 0 <= k < after.len() - 1 implies #[trigger] turns_at(after, k) by {
            assert(after[k] == runs[k]);
            if k < last - 1 {
                assert(turns_at(runs, k));
                assert(after[k + 1] == runs[k + 1]);
            }
        }
    }
}

/// Gathering keeps runs maximal: neighbouring cells of one kind always end
/// up in one run.
pub proof fn lemma_gather_maximal(runs: Seq<Run>, cells: Seq<Cell>)
    requires
        maximal(runs),
    ensures
        maximal(gather(runs, cells)),
    decreases cells.len(),
{
    if cells.len() > 0 {
        lemma_gather_maximal(runs, cells.drop_last());
        lemma_absorb_maximal(gather(runs, cells.drop_last()), cells.last());
    }
}

/// What coalescing yields: runs that hold the cells in their order, none
/// empty and no two neighbours of one kind.
pub proof fn lemma_coalesce(cells: Seq<Cell>)
    ensures
        spread(coalesce(cells)) == cells,
        maximal(coalesce(cells)),
{
    lemma_gather_maximal(Seq::empty(), cells);
    lemma_gather_spread(Seq::empty(), cells);
    assert(Seq::<Cell>::empty() + cells =~= cells);
}

} // verus!
