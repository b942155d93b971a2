//! The matrix as a mathematical value, and what its operations compute.

use vstd::prelude::*;
use crate::probability::Probability;
use crate::text::{
    at_most, column_of, lemma_places_differ, line_count, longest_line, row_of, LINE_BREAK,
};
use crate::vocabulary::strictly_ascending;

verus! {

/// One cell of a frame: where it is, what it shows, and whether it has reached
/// its target and is to be drawn with emphasis.
#[derive(Clone, Copy, Debug, PartialEq, Eq)]
pub struct DrawInstruction {
    pub x: u16,
    pub y: u16,
    pub glyph: char,
    pub emphasized: bool,
}

/// A grid of `width` columns and `height` rows. The cell in column `x` and row
/// `y` is held at offset `x * height + y` of `cells`, which has the glyph it
/// shows, and of `targets`, which has the glyph it is to reach.
pub struct MatrixView {
    pub width: nat,
    pub height: nat,
    pub cells: Seq<char>,
    pub targets: Seq<char>,
    pub vocabulary: Seq<char>,
    pub probability: Probability,
    pub defaulttarget: char,
}

impl MatrixView {
    /// The number of cells.
    pub open spec fn size(self) -> nat {
        self.width * self.height
    }

    /// The grid is not empty, every cell has a glyph and a target, the
    /// vocabulary is in order and has the default target, and the probability
    /// lies between zero and one.
    pub open spec fn wf(self) -> bool {
        &&& 0 < self.width <= u16::MAX
        &&& 0 < self.height <= u16::MAX
        &&& self.cells.len() == self.size()
        &&& self.targets.len() == self.size()
        &&& strictly_ascending(self.vocabulary)
        &&& self.vocabulary.contains(self.defaulttarget)
        &&& self.probability.valid()
    }

    /// Column `x`, row `y` is a place of the grid.
    pub open spec fn contains(self, x: int, y: int) -> bool {
        0 <= x < self.width && 0 <= y < self.height
    }

    /// Where column `x`, row `y` is held.
    pub open spec fn offset(self, x: int, y: int) -> int {
        x * self.height + y
    }

    /// Every cell shows its target.
    pub open spec fn done(self) -> bool {
        self.cells == self.targets
    }

    /// Every cell shows a glyph of the vocabulary.
    pub open spec fn noisy(self) -> bool {
        forall|i: int|
            #![trigger self.cells[i]]
            0 <= i < self.cells.len() ==> self.vocabulary.contains(self.cells[i])
    }

    /// The cells show what `draws` picks from the vocabulary: one draw for
    /// each cell, by offset, each the index of the glyph that the cell shows.
    pub open spec fn filled_by(self, draws: Seq<u64>) -> bool {
        &&& draws.len() == self.cells.len()
        &&& forall|i: int|
            #![trigger draws[i]]
            0 <= i < draws.len() ==> draws[i] < self.vocabulary.len() && self.cells[i]
                == self.vocabulary[draws[i] as int]
    }

    /// Cells that were picked from the vocabulary show glyphs of it.
    pub proof fn lemma_filled_is_noisy(self, draws: Seq<u64>)
        requires
            self.filled_by(draws),
        ensures
            self.noisy(),
    {
        assert forall|i: int| 0 <= i < self.cells.len() implies self.vocabulary.contains(
            #[trigger] self.cells[i],
        ) by {
            assert(self.vocabulary[draws[i] as int] == self.cells[i]);
        }
    }

    /// Glyph `k` of `text` falls on the cell at offset `cell` when the text is
    /// laid out with its first glyph in column `x`, row `y`. Line breaks fall
    /// nowhere, and neither do glyphs that the layout puts outside the grid.
    pub open spec fn falls_on(self, x: int, y: int, text: Seq<char>, k: int, cell: int) -> bool {
        &&& 0 <= k < text.len()
        &&& text[k] != LINE_BREAK
        &&& self.contains(x + column_of(text, k), y + row_of(text, k))
        &&& cell == self.offset(x + column_of(text, k), y + row_of(text, k))
    }

    /// None of the first `upto` glyphs of `text` falls on the cell at `cell`.
    pub open spec fn missed_by(self, x: int, y: int, text: Seq<char>, upto: int, cell: int) -> bool {
        forall|k: int|
            #![trigger self.falls_on(x, y, text, k, cell)]
            0 <= k < upto ==> !self.falls_on(x, y, text, k, cell)
    }

    /// `targets` is what the targets become when the first `upto` glyphs of
    /// `text` are written at column `x`, row `y`: a cell on which a glyph falls
    /// has that glyph, every other cell keeps its target.
    pub open spec fn placed_upto(
        self,
        x: int,
        y: int,
        text: Seq<char>,
        upto: int,
        targets: Seq<char>,
    ) -> bool {
        &&& targets.len() == self.targets.len()
        &&& forall|k: int, cell: int|
            #![trigger self.falls_on(x, y, text, k, cell)]
            0 <= k < upto && self.falls_on(x, y, text, k, cell) ==> targets[cell] == text[k]
        &&& forall|cell: int|
            #![trigger self.missed_by(x, y, text, upto, cell)]
            0 <= cell < targets.len() && self.missed_by(x, y, text, upto, cell) ==> targets[cell]
                == self.targets[cell]
    }

    /// `targets` is what the targets become when `text` is written at column
    /// `x`, row `y`.
    pub open spec fn placed(self, x: int, y: int, text: Seq<char>, targets: Seq<char>) -> bool {
        self.placed_upto(x, y, text, text.len() as int, targets)
    }

    /// The column in which a text starts that is centred in the grid: half the
    /// grid's width less half the text's, the text taken as no wider than the
    /// grid.
    pub open spec fn centered_column(self, text: Seq<char>) -> int {
        self.width as int / 2 - at_most(longest_line(text), self.width) as int / 2
    }

    /// The row in which a text starts that is centred in the grid: half the
    /// grid's height less half the text's, the text taken as no higher than
    /// the grid.
    pub open spec fn centered_row(self, text: Seq<char>) -> int {
        self.height as int / 2 - at_most(line_count(text), self.height) as int / 2
    }

    /// A centred text starts on the grid, in its left and upper half.
    pub proof fn lemma_centered_within(self, text: Seq<char>)
        requires
            self.wf(),
        ensures
            0 <= self.centered_column(text) <= self.width / 2,
            0 <= self.centered_row(text) <= self.height / 2,
            self.contains(self.centered_column(text), self.centered_row(text)),
    {
    }

    /// At most one glyph of a text falls on a cell.
    pub proof fn lemma_one_glyph_per_cell(
        self,
        x: int,
        y: int,
        text: Seq<char>,
        a: int,
        b: int,
        cell: int,
    )
        requires
            self.falls_on(x, y, text, a, cell),
            self.falls_on(x, y, text, b, cell),
        ensures
            a == b,
    {
        lemma_offset_injective(
            self.height as int,
            x + column_of(text, a),
            y + row_of(text, a),
            x + column_of(text, b),
            y + row_of(text, b),
        );
        if a != b {
            lemma_places_differ(text, a, b);
        }
    }

    /// A glyph that falls on the grid falls on one of its cells.
    pub proof fn lemma_falls_within(self, x: int, y: int, text: Seq<char>, k: int, cell: int)
        requires
            self.falls_on(x, y, text, k, cell),
        ensures
            0 <= cell < self.size(),
    {
        lemma_offset_in_range(
            self.width as int,
            self.height as int,
            x + column_of(text, k),
            y + row_of(text, k),
        );
    }

    /// Placement is a function: a text written at a place leaves one outcome.
    pub proof fn lemma_placed_unique(
        self,
        x: int,
        y: int,
        text: Seq<char>,
        first: Seq<char>,
        second: Seq<char>,
    )
        requires
            self.placed(x, y, text, first),
            self.placed(x, y, text, second),
        ensures
            first == second,
    {
        assert forall|cell: int| 0 <= cell < first.len() implies first[cell] == second[cell] by {
            if self.missed_by(x, y, text, text.len() as int, cell) {
                assert(first[cell] == self.targets[cell]);
            } else {
                let k = choose|k: int|
                    0 <= k < text.len() && #[trigger] self.falls_on(x, y, text, k, cell);
                assert(first[cell] == text[k]);
            }
        }
        assert(first =~= second);
    }

    /// The number of values that a tick draws for the cell at `cell`, when
    /// `trial` is the first of them: none for a cell that shows its target, one
    /// where the trial succeeds, and else a second one that picks the noise.
    pub open spec fn draws_for(self, cell: int, trial: u64) -> int {
        if self.cells[cell] == self.targets[cell] {
            0
        } else if self.probability.succeeds_on(trial) {
            1
        } else {
            2
        }
    }

    /// The number of values of `draws` that a tick uses up on the cells before
    /// `cell`. The cells take their values in turn, by offset, from the front
    /// of `draws`.
    pub open spec fn draws_before(self, draws: Seq<u64>, cell: int) -> int
        decreases cell,
    {
        if cell <= 0 {
            0
        } else {
            let at = self.draws_before(draws, cell - 1);
            at + self.draws_for(cell - 1, draws[at])
        }
    }

    /// What the cell at `cell` shows after a tick in which it draws `trial`
    /// and, should the trial fail, `pick`: a cell that shows its target keeps
    /// it, a successful trial makes the cell show its target, and a failed one
    /// makes it show the glyph of the vocabulary at index `pick`.
    pub open spec fn resolved(self, cell: int, trial: u64, pick: u64) -> char {
        if self.cells[cell] == self.targets[cell] || self.probability.succeeds_on(trial) {
            self.targets[cell]
        } else {
            self.vocabulary[pick as int]
        }
    }

    /// What the cell at `cell` shows after a tick that draws `draws`.
    pub open spec fn cell_after(self, draws: Seq<u64>, cell: int) -> char {
        let at = self.draws_before(draws, cell);
        self.resolved(cell, draws[at], draws[at + 1])
    }

    /// The values that a tick draws for the cell at `cell` are ones that the
    /// source can hand out: the trial's lies below the probability's
    /// denominator, the pick below the size of the vocabulary.
    pub open spec fn fits(self, draws: Seq<u64>, cell: int) -> bool {
        let at = self.draws_before(draws, cell);
        self.cells[cell] != self.targets[cell] ==> {
            &&& draws[at] < self.probability.denominator
            &&& !self.probability.succeeds_on(draws[at]) ==> draws[at + 1] < self.vocabulary.len()
        }
    }

    /// `draws` is what one tick of this matrix draws: as many values as the
    /// cells use up between them, each one that the source can hand out.
    pub open spec fn ticks_on(self, draws: Seq<u64>) -> bool {
        &&& draws.len() == self.draws_before(draws, self.cells.len() as int)
        &&& forall|cell: int|
            #![trigger self.fits(draws, cell)]
            0 <= cell < self.cells.len() ==> self.fits(draws, cell)
    }

    /// The matrix after a tick that draws `draws`.
    pub open spec fn ticked(self, draws: Seq<u64>) -> MatrixView {
        MatrixView {
            cells: Seq::new(self.cells.len(), |cell: int| self.cell_after(draws, cell)),
            ..self
        }
    }

    /// The cell at `cell` can never reach its target: no trial succeeds, and
    /// the glyph it is to show is none that noise can bring.
    pub open spec fn stuck_at(self, cell: int) -> bool {
        &&& 0 <= cell < self.cells.len()
        &&& self.probability.impossible()
        &&& self.cells[cell] != self.targets[cell]
        &&& !self.vocabulary.contains(self.targets[cell])
    }

    /// A tick uses up values from the front of what it draws and never gives
    /// one back.
    pub proof fn lemma_draws_ascend(self, draws: Seq<u64>, a: int, b: int)
        requires
            a <= b,
        ensures
            0 <= self.draws_before(draws, a) <= self.draws_before(draws, b),
        decreases b,
    {
        if b > 0 {
            if a < b {
                self.lemma_draws_ascend(draws, a, b - 1);
            } else {
                self.lemma_draws_ascend(draws, b - 1, b - 1);
            }
        }
    }

    /// What a tick does to the cells before `upto` rests on the values that it
    /// uses up on them and on no others: two sequences of draws that agree on
    /// those values use up equally many on the cells before `cell`.
    pub proof fn lemma_draws_agree(self, first: Seq<u64>, second: Seq<u64>, upto: int, cell: int)
        requires
            forall|i: int| 0 <= i < self.draws_before(first, upto) ==> first[i] == second[i],
            cell <= upto,
        ensures
            self.draws_before(first, cell) == self.draws_before(second, cell),
        decreases cell,
    {
        if cell > 0 {
            self.lemma_draws_agree(first, second, upto, cell - 1);
            self.lemma_draws_ascend(first, cell, upto);
            self.lemma_draws_ascend(first, cell - 1, cell - 1);
        }
    }

    /// Two sequences of draws that agree on the values used up on the cells
    /// before `upto` treat each of those cells alike.
    pub proof fn lemma_cells_agree(self, first: Seq<u64>, second: Seq<u64>, upto: int, cell: int)
        requires
            forall|i: int| 0 <= i < self.draws_before(first, upto) ==> first[i] == second[i],
            0 <= cell < upto,
        ensures
            self.draws_before(first, cell) == self.draws_before(second, cell),
            self.cell_after(first, cell) == self.cell_after(second, cell),
            self.fits(first, cell) == self.fits(second, cell),
    {
        self.lemma_draws_agree(first, second, upto, cell);
        self.lemma_draws_agree(first, second, upto, cell + 1);
        self.lemma_draws_ascend(first, cell + 1, upto);
        self.lemma_draws_ascend(first, cell, cell);
    }

    /// The matrix after one tick for each member of `rounds`, in order, the
    /// tick taking that member as its draws.
    pub open spec fn after_ticks(self, rounds: Seq<Seq<u64>>) -> MatrixView
        decreases rounds.len(),
    {
        if rounds.len() == 0 {
            self
        } else {
            self.after_ticks(rounds.drop_last()).ticked(rounds.last())
        }
    }

    /// Each member of `rounds` is what the tick of its turn draws.
    pub open spec fn ticks_through(self, rounds: Seq<Seq<u64>>) -> bool
        decreases rounds.len(),
    {
        rounds.len() > 0 ==> {
            &&& self.ticks_through(rounds.drop_last())
            &&& self.after_ticks(rounds.drop_last()).ticks_on(rounds.last())
        }
    }

    /// A tick changes what the cells show and nothing else, and leaves the
    /// matrix well formed.
    pub proof fn lemma_tick_keeps_shape(self, draws: Seq<u64>)
        requires
            self.wf(),
        ensures
            self.ticked(draws).wf(),
            self.ticked(draws) == (MatrixView { cells: self.ticked(draws).cells, ..self }),
            self.ticked(draws).cells.len() == self.cells.len(),
    {
    }

    /// A tick leaves a cell alone that shows its target.
    pub proof fn lemma_tick_keeps_settled(self, draws: Seq<u64>, cell: int)
        requires
            0 <= cell < self.cells.len(),
            self.cells[cell] == self.targets[cell],
        ensures
            self.ticked(draws).cells[cell] == self.cells[cell],
    {
    }

    /// After a tick a cell that did not show its target shows it now, or
    /// shows a glyph of the vocabulary.
    pub proof fn lemma_tick_outcomes(self, draws: Seq<u64>, cell: int)
        requires
            self.wf(),
            self.ticks_on(draws),
            0 <= cell < self.cells.len(),
        ensures
            self.ticked(draws).cells[cell] == self.targets[cell] || self.vocabulary.contains(
                self.ticked(draws).cells[cell],
            ),
    {
        assert(self.fits(draws, cell));
        let at = self.draws_before(draws, cell);
        if self.cells[cell] != self.targets[cell] && !self.probability.succeeds_on(draws[at]) {
            assert(self.vocabulary[draws[at + 1] as int] == self.ticked(draws).cells[cell]);
        }
    }

    /// Where the probability is one, a single tick makes every cell show its
    /// target.
    pub proof fn lemma_certain_tick_settles(self, draws: Seq<u64>)
        requires
            self.wf(),
            self.probability.certain(),
            self.ticks_on(draws),
        ensures
            self.ticked(draws).done(),
    {
        assert forall|cell: int| 0 <= cell < self.cells.len() implies self.ticked(draws).cells[cell]
            == self.targets[cell] by {
            assert(self.fits(draws, cell));
        }
        assert(self.ticked(draws).cells =~= self.targets);
    }

    /// A cell that can never reach its target has not reached it after a tick,
    /// and still never can.
    pub proof fn lemma_stuck_stays(self, draws: Seq<u64>, cell: int)
        requires
            self.wf(),
            self.ticks_on(draws),
            self.stuck_at(cell),
        ensures
            self.ticked(draws).stuck_at(cell),
            !self.ticked(draws).done(),
    {
        assert(self.fits(draws, cell));
        let at = self.draws_before(draws, cell);
        assert(self.vocabulary[draws[at + 1] as int] == self.ticked(draws).cells[cell]);
    }

    /// Where no trial succeeds and a cell's target is no glyph of the
    /// vocabulary, no number of ticks makes that cell show its target: the
    /// matrix is never done.
    pub proof fn lemma_stuck_forever(self, rounds: Seq<Seq<u64>>, cell: int)
        requires
            self.wf(),
            self.stuck_at(cell),
            self.ticks_through(rounds),
        ensures
            self.after_ticks(rounds).wf(),
            self.after_ticks(rounds).stuck_at(cell),
            !self.after_ticks(rounds).done(),
        decreases rounds.len(),
    {
        if rounds.len() > 0 {
            self.lemma_stuck_forever(rounds.drop_last(), cell);
            let before = self.after_ticks(rounds.drop_last());
            before.lemma_tick_keeps_shape(rounds.last());
            before.lemma_stuck_stays(rounds.last(), cell);
        }
    }

    /// A tick is a function of the matrix and of the values that its source
    /// hands out: two ticks of one matrix whose sources hand out the same
    /// values, as far as both draw, draw equally many and end in the same
    /// matrix.
    pub proof fn lemma_tick_reproducible(self, first: Seq<u64>, second: Seq<u64>)
        requires
            self.ticks_on(first),
            self.ticks_on(second),
            forall|i: int| 0 <= i < first.len() && i < second.len() ==> first[i] == second[i],
        ensures
            first == second,
            self.ticked(first) == self.ticked(second),
    {
        let size = self.cells.len() as int;
        if first.len() <= second.len() {
            self.lemma_draws_agree(first, second, size, size);
        } else {
            self.lemma_draws_agree(second, first, size, size);
        }
        assert(first =~= second);
    }

    /// The instruction that draws the cell at offset `cell`: its column and
    /// row, the glyph it shows, and emphasis where that glyph is its target.
    pub open spec fn instruction(self, cell: int) -> DrawInstruction {
        DrawInstruction {
            x: (cell / self.height as int) as u16,
            y: (cell % self.height as int) as u16,
            glyph: self.cells[cell],
            emphasized: self.cells[cell] == self.targets[cell],
        }
    }

    /// The frame that shows the matrix: one instruction for each cell, by
    /// offset.
    pub open spec fn frame(self) -> Seq<DrawInstruction> {
        Seq::new(self.cells.len(), |cell: int| self.instruction(cell))
    }

    /// The frame draws every place of the grid, and draws it as the place
    /// itself.
    pub proof fn lemma_frame_covers_grid(self, x: int, y: int)
        requires
            self.wf(),
            self.contains(x, y),
        ensures
            0 <= self.offset(x, y) < self.frame().len(),
            self.frame()[self.offset(x, y)] == (DrawInstruction {
                x: x as u16,
                y: y as u16,
                glyph: self.cells[self.offset(x, y)],
                emphasized: self.cells[self.offset(x, y)] == self.targets[self.offset(x, y)],
            }),
    {
        lemma_offset_in_range(self.width as int, self.height as int, x, y);
    }

    /// The frame is a function of the grid alone, of what its cells show and
    /// of their targets: matrices that agree in these have the same frame. So
    /// a matrix that is shown twice with no change between gives one frame
    /// twice.
    pub proof fn lemma_frame_repeatable(self, other: MatrixView)
        requires
            self.width == other.width,
            self.height == other.height,
            self.cells == other.cells,
            self.targets == other.targets,
        ensures
            self.frame() == other.frame(),
    {
        assert(self.frame() =~= other.frame());
    }

    /// A matrix of noise whose vocabulary is the default target alone, and
    /// whose targets are all the default, shows every target from the start.
    pub proof fn lemma_one_glyph_is_done(self)
        requires
            self.wf(),
            self.noisy(),
            self.blank(),
            self.vocabulary.len() == 1,
        ensures
            self.done(),
    {
        let only = choose|i: int| 0 <= i < self.vocabulary.len() && self.vocabulary[i] == self.defaulttarget;
        assert forall|cell: int| 0 <= cell < self.cells.len() implies self.cells[cell]
            == self.targets[cell] by {
            let at = choose|i: int| 0 <= i < self.vocabulary.len() && self.vocabulary[i] == self.cells[cell];
            assert(at == only);
        }
        assert(self.cells =~= self.targets);
    }

    /// The empty text changes no target, wherever it is written.
    pub proof fn lemma_empty_text_places_nothing(self, x: int, y: int, targets: Seq<char>)
        requires
            self.placed(x, y, Seq::<char>::empty(), targets),
        ensures
            targets == self.targets,
    {
        assert forall|cell: int| 0 <= cell < targets.len() implies targets[cell]
            == self.targets[cell] by {
            assert(self.missed_by(x, y, Seq::<char>::empty(), 0, cell));
        }
        assert(targets =~= self.targets);
    }

    /// Every cell has the default target.
    pub open spec fn blank(self) -> bool {
        forall|i: int|
            #![trigger self.targets[i]]
            0 <= i < self.targets.len() ==> self.targets[i] == self.defaulttarget
    }
}

/// Offsets tell places apart: two places of a grid with rows `0..height` that
/// are held at the same offset are the same place.
pub proof fn lemma_offset_injective(height: int, x1: int, y1: int, x2: int, y2: int)
    requires
        0 <= y1 < height,
        0 <= y2 < height,
        x1 * height + y1 == x2 * height + y2,
    ensures
        x1 == x2,
        y1 == y2,
{
    assert(x1 == x2) by (nonlinear_arith)
        requires
            0 <= y1 < height,
            0 <= y2 < height,
            x1 * height + y1 == x2 * height + y2,
    {
        if x1 < x2 {
            assert((x2 - x1) * height >= height);
        } else if x2 < x1 {
            assert((x1 - x2) * height >= height);
        }
    }
}

/// A grid whose sides fit sixteen bits has a number of cells that fits the
/// machine's word.
pub proof fn lemma_size_fits(width: int, height: int)
    requires
        0 <= width <= u16::MAX,
        0 <= height <= u16::MAX,
    ensures
        0 <= width * height <= usize::MAX,
{
    assert(0 <= width * height <= 0xffff * 0xffff) by (nonlinear_arith)
        requires
            0 <= width <= 0xffff,
            0 <= height <= 0xffff,
    ;
}

/// The offset of a place of the grid is the offset of one of its cells, and
/// gives the place back by division.
pub proof fn lemma_offset_in_range(width: int, height: int, x: int, y: int)
    requires
        0 <= x < width,
        0 <= y < height,
    ensures
        0 <= x * height + y < width * height,
        (x * height + y) / height == x,
        (x * height + y) % height == y,
{
    assert(0 <= x * height + y < width * height) by (nonlinear_arith)
        requires
            0 <= x < width,
            0 <= y < height,
    {
        assert(x * height <= (width - 1) * height);
    }
    vstd::arithmetic::div_mod::lemma_fundamental_div_mod_converse(x * height + y, height, x, y);
}

} // verus!
